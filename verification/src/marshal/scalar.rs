//! Scalars: numbers, big integers, strings and the unit.

use crate::marshal::error::{Error, Observed, Operation};
use crate::marshal::heap::{BodyV, Heap, ObjectV};
use crate::marshal::native::{Native, NativeV, Scalar, ScalarV};
use crate::marshal::shape::{ScalarType, Schema};
use crate::marshal::text::string_of_char;
use crate::marshal::value::{magnitude, BigInt, Number, Value, ValueV};
use crate::marshal::{same_result, Peek};
use vstd::prelude::*;
use vstd::string::StrSliceExecFns;

verus! {

/// Two to the power 128.
pub open spec fn pow128() -> int {
    0x1_0000_0000_0000_0000_0000_0000_0000_0000int
}

/// The words of a sequence from the third on spell what is left of its
/// magnitude above the first two words.
pub proof fn lemma_magnitude_split(words: Seq<u64>)
    requires
        words.len() >= 2,
    ensures
        magnitude(words) == words[0] + 0x1_0000_0000_0000_0000 * words[1] + pow128() * magnitude(
            words.skip(2),
        ),
{
    let tail = words.drop_first();
    assert(tail.drop_first() =~= words.skip(2));
    assert(magnitude(words) == words[0] + 0x1_0000_0000_0000_0000 * magnitude(tail));
    assert(magnitude(tail) == tail[0] + 0x1_0000_0000_0000_0000 * magnitude(tail.drop_first()));
}

/// Whether every word from position `from` on is zero.
fn zero_from(words: &Vec<u64>, from: usize) -> (r: bool)
    requires
        from <= words.len(),
    ensures
        r == (magnitude(words@.skip(from as int)) == 0),
{
    let mut i: usize = from;
    while i < words.len()
        invariant
            from <= i <= words.len(),
            (magnitude(words@.skip(from as int)) == 0) == (magnitude(words@.skip(i as int)) == 0),
        decreases words.len() - i,
    {
        proof {
            let rest = words@.skip(i as int);
            assert(rest.drop_first() =~= words@.skip(i + 1));
            assert(rest[0] == words@[i as int]);
            assert(magnitude(rest) == rest[0] + 0x1_0000_0000_0000_0000 * magnitude(rest.drop_first()));
        }
        if words[i] != 0 {
            return false;
        }
        i += 1;
    }
    assert(words@.skip(i as int).len() == 0);
    true
}

/// What the words of a big integer amount to, as far as 128 bits can tell.
pub enum Magnitude {
    /// The magnitude, which is below two to the power 128.
    Fits(u128),
    /// Exactly two to the power 128.
    Pow128,
    /// More than two to the power 128.
    Larger,
}

/// Reads the magnitude that `words` spell.
pub fn magnitude_of(words: &Vec<u64>) -> (r: Magnitude)
    ensures
        match r {
            Magnitude::Fits(m) => magnitude(words@) == m,
            Magnitude::Pow128 => magnitude(words@) == pow128(),
            Magnitude::Larger => magnitude(words@) > pow128(),
        },
{
    let n = words.len();
    if n == 0 {
        return Magnitude::Fits(0);
    }
    let lo = words[0];
    if n == 1 {
        proof {
            assert(words@.drop_first().len() == 0);
            assert(magnitude(words@.drop_first()) == 0);
            assert(magnitude(words@) == words@[0] + 0x1_0000_0000_0000_0000 * magnitude(words@.drop_first()));
        }
        return Magnitude::Fits(lo as u128);
    }
    let hi = words[1];
    proof {
        lemma_magnitude_split(words@);
    }
    let low: u128 = ((hi as u128) << 64) | (lo as u128);
    assert(low == lo + 0x1_0000_0000_0000_0000 * hi) by (bit_vector)
        requires
            low == ((hi as u128) << 64) | (lo as u128),
    ;
    if zero_from(words, 2) {
        return Magnitude::Fits(low);
    }
    proof {
        let rest = words@.skip(2);
        assert(rest.len() > 0);
        assert(rest.drop_first() =~= words@.skip(3));
        assert(rest[0] == words@[2]);
        assert(magnitude(rest) == rest[0] + 0x1_0000_0000_0000_0000 * magnitude(rest.drop_first()));
    }
    if low == 0 && words[2] == 1 && zero_from(words, 3) {
        return Magnitude::Pow128;
    }
    proof {
        let rest = magnitude(words@.skip(2));
        let tail = magnitude(words@.skip(3));
        assert(rest >= 1);
        if low == 0 {
            assert(rest >= 2);
        }
    }
    Magnitude::Larger
}

/// The two 64-bit words of an unsigned 128-bit integer, the low one first.
pub open spec fn two_words(value: u128) -> Seq<u64> {
    seq![
        (value % 0x1_0000_0000_0000_0000) as u64,
        (value / 0x1_0000_0000_0000_0000) as u64,
    ]
}

/// The big integer that equals an unsigned 128-bit integer: its two words,
/// the low one first, without a sign.
pub fn u128_to_bigint(value: u128) -> (r: BigInt)
    ensures
        r@ == value,
        !r.negative,
        r.words@ == two_words(value),
{
    let lo = (value & 0xffff_ffff_ffff_ffff) as u64;
    let hi = (value >> 64) as u64;
    assert(lo + 0x1_0000_0000_0000_0000 * hi == value) by (bit_vector)
        requires
            lo == (value & 0xffff_ffff_ffff_ffff) as u64,
            hi == (value >> 64) as u64,
    ;
    assert(lo == (value % 0x1_0000_0000_0000_0000) as u64) by (bit_vector)
        requires
            lo == (value & 0xffff_ffff_ffff_ffff) as u64,
    ;
    assert(hi == (value / 0x1_0000_0000_0000_0000) as u64) by (bit_vector)
        requires
            hi == (value >> 64) as u64,
    ;
    let mut words: Vec<u64> = Vec::new();
    words.push(lo);
    words.push(hi);
    proof {
        lemma_magnitude_split(words@);
        assert(words@.skip(2).len() == 0);
        assert(words@ =~= two_words(value));
    }
    BigInt { negative: false, words }
}

/// The integer that stands for a signed 128-bit integer in the runtime.
/// The lowest one is written with a third word, as the negative of two to
/// the power 128; every other one stands for itself.
pub open spec fn i128_image(value: i128) -> int {
    if value == i128::MIN {
        -pow128()
    } else {
        value as int
    }
}

/// The signed 128-bit integer that an integer of the runtime stands for:
/// the one it is the image of, or the one it equals.
pub open spec fn i128_preimage(n: int) -> Option<i128> {
    if n == -pow128() {
        Some(i128::MIN)
    } else if i128::MIN <= n <= i128::MAX {
        Some(n as i128)
    } else {
        None
    }
}

/// The words that a signed 128-bit integer is written with: the two
/// words of its magnitude, or the three words of two to the power 128
/// for the lowest one.
pub open spec fn i128_words(value: i128) -> Seq<u64> {
    if value == i128::MIN {
        seq![0u64, 0u64, 1u64]
    } else if value < 0 {
        two_words((-value) as u128)
    } else {
        two_words(value as u128)
    }
}

/// The big integer that stands for a signed 128-bit integer: a sign and
/// the two words of its magnitude, or three words for the lowest one.
pub fn i128_to_bigint(value: i128) -> (r: BigInt)
    ensures
        r@ == i128_image(value),
        r.negative == (value < 0),
        r.words@ == i128_words(value),
{
    if value == i128::MIN {
        let mut words: Vec<u64> = Vec::new();
        words.push(0);
        words.push(0);
        words.push(1);
        proof {
            lemma_magnitude_split(words@);
            let rest = words@.skip(2);
            assert(rest.len() == 1);
            assert(rest[0] == 1);
            assert(rest.drop_first().len() == 0);
            assert(magnitude(rest) == rest[0] + 0x1_0000_0000_0000_0000 * magnitude(rest.drop_first()));
            assert(words@ =~= i128_words(value));
        }
        BigInt { negative: true, words }
    } else {
        let sign_bit = value < 0;
        let u: u128 = if sign_bit {
            (-value) as u128
        } else {
            value as u128
        };
        let big = u128_to_bigint(u);
        BigInt { negative: sign_bit, words: big.words }
    }
}

/// The unsigned 128-bit integer that a big integer equals, if there is one.
pub fn bigint_to_u128(value: &BigInt) -> (r: Option<u128>)
    ensures
        r == (if 0 <= value@ <= u128::MAX {
            Some(value@ as u128)
        } else {
            None
        }),
{
    match magnitude_of(&value.words) {
        Magnitude::Fits(m) => {
            if value.negative && m != 0 {
                None
            } else {
                Some(m)
            }
        },
        _ => None,
    }
}

/// The signed 128-bit integer that a big integer stands for, if there is
/// one.
pub fn bigint_to_i128(value: &BigInt) -> (r: Option<i128>)
    ensures
        r == i128_preimage(value@),
{
    match magnitude_of(&value.words) {
        Magnitude::Fits(m) => {
            if value.negative {
                if m == 0x8000_0000_0000_0000_0000_0000_0000_0000 {
                    Some(i128::MIN)
                } else if m < 0x8000_0000_0000_0000_0000_0000_0000_0000 {
                    Some(-(m as i128))
                } else {
                    None
                }
            } else {
                if m < 0x8000_0000_0000_0000_0000_0000_0000_0000 {
                    Some(m as i128)
                } else {
                    None
                }
            }
        },
        Magnitude::Pow128 => {
            if value.negative {
                Some(i128::MIN)
            } else {
                None
            }
        },
        Magnitude::Larger => None,
    }
}

/// The value of the runtime that a native scalar of the kind `st` becomes,
/// or `None` where the scalar is not of that kind. Integers of up to 32
/// bits become numbers; wider ones become big integers; a character
/// becomes a string of one character; an address becomes its text; the
/// unit becomes `null`.
pub open spec fn scalar_value(st: ScalarType, s: ScalarV) -> Option<ValueV> {
    match (st, s) {
        (ScalarType::Unit, ScalarV::Unit) => Some(ValueV::Null),
        (ScalarType::Bool, ScalarV::Bool(b)) => Some(ValueV::Bool(b)),
        (ScalarType::Char, ScalarV::Char(c)) => Some(ValueV::Str(seq![c])),
        (ScalarType::Str, ScalarV::Text(t)) => Some(ValueV::Str(t)),
        (ScalarType::String, ScalarV::Text(t)) => Some(ValueV::Str(t)),
        (ScalarType::CowStr, ScalarV::Text(t)) => Some(ValueV::Str(t)),
        (ScalarType::F32, ScalarV::Float(n)) => Some(ValueV::Number(n)),
        (ScalarType::F64, ScalarV::Float(n)) => Some(ValueV::Number(n)),
        (ScalarType::U8, ScalarV::U8(x)) => Some(ValueV::Number(Number::Integer(x as i64))),
        (ScalarType::U16, ScalarV::U16(x)) => Some(ValueV::Number(Number::Integer(x as i64))),
        (ScalarType::U32, ScalarV::U32(x)) => Some(ValueV::Number(Number::Integer(x as i64))),
        (ScalarType::U64, ScalarV::U64(x)) => Some(ValueV::BigInt(x as int)),
        (ScalarType::U128, ScalarV::U128(x)) => Some(ValueV::BigInt(x as int)),
        (ScalarType::USize, ScalarV::USize(x)) => Some(ValueV::BigInt(x as int)),
        (ScalarType::I8, ScalarV::I8(x)) => Some(ValueV::Number(Number::Integer(x as i64))),
        (ScalarType::I16, ScalarV::I16(x)) => Some(ValueV::Number(Number::Integer(x as i64))),
        (ScalarType::I32, ScalarV::I32(x)) => Some(ValueV::Number(Number::Integer(x as i64))),
        (ScalarType::I64, ScalarV::I64(x)) => Some(ValueV::BigInt(x as int)),
        (ScalarType::I128, ScalarV::I128(x)) => Some(ValueV::BigInt(i128_image(x))),
        (ScalarType::ISize, ScalarV::ISize(x)) => Some(ValueV::BigInt(x as int)),
        (ScalarType::SocketAddr, ScalarV::Address(t)) => Some(ValueV::Str(t)),
        (ScalarType::IpAddr, ScalarV::Address(t)) => Some(ValueV::Str(t)),
        (ScalarType::Ipv4Addr, ScalarV::Address(t)) => Some(ValueV::Str(t)),
        (ScalarType::Ipv6Addr, ScalarV::Address(t)) => Some(ValueV::Str(t)),
        _ => None,
    }
}

/// What marshalling a value with a scalar shape gives.
pub open spec fn scalar_to_model(schema: Schema, sid: usize, v: NativeV) -> Result<ValueV, Error> {
    if sid >= schema.shapes.len() {
        Err(Error::failed(sid, Operation::MalformedShape))
    } else {
        match schema.shapes[sid as int].scalar {
            None => Err(Error::failed(sid, Operation::UnsupportedScalar)),
            Some(st) => match v {
                NativeV::Scalar(s) => match scalar_value(st, s) {
                    Some(value) => Ok(value),
                    None => Err(Error::was_not_a(sid)),
                },
                _ => Err(Error::was_not_a(sid)),
            },
        }
    }
}

/// Marshals a scalar: `peek` has a scalar shape. A big integer is
/// written with the sign and the words of the native integer.
pub fn scalar_to_v8(peek: Peek<'_>) -> (r: Result<Value, Error>)
    ensures
        same_result(r, scalar_to_model(*peek.schema, peek.shape, peek.value@)),
        r is Ok ==> match r->Ok_0 {
            Value::BigInt(b) => written(peek.value@->Scalar_0) == Some((b.negative, b.words@)),
            _ => true,
        },
{
    let sid = peek.shape;
    if sid >= peek.schema.shapes.len() {
        return Err(Error::failed(sid, Operation::MalformedShape));
    }
    let st = match peek.schema.shapes[sid].scalar {
        None => {
            return Err(Error::failed(sid, Operation::UnsupportedScalar));
        },
        Some(st) => st,
    };
    let s = match peek.value {
        Native::Scalar(s) => s,
        _ => {
            return Err(Error::was_not_a(sid));
        },
    };
    match (st, s) {
        (ScalarType::Unit, Scalar::Unit) => Ok(Value::Null),
        (ScalarType::Bool, Scalar::Bool(b)) => Ok(Value::Bool(*b)),
        (ScalarType::Char, Scalar::Char(c)) => Ok(Value::Str(string_of_char(*c))),
        (ScalarType::Str, Scalar::Text(t)) => Ok(Value::Str(t.clone())),
        (ScalarType::String, Scalar::Text(t)) => Ok(Value::Str(t.clone())),
        (ScalarType::CowStr, Scalar::Text(t)) => Ok(Value::Str(t.clone())),
        (ScalarType::F32, Scalar::Float(n)) => Ok(Value::Number(*n)),
        (ScalarType::F64, Scalar::Float(n)) => Ok(Value::Number(*n)),
        (ScalarType::U8, Scalar::U8(x)) => Ok(Value::Number(Number::Integer(*x as i64))),
        (ScalarType::U16, Scalar::U16(x)) => Ok(Value::Number(Number::Integer(*x as i64))),
        (ScalarType::U32, Scalar::U32(x)) => Ok(Value::Number(Number::Integer(*x as i64))),
        (ScalarType::U64, Scalar::U64(x)) => Ok(Value::BigInt(u64_to_bigint(*x))),
        (ScalarType::U128, Scalar::U128(x)) => Ok(Value::BigInt(u128_to_bigint(*x))),
        (ScalarType::USize, Scalar::USize(x)) => Ok(Value::BigInt(u64_to_bigint(*x as u64))),
        (ScalarType::I8, Scalar::I8(x)) => Ok(Value::Number(Number::Integer(*x as i64))),
        (ScalarType::I16, Scalar::I16(x)) => Ok(Value::Number(Number::Integer(*x as i64))),
        (ScalarType::I32, Scalar::I32(x)) => Ok(Value::Number(Number::Integer(*x as i64))),
        (ScalarType::I64, Scalar::I64(x)) => Ok(Value::BigInt(i64_to_bigint(*x))),
        (ScalarType::I128, Scalar::I128(x)) => Ok(Value::BigInt(i128_to_bigint(*x))),
        (ScalarType::ISize, Scalar::ISize(x)) => Ok(Value::BigInt(i64_to_bigint(*x as i64))),
        (ScalarType::SocketAddr, Scalar::Address(t)) => Ok(Value::Str(t.clone())),
        (ScalarType::IpAddr, Scalar::Address(t)) => Ok(Value::Str(t.clone())),
        (ScalarType::Ipv4Addr, Scalar::Address(t)) => Ok(Value::Str(t.clone())),
        (ScalarType::Ipv6Addr, Scalar::Address(t)) => Ok(Value::Str(t.clone())),
        _ => Err(Error::was_not_a(sid)),
    }
}

/// The big integer that equals an unsigned 64-bit integer: one word,
/// without a sign.
pub fn u64_to_bigint(value: u64) -> (r: BigInt)
    ensures
        r@ == value,
        !r.negative,
        r.words@ == seq![value],
{
    let mut words: Vec<u64> = Vec::new();
    words.push(value);
    proof {
        assert(words@.drop_first().len() == 0);
        assert(magnitude(words@.drop_first()) == 0);
        assert(words@ =~= seq![value]);
    }
    BigInt { negative: false, words }
}

/// The one word of the magnitude of a signed 64-bit integer.
pub open spec fn i64_word(value: i64) -> u64 {
    if value < 0 {
        (-value) as u64
    } else {
        value as u64
    }
}

/// The big integer that equals a signed 64-bit integer: a sign and one
/// word.
pub fn i64_to_bigint(value: i64) -> (r: BigInt)
    ensures
        r@ == value,
        r.negative == (value < 0),
        r.words@ == seq![i64_word(value)],
{
    let negative = value < 0;
    let m: u64 = if negative {
        (-(value as i128)) as u64
    } else {
        value as u64
    };
    let big = u64_to_bigint(m);
    BigInt { negative, words: big.words }
}

/// The sign and the words that a wide native integer is written with as a
/// big integer; `None` for any other scalar.
pub open spec fn written(s: ScalarV) -> Option<(bool, Seq<u64>)> {
    match s {
        ScalarV::U64(x) => Some((false, seq![x])),
        ScalarV::USize(x) => Some((false, seq![x as u64])),
        ScalarV::U128(x) => Some((false, two_words(x))),
        ScalarV::I64(x) => Some((x < 0, seq![i64_word(x)])),
        ScalarV::ISize(x) => Some((x < 0, seq![i64_word(x as i64)])),
        ScalarV::I128(x) => Some((x < 0, i128_words(x))),
        _ => None,
    }
}

/// The kind of a runtime value, as it is named where another kind was
/// expected.
pub open spec fn observed(heap: Seq<ObjectV>, v: ValueV) -> Observed {
    match v {
        ValueV::Undefined => Observed::Undefined,
        ValueV::Null => Observed::Null,
        ValueV::Bool(_) => Observed::Boolean,
        ValueV::Number(_) => Observed::Number,
        ValueV::BigInt(_) => Observed::BigInt,
        ValueV::Str(_) => Observed::String,
        ValueV::Object(h) => if h < heap.len() {
            match heap[h as int].body {
                BodyV::Plain(_) => Observed::Object,
                BodyV::Array(_) => Observed::Array,
                BodyV::MapOf(_) => Observed::MapObject,
                BodyV::SetOf(_) => Observed::SetObject,
                BodyV::Typed(_) => Observed::TypedArray,
            }
        } else {
            Observed::Object
        },
    }
}

/// Names the kind of a runtime value.
pub fn type_repr(heap: &Heap, value: &Value) -> (r: Observed)
    ensures
        r == observed(heap@, value@),
{
    match value {
        Value::Undefined => Observed::Undefined,
        Value::Null => Observed::Null,
        Value::Bool(_) => Observed::Boolean,
        Value::Number(_) => Observed::Number,
        Value::BigInt(_) => Observed::BigInt,
        Value::Str(_) => Observed::String,
        Value::Object(h) => match heap.get(*h) {
            Some(o) => match o.body {
                crate::marshal::heap::Body::Plain(_) => Observed::Object,
                crate::marshal::heap::Body::Array(_) => Observed::Array,
                crate::marshal::heap::Body::MapOf(_) => Observed::MapObject,
                crate::marshal::heap::Body::SetOf(_) => Observed::SetObject,
                crate::marshal::heap::Body::Typed(_) => Observed::TypedArray,
            },
            None => Observed::Object,
        },
    }
}

/// The integer that a runtime value holds: a whole number or a big
/// integer.
pub open spec fn integer_of(v: ValueV) -> Option<int> {
    match v {
        ValueV::Number(Number::Integer(i)) => Some(i as int),
        ValueV::BigInt(n) => Some(n),
        _ => None,
    }
}

/// The native integer of the kind `st` that equals `n`, or `None` where
/// `n` lies outside the range of the kind, or the kind is no integer. A
/// signed 128-bit integer is also read from its image.
pub open spec fn integer_scalar(st: ScalarType, n: int) -> Option<ScalarV> {
    match st {
        ScalarType::U8 => if u8::MIN <= n <= u8::MAX {
            Some(ScalarV::U8(n as u8))
        } else {
            None
        },
        ScalarType::U16 => if u16::MIN <= n <= u16::MAX {
            Some(ScalarV::U16(n as u16))
        } else {
            None
        },
        ScalarType::U32 => if u32::MIN <= n <= u32::MAX {
            Some(ScalarV::U32(n as u32))
        } else {
            None
        },
        ScalarType::U64 => if u64::MIN <= n <= u64::MAX {
            Some(ScalarV::U64(n as u64))
        } else {
            None
        },
        ScalarType::U128 => if u128::MIN <= n <= u128::MAX {
            Some(ScalarV::U128(n as u128))
        } else {
            None
        },
        ScalarType::USize => if usize::MIN <= n <= usize::MAX {
            Some(ScalarV::USize(n as usize))
        } else {
            None
        },
        ScalarType::I8 => if i8::MIN <= n <= i8::MAX {
            Some(ScalarV::I8(n as i8))
        } else {
            None
        },
        ScalarType::I16 => if i16::MIN <= n <= i16::MAX {
            Some(ScalarV::I16(n as i16))
        } else {
            None
        },
        ScalarType::I32 => if i32::MIN <= n <= i32::MAX {
            Some(ScalarV::I32(n as i32))
        } else {
            None
        },
        ScalarType::I64 => if i64::MIN <= n <= i64::MAX {
            Some(ScalarV::I64(n as i64))
        } else {
            None
        },
        ScalarType::I128 => match i128_preimage(n) {
            Some(x) => Some(ScalarV::I128(x)),
            None => None,
        },
        ScalarType::ISize => if isize::MIN <= n <= isize::MAX {
            Some(ScalarV::ISize(n as isize))
        } else {
            None
        },
        _ => None,
    }
}

/// Whether the kind is one of the integers.
pub open spec fn is_integer(st: ScalarType) -> bool {
    match st {
        ScalarType::U8 | ScalarType::U16 | ScalarType::U32 | ScalarType::U64 | ScalarType::U128
        | ScalarType::USize | ScalarType::I8 | ScalarType::I16 | ScalarType::I32 | ScalarType::I64
        | ScalarType::I128 | ScalarType::ISize => true,
        _ => false,
    }
}

/// The native scalar of the kind `st` that the runtime value `v` of the
/// observed kind `seen` stands for, read for the shape `sid`.
pub open spec fn scalar_native(st: ScalarType, sid: usize, v: ValueV, seen: Observed) -> Result<
    ScalarV,
    Error,
> {
    match st {
        ScalarType::Unit => if v is Null || v is Undefined {
            Ok(ScalarV::Unit)
        } else {
            Err(Error::unexpected(sid, seen))
        },
        ScalarType::Bool => match v {
            ValueV::Bool(b) => Ok(ScalarV::Bool(b)),
            _ => Err(Error::unexpected(sid, seen)),
        },
        ScalarType::Char => match v {
            ValueV::Str(s) => if s.len() == 1 {
                Ok(ScalarV::Char(s[0]))
            } else {
                Err(Error::failed(sid, Operation::ExpectedSingleChar))
            },
            _ => Err(Error::unexpected(sid, seen)),
        },
        ScalarType::Str => Err(Error::failed(sid, Operation::UnmarshalStringSlice)),
        ScalarType::String | ScalarType::CowStr => match v {
            ValueV::Str(s) => Ok(ScalarV::Text(s)),
            _ => Err(Error::unexpected(sid, seen)),
        },
        ScalarType::F32 | ScalarType::F64 => match v {
            ValueV::Number(n) => Ok(ScalarV::Float(n)),
            _ => Err(Error::unexpected(sid, seen)),
        },
        ScalarType::SocketAddr | ScalarType::IpAddr | ScalarType::Ipv4Addr
        | ScalarType::Ipv6Addr => match v {
            ValueV::Str(s) => Ok(ScalarV::Address(s)),
            _ => Err(Error::unexpected(sid, seen)),
        },
        _ => match integer_of(v) {
            None => Err(Error::unexpected(sid, seen)),
            Some(n) => match integer_scalar(st, n) {
                Some(s) => Ok(s),
                None => Err(Error::IntOverflow(sid)),
            },
        },
    }
}

/// What unmarshalling a runtime value into a scalar shape gives.
pub open spec fn scalar_from_model(schema: Schema, sid: usize, heap: Seq<ObjectV>, v: ValueV) -> Result<
    NativeV,
    Error,
> {
    if sid >= schema.shapes.len() {
        Err(Error::failed(sid, Operation::MalformedShape))
    } else {
        match schema.shapes[sid as int].scalar {
            None => Err(Error::unexpected(sid, observed(heap, v))),
            Some(st) => match scalar_native(st, sid, v, observed(heap, v)) {
                Ok(s) => Ok(NativeV::Scalar(s)),
                Err(e) => Err(e),
            },
        }
    }
}

/// An integer of the runtime, as far as 128 bits can tell.
pub enum IntRead {
    /// The value is neither a whole number nor a big integer.
    NotInteger,
    /// A sign and a magnitude below two to the power 128.
    Small { negative: bool, magnitude: u128 },
    /// Two to the power 128, with a sign.
    Pow128 { negative: bool },
    /// Farther from zero than two to the power 128.
    Larger,
}

/// Reads the integer that a runtime value holds.
pub fn int_from_v8(value: &Value) -> (r: IntRead)
    ensures
        match r {
            IntRead::NotInteger => integer_of(value@) is None,
            IntRead::Small { negative, magnitude } => integer_of(value@) == Some(
                if negative {
                    -(magnitude as int)
                } else {
                    magnitude as int
                },
            ),
            IntRead::Pow128 { negative } => integer_of(value@) == Some(
                if negative {
                    -pow128()
                } else {
                    pow128()
                },
            ),
            IntRead::Larger => integer_of(value@) is Some && (integer_of(value@)->Some_0
                > pow128() || integer_of(value@)->Some_0 < -pow128()),
        },
{
    match value {
        Value::Number(Number::Integer(i)) => {
            let negative = *i < 0;
            let magnitude: u128 = if negative {
                (-(*i as i128)) as u128
            } else {
                *i as u128
            };
            IntRead::Small { negative, magnitude }
        },
        Value::BigInt(b) => match magnitude_of(&b.words) {
            Magnitude::Fits(m) => IntRead::Small { negative: b.negative, magnitude: m },
            Magnitude::Pow128 => IntRead::Pow128 { negative: b.negative },
            Magnitude::Larger => IntRead::Larger,
        },
        _ => IntRead::NotInteger,
    }
}

/// The integer read, where it is at least zero and at most `max`.
fn fit_unsigned(read: &IntRead, max: u128) -> (r: Option<u128>)
    ensures
        match *read {
            IntRead::Small { negative, magnitude } => r == (if (!negative || magnitude == 0)
                && magnitude <= max {
                Some(magnitude)
            } else {
                None
            }),
            _ => r is None,
        },
{
    match read {
        IntRead::Small { negative, magnitude } => {
            if (!*negative || *magnitude == 0) && *magnitude <= max {
                Some(*magnitude)
            } else {
                None
            }
        },
        _ => None,
    }
}

/// The integer read, where it is at least the negative of `low` and at
/// most `high`.
fn fit_signed(read: &IntRead, low: u128, high: u128) -> (r: Option<i128>)
    requires
        low <= 0x8000_0000_0000_0000_0000_0000_0000_0000,
        high <= i128::MAX,
    ensures
        match *read {
            IntRead::Small { negative, magnitude } => {
                let n = if negative {
                    -(magnitude as int)
                } else {
                    magnitude as int
                };
                r == (if -(low as int) <= n <= high {
                    Some(n as i128)
                } else {
                    None
                })
            },
            _ => r is None,
        },
{
    match read {
        IntRead::Small { negative, magnitude } => {
            if *negative {
                if *magnitude > low {
                    None
                } else if *magnitude == 0x8000_0000_0000_0000_0000_0000_0000_0000 {
                    Some(i128::MIN)
                } else {
                    Some(-(*magnitude as i128))
                }
            } else {
                if *magnitude <= high {
                    Some(*magnitude as i128)
                } else {
                    None
                }
            }
        },
        _ => None,
    }
}

/// Reads a native integer of the kind `st`, which is an integer kind, from
/// a runtime value, by way of the integer that the value holds.
fn unmarshal_via(st: ScalarType, sid: usize, heap: &Heap, value: &Value) -> (r: Result<
    Scalar,
    Error,
>)
    requires
        is_integer(st),
    ensures
        same_result(r, scalar_native(st, sid, value@, observed(heap@, value@))),
{
    let read = int_from_v8(value);
    if let IntRead::NotInteger = read {
        return Err(Error::unexpected(sid, type_repr(heap, value)));
    }
    let found: Option<Scalar> = match st {
        ScalarType::U8 => match fit_unsigned(&read, 0xff) {
            Some(x) => Some(Scalar::U8(x as u8)),
            None => None,
        },
        ScalarType::U16 => match fit_unsigned(&read, 0xffff) {
            Some(x) => Some(Scalar::U16(x as u16)),
            None => None,
        },
        ScalarType::U32 => match fit_unsigned(&read, 0xffff_ffff) {
            Some(x) => Some(Scalar::U32(x as u32)),
            None => None,
        },
        ScalarType::U64 => match fit_unsigned(&read, 0xffff_ffff_ffff_ffff) {
            Some(x) => Some(Scalar::U64(x as u64)),
            None => None,
        },
        ScalarType::U128 => match fit_unsigned(&read, u128::MAX) {
            Some(x) => Some(Scalar::U128(x)),
            None => None,
        },
        ScalarType::USize => match fit_unsigned(&read, usize::MAX as u128) {
            Some(x) => Some(Scalar::USize(x as usize)),
            None => None,
        },
        ScalarType::I8 => match fit_signed(&read, 0x80, 0x7f) {
            Some(x) => Some(Scalar::I8(x as i8)),
            None => None,
        },
        ScalarType::I16 => match fit_signed(&read, 0x8000, 0x7fff) {
            Some(x) => Some(Scalar::I16(x as i16)),
            None => None,
        },
        ScalarType::I32 => match fit_signed(&read, 0x8000_0000, 0x7fff_ffff) {
            Some(x) => Some(Scalar::I32(x as i32)),
            None => None,
        },
        ScalarType::I64 => match fit_signed(&read, 0x8000_0000_0000_0000, 0x7fff_ffff_ffff_ffff) {
            Some(x) => Some(Scalar::I64(x as i64)),
            None => None,
        },
        ScalarType::I128 => match read {
            IntRead::Pow128 { negative } => if negative {
                Some(Scalar::I128(i128::MIN))
            } else {
                None
            },
            _ => match fit_signed(
                &read,
                0x8000_0000_0000_0000_0000_0000_0000_0000,
                0x7fff_ffff_ffff_ffff_ffff_ffff_ffff_ffff,
            ) {
                Some(x) => Some(Scalar::I128(x)),
                None => None,
            },
        },
        ScalarType::ISize => match fit_signed(
            &read,
            (isize::MAX as u128) + 1,
            isize::MAX as u128,
        ) {
            Some(x) => Some(Scalar::ISize(x as isize)),
            None => None,
        },
        _ => None,
    };
    match found {
        Some(s) => Ok(s),
        None => Err(Error::IntOverflow(sid)),
    }
}

/// The string that a runtime value is.
pub fn string_from_v8(sid: usize, heap: &Heap, value: &Value) -> (r: Result<String, Error>)
    ensures
        match value@ {
            ValueV::Str(s) => r is Ok && r->Ok_0@ == s,
            _ => r is Err && r->Err_0 == Error::unexpected(sid, observed(heap@, value@)),
        },
{
    match value {
        Value::Str(s) => Ok(s.clone()),
        _ => Err(Error::unexpected(sid, type_repr(heap, value))),
    }
}

/// Unmarshals a scalar: the shape `sid` is a scalar shape.
pub fn scalar_from_v8(schema: &Schema, sid: usize, heap: &Heap, value: &Value) -> (r: Result<
    Native,
    Error,
>)
    ensures
        same_result(r, scalar_from_model(*schema, sid, heap@, value@)),
{
    if sid >= schema.shapes.len() {
        return Err(Error::failed(sid, Operation::MalformedShape));
    }
    let st = match schema.shapes[sid].scalar {
        None => {
            return Err(Error::unexpected(sid, type_repr(heap, value)));
        },
        Some(st) => st,
    };
    let scalar = match st {
        ScalarType::Unit => {
            if value.is_null_or_undefined() {
                Scalar::Unit
            } else {
                return Err(Error::unexpected(sid, type_repr(heap, value)));
            }
        },
        ScalarType::Bool => match value {
            Value::Bool(b) => Scalar::Bool(*b),
            _ => {
                return Err(Error::unexpected(sid, type_repr(heap, value)));
            },
        },
        ScalarType::Char => match string_from_v8(sid, heap, value) {
            Ok(s) => {
                if s.as_str().unicode_len() == 1 {
                    Scalar::Char(s.as_str().get_char(0))
                } else {
                    return Err(Error::failed(sid, Operation::ExpectedSingleChar));
                }
            },
            Err(e) => {
                return Err(e);
            },
        },
        ScalarType::Str => {
            return Err(Error::failed(sid, Operation::UnmarshalStringSlice));
        },
        ScalarType::String | ScalarType::CowStr => match string_from_v8(sid, heap, value) {
            Ok(s) => Scalar::Text(s),
            Err(e) => {
                return Err(e);
            },
        },
        ScalarType::F32 | ScalarType::F64 => match value {
            Value::Number(n) => Scalar::Float(*n),
            _ => {
                return Err(Error::unexpected(sid, type_repr(heap, value)));
            },
        },
        ScalarType::SocketAddr | ScalarType::IpAddr | ScalarType::Ipv4Addr
        | ScalarType::Ipv6Addr => match string_from_v8(sid, heap, value) {
            Ok(s) => Scalar::Address(s),
            Err(e) => {
                return Err(e);
            },
        },
        _ => match unmarshal_via(st, sid, heap, value) {
            Ok(s) => s,
            Err(e) => {
                return Err(e);
            },
        },
    };
    Ok(Native::Scalar(scalar))
}

} // verus!
