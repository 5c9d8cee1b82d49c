//! The values of the runtime.

use vstd::prelude::*;

verus! {

/// A number of the runtime, held exactly. A number that is whole and lies in
/// the signed or the unsigned 32-bit range is an `Integer`; any other number
/// is given by the bits of its floating-point form.
#[derive(Clone, Copy, Debug, PartialEq, Eq, Structural)]
pub enum Number {
    Integer(i64),
    Single(u32),
    Double(u64),
}

/// An integer of arbitrary size: a sign and 64-bit words, lowest first.
#[derive(Debug, PartialEq, Eq)]
pub struct BigInt {
    pub negative: bool,
    pub words: Vec<u64>,
}

/// The natural number that `words` spell, lowest word first.
pub open spec fn magnitude(words: Seq<u64>) -> nat
    decreases words.len(),
{
    if words.len() == 0 {
        0
    } else {
        (words[0] as nat) + 0x1_0000_0000_0000_0000 * magnitude(words.drop_first())
    }
}

/// The integer that a sign and words denote.
pub open spec fn signed_magnitude(negative: bool, words: Seq<u64>) -> int {
    if negative {
        -(magnitude(words) as int)
    } else {
        magnitude(words) as int
    }
}

impl View for BigInt {
    type V = int;

    open spec fn view(&self) -> int {
        signed_magnitude(self.negative, self.words@)
    }
}

/// The name of a property: a string, an index for positional entries, or
/// a symbol of the runtime, by the number the embedding gave it.
#[derive(Debug, PartialEq, Eq)]
pub enum Key {
    Name(String),
    Index(u32),
    Symbol(u64),
}

pub enum KeyV {
    Name(Seq<char>),
    Index(u32),
    Symbol(u64),
}

impl View for Key {
    type V = KeyV;

    open spec fn view(&self) -> KeyV {
        match self {
            Key::Name(s) => KeyV::Name(s@),
            Key::Index(i) => KeyV::Index(*i),
            Key::Symbol(n) => KeyV::Symbol(*n),
        }
    }
}

impl Key {
    /// Whether two keys name the same property.
    pub fn same(&self, other: &Key) -> (r: bool)
        ensures
            r == (self@ == other@),
    {
        match (self, other) {
            (Key::Name(a), Key::Name(b)) => *a == *b,
            (Key::Index(a), Key::Index(b)) => *a == *b,
            (Key::Symbol(a), Key::Symbol(b)) => *a == *b,
            _ => false,
        }
    }

    /// A copy of the key.
    pub fn duplicate(&self) -> (r: Key)
        ensures
            r@ == self@,
    {
        match self {
            Key::Name(s) => Key::Name(s.clone()),
            Key::Index(i) => Key::Index(*i),
            Key::Symbol(n) => Key::Symbol(*n),
        }
    }
}

/// A value of the runtime. An object is named by its handle in a [`Heap`].
#[derive(Debug, PartialEq, Eq)]
pub enum Value {
    Undefined,
    Null,
    Bool(bool),
    Number(Number),
    BigInt(BigInt),
    Str(String),
    Object(usize),
}

pub enum ValueV {
    Undefined,
    Null,
    Bool(bool),
    Number(Number),
    BigInt(int),
    Str(Seq<char>),
    Object(usize),
}

impl View for Value {
    type V = ValueV;

    open spec fn view(&self) -> ValueV {
        match self {
            Value::Undefined => ValueV::Undefined,
            Value::Null => ValueV::Null,
            Value::Bool(b) => ValueV::Bool(*b),
            Value::Number(n) => ValueV::Number(*n),
            Value::BigInt(b) => ValueV::BigInt(b@),
            Value::Str(s) => ValueV::Str(s@),
            Value::Object(h) => ValueV::Object(*h),
        }
    }
}

impl Value {
    /// A copy of the value. The copy of an object is the same object.
    pub fn duplicate(&self) -> (r: Value)
        ensures
            r@ == self@,
    {
        match self {
            Value::Undefined => Value::Undefined,
            Value::Null => Value::Null,
            Value::Bool(b) => Value::Bool(*b),
            Value::Number(n) => Value::Number(*n),
            Value::BigInt(b) => Value::BigInt(
                BigInt { negative: b.negative, words: b.words.clone() },
            ),
            Value::Str(s) => Value::Str(s.clone()),
            Value::Object(h) => Value::Object(*h),
        }
    }

    /// Whether the value is `null` or `undefined`.
    pub fn is_null_or_undefined(&self) -> (r: bool)
        ensures
            r == (self@ is Null || self@ is Undefined),
    {
        match self {
            Value::Undefined => true,
            Value::Null => true,
            _ => false,
        }
    }
}

/// The views of a sequence of values.
pub open spec fn values_view(values: Seq<Value>) -> Seq<ValueV> {
    values.map_values(|v: Value| v@)
}

/// The views of a sequence of entries.
pub open spec fn entries_view(entries: Seq<(Key, Value)>) -> Seq<(KeyV, ValueV)> {
    entries.map_values(|e: (Key, Value)| (e.0@, e.1@))
}

/// The views of a sequence of pairs.
pub open spec fn pairs_view(pairs: Seq<(Value, Value)>) -> Seq<(ValueV, ValueV)> {
    pairs.map_values(|e: (Value, Value)| (e.0@, e.1@))
}

} // verus!
