//! Native values.

use crate::marshal::value::Number;
use vstd::prelude::*;

verus! {

/// The element type of a typed array.
#[derive(Clone, Copy, Debug, PartialEq, Eq, Structural)]
pub enum ElemKind {
    U8,
    I8,
    U16,
    I16,
    U32,
    I32,
    F32,
    F64,
}

impl ElemKind {
    /// The largest bit pattern of one element.
    pub open spec fn spec_mask(self) -> u64 {
        match self {
            ElemKind::U8 | ElemKind::I8 => 0xff,
            ElemKind::U16 | ElemKind::I16 => 0xffff,
            ElemKind::U32 | ElemKind::I32 | ElemKind::F32 => 0xffff_ffff,
            ElemKind::F64 => 0xffff_ffff_ffff_ffff,
        }
    }

    /// The largest bit pattern of one element.
    #[verifier::when_used_as_spec(spec_mask)]
    pub fn mask(self) -> (r: u64)
        ensures
            r == self.spec_mask(),
    {
        match self {
            ElemKind::U8 | ElemKind::I8 => 0xff,
            ElemKind::U16 | ElemKind::I16 => 0xffff,
            ElemKind::U32 | ElemKind::I32 | ElemKind::F32 => 0xffff_ffff,
            ElemKind::F64 => 0xffff_ffff_ffff_ffff,
        }
    }

    /// The size of one element in bytes.
    pub open spec fn size_of(self) -> nat {
        match self {
            ElemKind::U8 | ElemKind::I8 => 1,
            ElemKind::U16 | ElemKind::I16 => 2,
            ElemKind::U32 | ElemKind::I32 | ElemKind::F32 => 4,
            ElemKind::F64 => 8,
        }
    }

    /// The size of one element in bytes.
    pub fn size(self) -> (r: usize)
        ensures
            r == self.size_of(),
    {
        match self {
            ElemKind::U8 | ElemKind::I8 => 1,
            ElemKind::U16 | ElemKind::I16 => 2,
            ElemKind::U32 | ElemKind::I32 | ElemKind::F32 => 4,
            ElemKind::F64 => 8,
        }
    }
}

/// A contiguous sequence of fixed-width elements, each held by its bit
/// pattern: an integer in two's complement, a float by the bits of its
/// format.
#[derive(Debug, PartialEq, Eq)]
pub struct Buffer {
    pub kind: ElemKind,
    pub bits: Vec<u64>,
}

pub struct BufferV {
    pub kind: ElemKind,
    pub bits: Seq<u64>,
}

impl View for Buffer {
    type V = BufferV;

    open spec fn view(&self) -> BufferV {
        BufferV { kind: self.kind, bits: self.bits@ }
    }
}

impl Buffer {
    /// A copy of the buffer.
    pub fn duplicate(&self) -> (r: Buffer)
        ensures
            r@ == self@,
    {
        Buffer { kind: self.kind, bits: self.bits.clone() }
    }
}

/// A native scalar. A float is held as an exact [`Number`]; an address is
/// held in its canonical text form.
#[derive(Debug, PartialEq, Eq)]
pub enum Scalar {
    Unit,
    Bool(bool),
    Char(char),
    Text(String),
    Float(Number),
    U8(u8),
    U16(u16),
    U32(u32),
    U64(u64),
    U128(u128),
    USize(usize),
    I8(i8),
    I16(i16),
    I32(i32),
    I64(i64),
    I128(i128),
    ISize(isize),
    Address(String),
}

pub enum ScalarV {
    Unit,
    Bool(bool),
    Char(char),
    Text(Seq<char>),
    Float(Number),
    U8(u8),
    U16(u16),
    U32(u32),
    U64(u64),
    U128(u128),
    USize(usize),
    I8(i8),
    I16(i16),
    I32(i32),
    I64(i64),
    I128(i128),
    ISize(isize),
    Address(Seq<char>),
}

impl View for Scalar {
    type V = ScalarV;

    open spec fn view(&self) -> ScalarV {
        match self {
            Scalar::Unit => ScalarV::Unit,
            Scalar::Bool(b) => ScalarV::Bool(*b),
            Scalar::Char(c) => ScalarV::Char(*c),
            Scalar::Text(s) => ScalarV::Text(s@),
            Scalar::Float(n) => ScalarV::Float(*n),
            Scalar::U8(x) => ScalarV::U8(*x),
            Scalar::U16(x) => ScalarV::U16(*x),
            Scalar::U32(x) => ScalarV::U32(*x),
            Scalar::U64(x) => ScalarV::U64(*x),
            Scalar::U128(x) => ScalarV::U128(*x),
            Scalar::USize(x) => ScalarV::USize(*x),
            Scalar::I8(x) => ScalarV::I8(*x),
            Scalar::I16(x) => ScalarV::I16(*x),
            Scalar::I32(x) => ScalarV::I32(*x),
            Scalar::I64(x) => ScalarV::I64(*x),
            Scalar::I128(x) => ScalarV::I128(*x),
            Scalar::ISize(x) => ScalarV::ISize(*x),
            Scalar::Address(s) => ScalarV::Address(s@),
        }
    }
}

impl Scalar {
    /// A copy of the scalar.
    pub fn duplicate(&self) -> (r: Scalar)
        ensures
            r@ == self@,
    {
        match self {
            Scalar::Unit => Scalar::Unit,
            Scalar::Bool(b) => Scalar::Bool(*b),
            Scalar::Char(c) => Scalar::Char(*c),
            Scalar::Text(s) => Scalar::Text(s.clone()),
            Scalar::Float(n) => Scalar::Float(*n),
            Scalar::U8(x) => Scalar::U8(*x),
            Scalar::U16(x) => Scalar::U16(*x),
            Scalar::U32(x) => Scalar::U32(*x),
            Scalar::U64(x) => Scalar::U64(*x),
            Scalar::U128(x) => Scalar::U128(*x),
            Scalar::USize(x) => Scalar::USize(*x),
            Scalar::I8(x) => Scalar::I8(*x),
            Scalar::I16(x) => Scalar::I16(*x),
            Scalar::I32(x) => Scalar::I32(*x),
            Scalar::I64(x) => Scalar::I64(*x),
            Scalar::I128(x) => Scalar::I128(*x),
            Scalar::ISize(x) => Scalar::ISize(*x),
            Scalar::Address(s) => Scalar::Address(s.clone()),
        }
    }
}

/// A native value. What kind of type it belongs to is said by the shape it
/// is read with.
#[derive(Debug, PartialEq, Eq)]
pub enum Native {
    /// A place that holds no value yet.
    Unset,
    /// A value that reflection cannot look into.
    Opaque,
    Scalar(Scalar),
    /// An optional value.
    Optional(Option<Box<Native>>),
    /// A smart pointer that owns its pointee alone; `None` where the pointee
    /// cannot be borrowed.
    Owned(Option<Box<Native>>),
    /// A smart pointer to the cell of a [`Memory`] with this index, which
    /// stands for the address of the pointee; `None` where the pointee
    /// cannot be borrowed.
    Shared(Option<usize>),
    /// A sequence behind a generic container.
    List(Vec<Native>),
    /// A sequence that lies contiguous in memory.
    Contiguous(Buffer),
    /// The entries of a map, in the order the map yields them.
    MapOf(Vec<(Native, Native)>),
    /// The members of a set, in the order the set yields them.
    SetOf(Vec<Native>),
    /// The fields of a struct or a tuple, in declaration order.
    Struct(Vec<Native>),
    /// The active variant of an enum, by its index, and its fields.
    Enum { variant: usize, fields: Vec<Native> },
}

pub enum NativeV {
    Unset,
    Opaque,
    Scalar(ScalarV),
    Optional(Option<Box<NativeV>>),
    Owned(Option<Box<NativeV>>),
    Shared(Option<usize>),
    List(Seq<NativeV>),
    Contiguous(BufferV),
    MapOf(Seq<(NativeV, NativeV)>),
    SetOf(Seq<NativeV>),
    Struct(Seq<NativeV>),
    Enum { variant: usize, fields: Seq<NativeV> },
}

/// The view of a native value: the same tree over sequences.
pub open spec fn native_view(v: Native) -> NativeV
    decreases v,
{
    match v {
        Native::Unset => NativeV::Unset,
        Native::Opaque => NativeV::Opaque,
        Native::Scalar(s) => NativeV::Scalar(s@),
        Native::Optional(None) => NativeV::Optional(None),
        Native::Optional(Some(b)) => NativeV::Optional(Some(Box::new(native_view(*b)))),
        Native::Owned(None) => NativeV::Owned(None),
        Native::Owned(Some(b)) => NativeV::Owned(Some(Box::new(native_view(*b)))),
        Native::Shared(a) => NativeV::Shared(a),
        Native::List(items) => NativeV::List(
            Seq::new(
                items.len() as nat,
                |i: int|
                    if 0 <= i < items.len() {
                        native_view(items[i])
                    } else {
                        NativeV::Unset
                    },
            ),
        ),
        Native::Contiguous(b) => NativeV::Contiguous(b@),
        Native::MapOf(pairs) => NativeV::MapOf(
            Seq::new(
                pairs.len() as nat,
                |i: int|
                    if 0 <= i < pairs.len() {
                        (native_view(pairs[i].0), native_view(pairs[i].1))
                    } else {
                        (NativeV::Unset, NativeV::Unset)
                    },
            ),
        ),
        Native::SetOf(items) => NativeV::SetOf(
            Seq::new(
                items.len() as nat,
                |i: int|
                    if 0 <= i < items.len() {
                        native_view(items[i])
                    } else {
                        NativeV::Unset
                    },
            ),
        ),
        Native::Struct(items) => NativeV::Struct(
            Seq::new(
                items.len() as nat,
                |i: int|
                    if 0 <= i < items.len() {
                        native_view(items[i])
                    } else {
                        NativeV::Unset
                    },
            ),
        ),
        Native::Enum { variant, fields } => NativeV::Enum {
            variant,
            fields: Seq::new(
                fields.len() as nat,
                |i: int|
                    if 0 <= i < fields.len() {
                        native_view(fields[i])
                    } else {
                        NativeV::Unset
                    },
            ),
        },
    }
}

impl View for Native {
    type V = NativeV;

    open spec fn view(&self) -> NativeV {
        native_view(*self)
    }
}

/// The views of a sequence of native values.
pub open spec fn natives_view(items: Seq<Native>) -> Seq<NativeV> {
    Seq::new(items.len(), |i: int| items[i]@)
}

/// The cells that shared pointers name, by index.
#[derive(Debug, PartialEq, Eq)]
pub struct Memory {
    pub cells: Vec<Native>,
}

impl View for Memory {
    type V = Seq<NativeV>;

    open spec fn view(&self) -> Seq<NativeV> {
        natives_view(self.cells@)
    }
}

impl Native {
    /// A copy of the value.
    pub fn duplicate(&self) -> (r: Native)
        ensures
            r@ == self@,
        decreases self, 1nat,
    {
        match self {
            Native::Unset => Native::Unset,
            Native::Opaque => Native::Opaque,
            Native::Scalar(s) => Native::Scalar(s.duplicate()),
            Native::Optional(None) => Native::Optional(None),
            Native::Optional(Some(x)) => Native::Optional(Some(Box::new(x.duplicate()))),
            Native::Owned(None) => Native::Owned(None),
            Native::Owned(Some(x)) => Native::Owned(Some(Box::new(x.duplicate()))),
            Native::Shared(a) => Native::Shared(*a),
            Native::List(items) => {
                let copies = duplicate_all(items);
                assert(Native::List(copies)@->List_0 =~= self@->List_0);
                Native::List(copies)
            },
            Native::Contiguous(b) => Native::Contiguous(b.duplicate()),
            Native::MapOf(pairs) => {
                let mut out: Vec<(Native, Native)> = Vec::new();
                let mut i: usize = 0;
                while i < pairs.len()
                    invariant
                        i <= pairs.len(),
                        out@.len() == i,
                        decreases_to!(*self => *pairs),
                        forall|j: int|
                            0 <= j < i ==> (#[trigger] out@[j]).0@ == pairs@[j].0@ && out@[j].1@
                                == pairs@[j].1@,
                    decreases pairs.len() - i,
                {
                    assert(decreases_to!(*pairs => pairs[i as int]));
                    assert(decreases_to!(pairs[i as int] => pairs[i as int].0));
                    assert(decreases_to!(pairs[i as int] => pairs[i as int].1));
                    assert(decreases_to!(*self => pairs[i as int].0));
                    assert(decreases_to!(*self => pairs[i as int].1));
                    let k = pairs[i].0.duplicate();
                    let v = pairs[i].1.duplicate();
                    out.push((k, v));
                    i += 1;
                }
                assert(Native::MapOf(out)@->MapOf_0 =~= self@->MapOf_0);
                Native::MapOf(out)
            },
            Native::SetOf(items) => {
                let copies = duplicate_all(items);
                assert(Native::SetOf(copies)@->SetOf_0 =~= self@->SetOf_0);
                Native::SetOf(copies)
            },
            Native::Struct(items) => {
                let copies = duplicate_all(items);
                assert(Native::Struct(copies)@->Struct_0 =~= self@->Struct_0);
                Native::Struct(copies)
            },
            Native::Enum { variant, fields } => {
                let copies = duplicate_all(fields);
                assert((Native::Enum { variant: *variant, fields: copies })@->Enum_fields
                    =~= self@->Enum_fields);
                Native::Enum { variant: *variant, fields: copies }
            },
        }
    }
}

/// Copies of the values.
pub fn duplicate_all(items: &Vec<Native>) -> (r: Vec<Native>)
    ensures
        r@.len() == items@.len(),
        forall|i: int| 0 <= i < r@.len() ==> (#[trigger] r@[i])@ == items@[i]@,
    decreases items, 0nat,
{
    let mut out: Vec<Native> = Vec::new();
    let mut i: usize = 0;
    while i < items.len()
        invariant
            i <= items.len(),
            out@.len() == i,
            forall|j: int| 0 <= j < i ==> (#[trigger] out@[j])@ == items@[j]@,
        decreases items.len() - i,
    {
        out.push(items[i].duplicate());
        i += 1;
    }
    out
}

} // verus!
