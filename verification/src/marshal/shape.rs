//! The shapes of native types.

use crate::marshal::native::{ElemKind, Native};
use vstd::prelude::*;

verus! {

/// The kinds of scalar that have a counterpart in the runtime.
#[derive(Clone, Copy, Debug, PartialEq, Eq, Structural)]
pub enum ScalarType {
    Unit,
    Bool,
    Char,
    Str,
    String,
    CowStr,
    F32,
    F64,
    U8,
    U16,
    U32,
    U64,
    U128,
    USize,
    I8,
    I16,
    I32,
    I64,
    I128,
    ISize,
    SocketAddr,
    IpAddr,
    Ipv4Addr,
    Ipv6Addr,
}

impl ScalarType {
    /// The element type of the typed array that can hold such scalars.
    pub open spec fn spec_elem_kind(self) -> Option<ElemKind> {
        match self {
            ScalarType::U8 => Some(ElemKind::U8),
            ScalarType::I8 => Some(ElemKind::I8),
            ScalarType::U16 => Some(ElemKind::U16),
            ScalarType::I16 => Some(ElemKind::I16),
            ScalarType::U32 => Some(ElemKind::U32),
            ScalarType::I32 => Some(ElemKind::I32),
            ScalarType::F32 => Some(ElemKind::F32),
            ScalarType::F64 => Some(ElemKind::F64),
            _ => None,
        }
    }

    /// The element type of the typed array that can hold such scalars.
    #[verifier::when_used_as_spec(spec_elem_kind)]
    pub fn elem_kind(self) -> (r: Option<ElemKind>)
        ensures
            r == self.spec_elem_kind(),
    {
        match self {
            ScalarType::U8 => Some(ElemKind::U8),
            ScalarType::I8 => Some(ElemKind::I8),
            ScalarType::U16 => Some(ElemKind::U16),
            ScalarType::I16 => Some(ElemKind::I16),
            ScalarType::U32 => Some(ElemKind::U32),
            ScalarType::I32 => Some(ElemKind::I32),
            ScalarType::F32 => Some(ElemKind::F32),
            ScalarType::F64 => Some(ElemKind::F64),
            _ => None,
        }
    }
}

/// How the fields of a struct or of a variant are written.
#[derive(Clone, Copy, Debug, PartialEq, Eq, Structural)]
pub enum StructKind {
    Unit,
    TupleStruct,
    Struct,
    Tuple,
}

/// The smart pointers that are known by name.
#[derive(Clone, Copy, Debug, PartialEq, Eq, Structural)]
pub enum KnownPointer {
    Box,
    Rc,
    RcWeak,
    Arc,
    ArcWeak,
}

/// The kinds of plain pointer.
#[derive(Clone, Copy, Debug, PartialEq, Eq, Structural)]
pub enum PointerType {
    Reference,
    Raw,
    Function,
}

/// A field of a struct, of a tuple or of a variant.
#[derive(Debug, PartialEq, Eq)]
pub struct Field {
    pub name: String,
    /// The shape of the field, by its index in the schema.
    pub shape: usize,
    /// The attributes declared on the field, each as written.
    pub attributes: Vec<String>,
    /// The value the field takes where none is given.
    pub default: Option<Native>,
}

/// What is told of the field that holds a value to whoever makes the
/// container for the value: its name, its shape and its attributes.
#[derive(Debug, PartialEq, Eq)]
pub struct Owner {
    pub name: String,
    /// The shape of the field, by its index in the schema.
    pub shape: usize,
    /// The attributes declared on the field, each as written.
    pub attributes: Vec<String>,
}

pub struct OwnerV {
    pub name: Seq<char>,
    pub shape: usize,
    pub attributes: Seq<Seq<char>>,
}

impl View for Owner {
    type V = OwnerV;

    open spec fn view(&self) -> OwnerV {
        OwnerV {
            name: self.name@,
            shape: self.shape,
            attributes: self.attributes@.map_values(|a: String| a@),
        }
    }
}

/// What is told of a field.
pub open spec fn owner_of(f: Field) -> OwnerV {
    OwnerV { name: f.name@, shape: f.shape, attributes: f.attributes@.map_values(|a: String| a@) }
}

/// What is told of the field that holds a value, if a field holds it.
pub open spec fn field_view(field: Option<&Field>) -> Option<OwnerV> {
    match field {
        Some(f) => Some(owner_of(*f)),
        None => None,
    }
}

impl Field {
    /// What is told of the field.
    pub fn owner(&self) -> (r: Owner)
        ensures
            r@ == owner_of(*self),
    {
        let mut attributes: Vec<String> = Vec::new();
        let mut i: usize = 0;
        while i < self.attributes.len()
            invariant
                i <= self.attributes.len(),
                attributes@.len() == i,
                forall|j: int| 0 <= j < i ==> (#[trigger] attributes@[j])@ == self.attributes@[j]@,
            decreases self.attributes.len() - i,
        {
            attributes.push(self.attributes[i].clone());
            i += 1;
        }
        let r = Owner { name: self.name.clone(), shape: self.shape, attributes };
        assert(r@.attributes =~= owner_of(*self).attributes);
        r
    }
}

/// The fields of a struct, of a tuple or of a variant.
#[derive(Debug, PartialEq, Eq)]
pub struct StructType {
    pub kind: StructKind,
    pub fields: Vec<Field>,
}

/// A variant of an enum.
#[derive(Debug, PartialEq, Eq)]
pub struct Variant {
    pub name: String,
    pub discriminant: Option<i64>,
    pub data: StructType,
}

/// The variants of an enum.
#[derive(Debug, PartialEq, Eq)]
pub struct EnumType {
    pub variants: Vec<Variant>,
}

/// A type that a program declares.
#[derive(Debug, PartialEq, Eq)]
pub enum UserType {
    Struct(StructType),
    Enum(EnumType),
    Union,
    Opaque,
}

/// What a type is in the language.
#[derive(Debug, PartialEq, Eq)]
pub enum Type {
    Primitive,
    Sequence,
    User(UserType),
    Pointer(PointerType),
}

/// What a type is to a reader of its values. Shapes are named by their
/// index in the schema.
#[derive(Clone, Copy, Debug, PartialEq, Eq, Structural)]
pub enum Def {
    Undefined,
    Scalar,
    MapOf { key: usize, value: usize },
    SetOf(usize),
    List(usize),
    Array(usize),
    Slice(usize),
    Optional(usize),
    Pointer { known: Option<KnownPointer>, pointee: Option<usize> },
}

/// The descriptor of a native type.
#[derive(Debug, PartialEq, Eq)]
pub struct Shape {
    /// The identity of the type.
    pub id: u64,
    pub def: Def,
    pub ty: Type,
    /// The kind of scalar, where the type is one the runtime has a
    /// counterpart for.
    pub scalar: Option<ScalarType>,
    /// The attributes declared on the type, each as written.
    pub attributes: Vec<String>,
}

/// The shapes of a program. A shape that wraps another (an optional value,
/// a smart pointer) is read only where the shape it wraps comes earlier.
#[derive(Debug, PartialEq, Eq)]
pub struct Schema {
    pub shapes: Vec<Shape>,
}

/// Whether some variant of the enum carries a payload.
pub open spec fn has_payload(variants: Seq<Variant>) -> bool {
    exists|i: int| 0 <= i < variants.len() && (#[trigger] variants[i]).data.kind != StructKind::Unit
}

impl Shape {
    /// Whether values of the shape are scalars: its definition says so, or
    /// its type is primitive.
    pub open spec fn spec_is_scalar(&self) -> bool {
        self.def is Scalar || self.ty is Primitive
    }

    /// Whether values of the shape are scalars.
    #[verifier::when_used_as_spec(spec_is_scalar)]
    pub fn is_scalar(&self) -> (r: bool)
        ensures
            r == self.spec_is_scalar(),
    {
        let by_def = match self.def {
            Def::Scalar => true,
            _ => false,
        };
        let by_type = match self.ty {
            Type::Primitive => true,
            _ => false,
        };
        by_def || by_type
    }

    /// The shape of the elements, where values of the shape are sequences.
    pub open spec fn spec_list_elem(&self) -> Option<usize> {
        match self.def {
            Def::List(t) => Some(t),
            Def::Array(t) => Some(t),
            Def::Slice(t) => Some(t),
            _ => None,
        }
    }

    /// The shape of the elements, where values of the shape are sequences.
    #[verifier::when_used_as_spec(spec_list_elem)]
    pub fn list_elem(&self) -> (r: Option<usize>)
        ensures
            r == self.spec_list_elem(),
    {
        match self.def {
            Def::List(t) => Some(t),
            Def::Array(t) => Some(t),
            Def::Slice(t) => Some(t),
            _ => None,
        }
    }

    /// The fields, where values of the shape are tuples.
    pub open spec fn spec_tuple_fields(&self) -> Option<Seq<Field>> {
        match self.ty {
            Type::User(UserType::Struct(s)) => if s.kind == StructKind::Tuple {
                Some(s.fields@)
            } else {
                None
            },
            _ => None,
        }
    }
}

/// Whether the enum marshals as an object: some variant carries a payload.
pub fn will_serialize_as_object(t: &EnumType) -> (r: bool)
    ensures
        r == has_payload(t.variants@),
{
    let mut i: usize = 0;
    while i < t.variants.len()
        invariant
            i <= t.variants.len(),
            forall|j: int| 0 <= j < i ==> (#[trigger] t.variants@[j]).data.kind == StructKind::Unit,
        decreases t.variants.len() - i,
    {
        match t.variants[i].data.kind {
            StructKind::Unit => {},
            _ => {
                return true;
            },
        }
        i += 1;
    }
    false
}

/// Whether values of the shape `sid` become objects of the runtime: scalars
/// and enums without payload never do; lists, maps, sets, structs and
/// enums with a payload always do; an optional value and a smart pointer
/// do as what they wrap does.
pub open spec fn marshals_as_object(schema: Schema, sid: usize) -> bool
    decreases sid,
{
    if sid >= schema.shapes.len() {
        false
    } else {
        let shape = schema.shapes[sid as int];
        match shape.def {
            Def::Scalar => false,
            Def::MapOf { .. } | Def::SetOf(_) | Def::List(_) | Def::Array(_) | Def::Slice(_) => true,
            Def::Optional(t) => t < sid && marshals_as_object(schema, t),
            Def::Pointer { known, pointee } => match pointee {
                Some(p) => p < sid && marshals_as_object(schema, p),
                None => false,
            },
            Def::Undefined => match shape.ty {
                Type::Primitive => false,
                Type::Sequence => true,
                Type::User(UserType::Enum(e)) => has_payload(e.variants@),
                Type::User(UserType::Struct(_)) => true,
                _ => false,
            },
        }
    }
}

/// Whether values of the shape `sid` become objects of the runtime.
pub fn will_marshal_as_object(schema: &Schema, sid: usize) -> (r: bool)
    ensures
        r == marshals_as_object(*schema, sid),
    decreases sid,
{
    if sid >= schema.shapes.len() {
        return false;
    }
    let shape = &schema.shapes[sid];
    match shape.def {
        Def::Scalar => false,
        Def::MapOf { .. } | Def::SetOf(_) | Def::List(_) | Def::Array(_) | Def::Slice(_) => true,
        Def::Optional(t) => t < sid && will_marshal_as_object(schema, t),
        Def::Pointer { known, pointee } => match pointee {
            Some(p) => p < sid && will_marshal_as_object(schema, p),
            None => false,
        },
        Def::Undefined => match &shape.ty {
            Type::Primitive => false,
            Type::Sequence => true,
            Type::User(UserType::Enum(e)) => will_serialize_as_object(e),
            Type::User(UserType::Struct(_)) => true,
            _ => false,
        },
    }
}

} // verus!
