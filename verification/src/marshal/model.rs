//! What marshalling a native value gives, as a function of the value.

use crate::marshal::enum_::{behavior_of, EnumBehaviorV, EnumTagRepr};
use crate::marshal::error::{Error, Operation, VariantError};
use crate::marshal::heap::{body_set_index, with_property, BodyV, ObjectV, OriginV};
use crate::marshal::native::{BufferV, ElemKind, NativeV, ScalarV};
use crate::marshal::object::Constructor;
use crate::marshal::scalar::scalar_to_model;
use crate::marshal::shape::{
    has_payload, marshals_as_object, owner_of, Def, EnumType, Field, KnownPointer, OwnerV,
    PointerType, Schema, StructKind, Type, UserType, Variant,
};
use crate::marshal::value::{KeyV, Number, ValueV};
use vstd::prelude::*;

verus! {

/// What marshalling reads and never changes: the shapes, the cells that
/// shared pointers name, and the constructors registered for types.
pub struct Env {
    pub schema: Schema,
    pub memory: Seq<NativeV>,
    pub constructors: Map<u64, Constructor>,
}

/// What marshalling a value gives: the value of the runtime, the objects
/// it adds to the heap, in the order of their handles, and the table of
/// shared pointers afterwards.
pub struct Outcome {
    pub value: ValueV,
    pub objects: Seq<ObjectV>,
    pub table: Seq<Option<usize>>,
}

/// What filling a container gives: its body, the objects added to the heap
/// and the table of shared pointers afterwards.
pub struct Filled {
    pub body: BodyV,
    pub objects: Seq<ObjectV>,
    pub table: Seq<Option<usize>>,
}

/// What marshalling several values in turn gives.
pub struct Many {
    pub values: Seq<ValueV>,
    pub objects: Seq<ObjectV>,
    pub table: Seq<Option<usize>>,
}

/// What marshalling the entries of a map in turn gives.
pub struct ManyPairs {
    pub pairs: Seq<(ValueV, ValueV)>,
    pub objects: Seq<ObjectV>,
    pub table: Seq<Option<usize>>,
}

/// The number of cells that no object stands for yet.
pub open spec fn vacant(table: Seq<Option<usize>>) -> nat
    decreases table.len(),
{
    if table.len() == 0 {
        0
    } else {
        vacant(table.drop_last()) + if table.last() is None {
            1nat
        } else {
            0nat
        }
    }
}

/// One where values of the shape become objects, zero otherwise.
pub open spec fn flag(schema: Schema, sid: usize) -> nat {
    if marshals_as_object(schema, sid) {
        1
    } else {
        0
    }
}

/// Zero where values of the shape become objects; otherwise the index of
/// the shape, which falls with every wrapper that is taken off.
pub open spec fn rank(schema: Schema, sid: usize) -> nat {
    if marshals_as_object(schema, sid) {
        0
    } else {
        sid as nat
    }
}

/// Whether the field that holds a value asks for a typed array.
pub open spec fn asks_typed(field: Option<OwnerV>) -> bool {
    field is Some && exists|i: int|
        0 <= i < field->Some_0.attributes.len() && (#[trigger] field->Some_0.attributes[i])
            == "typed_array"@
}

/// Whether the pointer is one of the weak ones.
pub open spec fn is_weak(known: Option<KnownPointer>) -> bool {
    known == Some(KnownPointer::RcWeak) || known == Some(KnownPointer::ArcWeak)
}

/// Whether the pointer is one of those that share their pointee.
pub open spec fn is_shared(known: Option<KnownPointer>) -> bool {
    known == Some(KnownPointer::Rc) || known == Some(KnownPointer::Arc) || is_weak(known)
}

/// Whether values of the shape are enums of which no variant carries a
/// payload.
pub open spec fn is_unit_enum(schema: Schema, sid: usize) -> bool {
    sid < schema.shapes.len() && match schema.shapes[sid as int].ty {
        Type::User(UserType::Enum(e)) => !has_payload(e.variants@),
        _ => false,
    }
}

/// An array of `len` places that hold nothing yet.
pub open spec fn holes(len: nat) -> Seq<ValueV> {
    Seq::new(len, |i: int| ValueV::Undefined)
}

/// The bits of `len` elements that are zero.
pub open spec fn zeros(len: nat) -> Seq<u64> {
    Seq::new(len, |i: int| 0u64)
}

/// The discriminant of a variant, which is zero where none is declared.
pub open spec fn discriminant_of(variant: Variant) -> i64 {
    match variant.discriminant {
        Some(d) => d,
        None => 0i64,
    }
}

/// Whether the tag of a variant can be written: a name always can, and a
/// discriminant where it is a whole number of the runtime, in the signed
/// or the unsigned 32-bit range.
pub open spec fn tag_fits(repr: EnumTagRepr, variant: Variant) -> bool {
    repr is String || i32::MIN <= discriminant_of(variant) <= u32::MAX
}

/// The tag of a variant: its name, or its discriminant.
pub open spec fn tag_value(repr: EnumTagRepr, variant: Variant) -> ValueV {
    match repr {
        EnumTagRepr::String => ValueV::Str(variant.name@),
        EnumTagRepr::Number => ValueV::Number(Number::Integer(discriminant_of(variant))),
    }
}

/// What writing the tag of a variant of the enum `sid` gives: the tag, or
/// a failure where the discriminant is no whole number of the runtime.
pub open spec fn tag_model(sid: usize, repr: EnumTagRepr, variant: Variant) -> Result<
    ValueV,
    Error,
> {
    if tag_fits(repr, variant) {
        Ok(tag_value(repr, variant))
    } else {
        Err(Error::failed(sid, Operation::DiscriminantRange))
    }
}

/// The behaviour of the enum with the shape `sid`.
pub open spec fn behavior(schema: Schema, sid: usize) -> Result<EnumBehaviorV, Error> {
    if sid >= schema.shapes.len() {
        Err(Error::failed(sid, Operation::MalformedShape))
    } else {
        let attributes = schema.shapes[sid as int].attributes@;
        match behavior_of(attributes, attributes.len()) {
            Some(b) => Ok(b),
            None => Err(Error::failed(sid, Operation::InvalidEnumRepr)),
        }
    }
}

/// What marshalling an enum without payload gives: its tag.
pub open spec fn enum_unit_model(schema: Schema, sid: usize, e: EnumType, v: NativeV) -> Result<
    ValueV,
    Error,
> {
    match behavior(schema, sid) {
        Err(e) => Err(e),
        Ok(b) => match v {
            NativeV::Enum { variant, fields } => if variant < e.variants.len() {
                tag_model(sid, b.js_enum_repr, e.variants[variant as int])
            } else {
                Err(Error::Variant(VariantError::OutOfRange))
            },
            _ => Err(Error::was_not_a(sid)),
        },
    }
}

/// What marshalling a plain pointer gives: the string behind a reference
/// to a string, and a failure for every other pointer.
pub open spec fn pointer_model(sid: usize, pointer_type: PointerType, v: NativeV) -> Result<
    ValueV,
    Error,
> {
    match pointer_type {
        PointerType::Reference => match v {
            NativeV::Scalar(ScalarV::Text(t)) => Ok(ValueV::Str(t)),
            _ => Err(Error::failed(sid, Operation::ReferenceToNonString)),
        },
        PointerType::Raw => Err(Error::failed(sid, Operation::RawPointer)),
        PointerType::Function => Err(Error::failed(sid, Operation::FunctionPointer)),
    }
}

/// The number of elements of a sequence.
pub open spec fn list_len(v: NativeV) -> Option<nat> {
    match v {
        NativeV::List(items) => Some(items.len()),
        NativeV::Contiguous(b) => Some(b.bits.len()),
        _ => None,
    }
}

/// The empty container that the runtime makes for values of a shape where
/// nothing else is asked for.
pub open spec fn default_body(def: Def, len: Option<nat>) -> BodyV {
    match len {
        Some(n) => BodyV::Array(holes(n)),
        None => match def {
            Def::MapOf { .. } => BodyV::MapOf(Seq::empty()),
            Def::SetOf(_) => BodyV::SetOf(Seq::empty()),
            _ => BodyV::Plain(Seq::empty()),
        },
    }
}

/// The container that a registered constructor makes for the native
/// value `v`, which `field` holds. A prototype and a template give plain
/// objects; a function is given the number of elements, and fails where
/// that is more than a 32-bit number holds; a callback is given the value
/// and what is told of the field. Function and callback are taken to give
/// the class of container that the shape needs.
pub open spec fn construct_model(
    c: Constructor,
    sid: usize,
    def: Def,
    len: Option<nat>,
    v: NativeV,
    field: Option<OwnerV>,
) -> Result<ObjectV, Error> {
    match c {
        Constructor::Prototype(p) => Ok(
            ObjectV { origin: OriginV::Prototype(p), body: BodyV::Plain(Seq::empty()) },
        ),
        Constructor::Function(f) => match len {
            Some(n) => if n <= u32::MAX {
                Ok(
                    ObjectV {
                        origin: OriginV::Function { function: f, len: Some(n as u32) },
                        body: default_body(def, len),
                    },
                )
            } else {
                Err(Error::failed(sid, Operation::CountRange))
            },
            None => Ok(
                ObjectV {
                    origin: OriginV::Function { function: f, len: None },
                    body: default_body(def, len),
                },
            ),
        },
        Constructor::ObjectTemplate(t) => if len is Some {
            Err(Error::failed(sid, Operation::TemplateForSequence))
        } else {
            Ok(ObjectV { origin: OriginV::Template(t), body: BodyV::Plain(Seq::empty()) })
        },
        Constructor::Custom(c) => Ok(
            ObjectV {
                origin: OriginV::Custom { callback: c, value: v, field },
                body: default_body(def, len),
            },
        ),
    }
}

/// The array that is made for a sequence of `len` elements of the shape
/// `t`: a typed array where the field asks for one, a plain array
/// otherwise.
pub open spec fn create_array_model(schema: Schema, len: nat, t: usize, typed: bool) -> Result<
    ObjectV,
    Error,
> {
    if typed {
        if t < schema.shapes.len() && schema.shapes[t as int].scalar is Some
            && schema.shapes[t as int].scalar->Some_0.spec_elem_kind() is Some {
            Ok(
                ObjectV {
                    origin: OriginV::Runtime,
                    body: BodyV::Typed(
                        BufferV {
                            kind: schema.shapes[t as int].scalar->Some_0.spec_elem_kind()->Some_0,
                            bits: zeros(len),
                        },
                    ),
                },
            )
        } else {
            Err(Error::failed(t, Operation::UnsupportedElement))
        }
    } else {
        Ok(ObjectV { origin: OriginV::Runtime, body: BodyV::Array(holes(len)) })
    }
}

/// The number of elements that a constructor is told of: the number of
/// fields of a tuple, the number of elements of a sequence, and none for
/// anything else.
pub open spec fn element_count(shape: crate::marshal::shape::Shape, v: NativeV) -> Option<nat> {
    match shape.spec_tuple_fields() {
        Some(fields) => Some(fields.len()),
        None => if shape.spec_list_elem() is Some {
            list_len(v)
        } else {
            None
        },
    }
}

/// The empty container that is made for a value of the shape `sid`. The
/// constructor registered for the type makes it, and is told the number
/// of elements of a tuple or a sequence. Where none is registered, a
/// tuple gets an array of its length, a sequence an array or a typed
/// array, a map a map, a set a set, and anything else a plain object.
pub open spec fn create_model(env: Env, sid: usize, v: NativeV, field: Option<OwnerV>) -> Result<
    ObjectV,
    Error,
> {
    if sid >= env.schema.shapes.len() {
        Err(Error::failed(sid, Operation::MalformedShape))
    } else {
        let shape = env.schema.shapes[sid as int];
        let len = element_count(shape, v);
        if shape.spec_tuple_fields() is None && shape.spec_list_elem() is Some && len is None {
            Err(Error::was_not_a(sid))
        } else if env.constructors.contains_key(shape.id) {
            construct_model(env.constructors[shape.id], sid, shape.def, len, v, field)
        } else if shape.spec_tuple_fields() is Some {
            Ok(ObjectV { origin: OriginV::Runtime, body: BodyV::Array(holes(len->Some_0)) })
        } else {
            match shape.spec_list_elem() {
                Some(t) => create_array_model(env.schema, len->Some_0, t, asks_typed(field)),
                None => Ok(
                    ObjectV { origin: OriginV::Runtime, body: default_body(shape.def, None) },
                ),
            }
        }
    }
}

/// How the values of a sequence are read: all with one shape, or each
/// with the shape of its field.
pub enum Kids {
    /// The elements of a list or of a set.
    Uniform(usize),
    /// The fields of a struct or of a tuple.
    Fields(Seq<Field>),
    /// The fields of a variant of the enum `shape`, whose tag is `tag`.
    Payload { fields: Seq<Field>, tag: Seq<char>, shape: usize },
}

impl Kids {
    /// The shape of the value at position `i`.
    pub open spec fn shape_of(self, i: int) -> usize {
        match self {
            Kids::Uniform(t) => t,
            Kids::Fields(fields) => fields[i].shape,
            Kids::Payload { fields, .. } => fields[i].shape,
        }
    }

    /// What is told of the field that holds the value at position `i`,
    /// if a field holds it.
    pub open spec fn owner(self, i: int) -> Option<OwnerV> {
        match self {
            Kids::Uniform(_) => None,
            Kids::Fields(fields) => Some(owner_of(fields[i])),
            Kids::Payload { fields, .. } => Some(owner_of(fields[i])),
        }
    }

    /// Why the value at position `i` may not be written, if it may not: a
    /// payload field is named like the tag.
    pub open spec fn blocked(self, i: int) -> Option<Error> {
        match self {
            Kids::Payload { fields, tag, shape } => if fields[i].name@ == tag {
                Some(Error::ClobberedTypeTag(shape))
            } else {
                None
            },
            _ => None,
        }
    }

    /// Whether there is a shape for each of `n` values.
    pub open spec fn covers(self, n: nat) -> bool {
        match self {
            Kids::Uniform(_) => true,
            Kids::Fields(fields) => fields.len() == n,
            Kids::Payload { fields, .. } => fields.len() == n,
        }
    }
}

/// The properties after the first `k` fields are set to `values`, each
/// under its name.
pub open spec fn set_fields(
    entries: Seq<(KeyV, ValueV)>,
    fields: Seq<Field>,
    values: Seq<ValueV>,
    k: nat,
) -> Seq<(KeyV, ValueV)>
    decreases k,
{
    if k == 0 || k > fields.len() || k > values.len() {
        entries
    } else {
        with_property(
            set_fields(entries, fields, values, (k - 1) as nat),
            KeyV::Name(fields[k - 1].name@),
            values[k - 1],
        )
    }
}

/// Whether each payload field has a key: fields with names always, and
/// fields by position where a 32-bit number names each position.
pub open spec fn positions_fit(kind: StructKind, fields: Seq<Field>) -> bool {
    kind == StructKind::Struct || fields.len() <= u32::MAX
}

/// The key under which the payload field at position `i` is written: its
/// name in a variant with named fields, its position in any other.
pub open spec fn payload_key(kind: StructKind, fields: Seq<Field>, i: int) -> KeyV {
    if kind == StructKind::Struct {
        KeyV::Name(fields[i].name@)
    } else {
        KeyV::Index(i as u32)
    }
}

/// The properties after the first `k` payload fields are set to `values`.
pub open spec fn set_payload(
    entries: Seq<(KeyV, ValueV)>,
    kind: StructKind,
    fields: Seq<Field>,
    values: Seq<ValueV>,
    k: nat,
) -> Seq<(KeyV, ValueV)>
    decreases k,
{
    if k == 0 || k > fields.len() || k > values.len() {
        entries
    } else {
        with_property(
            set_payload(entries, kind, fields, values, (k - 1) as nat),
            payload_key(kind, fields, k - 1),
            values[k - 1],
        )
    }
}

/// The body after the first `k` elements are set to `values`, each at its
/// position. The body is an array or has properties.
pub open spec fn set_elements(body: BodyV, values: Seq<ValueV>, k: nat) -> BodyV
    decreases k,
{
    if k == 0 || k > values.len() {
        body
    } else {
        match body_set_index(
            set_elements(body, values, (k - 1) as nat),
            (k - 1) as usize as u32,
            values[k - 1],
        ) {
            Some(b) => b,
            None => body,
        }
    }
}

/// The bit pattern of a scalar as an element of the kind `kind`, or
/// `None` where the scalar is of another type.
pub open spec fn scalar_bits(kind: ElemKind, s: ScalarV) -> Option<u64> {
    match (kind, s) {
        (ElemKind::U8, ScalarV::U8(x)) => Some(x as u64),
        (ElemKind::U16, ScalarV::U16(x)) => Some(x as u64),
        (ElemKind::U32, ScalarV::U32(x)) => Some(x as u64),
        (ElemKind::I8, ScalarV::I8(x)) => Some(
            (if x < 0 {
                x + 0x100
            } else {
                x as int
            }) as u64,
        ),
        (ElemKind::I16, ScalarV::I16(x)) => Some(
            (if x < 0 {
                x + 0x1_0000
            } else {
                x as int
            }) as u64,
        ),
        (ElemKind::I32, ScalarV::I32(x)) => Some(
            (if x < 0 {
                x + 0x1_0000_0000
            } else {
                x as int
            }) as u64,
        ),
        (ElemKind::F32, ScalarV::Float(Number::Single(b))) => Some(b as u64),
        (ElemKind::F64, ScalarV::Float(Number::Double(b))) => Some(b),
        _ => None,
    }
}

/// The scalar that an element of the kind `kind` with the bit pattern
/// `bits` is.
pub open spec fn bits_scalar(kind: ElemKind, bits: u64) -> ScalarV {
    match kind {
        ElemKind::U8 => ScalarV::U8((bits % 0x100) as u8),
        ElemKind::U16 => ScalarV::U16((bits % 0x1_0000) as u16),
        ElemKind::U32 => ScalarV::U32((bits % 0x1_0000_0000) as u32),
        ElemKind::I8 => ScalarV::I8(
            (if bits % 0x100 >= 0x80 {
                bits % 0x100 - 0x100
            } else {
                (bits % 0x100) as int
            }) as i8,
        ),
        ElemKind::I16 => ScalarV::I16(
            (if bits % 0x1_0000 >= 0x8000 {
                bits % 0x1_0000 - 0x1_0000
            } else {
                (bits % 0x1_0000) as int
            }) as i16,
        ),
        ElemKind::I32 => ScalarV::I32(
            (if bits % 0x1_0000_0000 >= 0x8000_0000 {
                bits % 0x1_0000_0000 - 0x1_0000_0000
            } else {
                (bits % 0x1_0000_0000) as int
            }) as i32,
        ),
        ElemKind::F32 => ScalarV::Float(Number::Single((bits % 0x1_0000_0000) as u32)),
        ElemKind::F64 => ScalarV::Float(Number::Double(bits)),
    }
}

/// The value of the runtime that an element of a contiguous sequence
/// becomes where the sequence is written to a plain array.
pub open spec fn bits_value(kind: ElemKind, bits: u64) -> ValueV {
    match bits_scalar(kind, bits) {
        ScalarV::U8(x) => ValueV::Number(Number::Integer(x as i64)),
        ScalarV::U16(x) => ValueV::Number(Number::Integer(x as i64)),
        ScalarV::U32(x) => ValueV::Number(Number::Integer(x as i64)),
        ScalarV::I8(x) => ValueV::Number(Number::Integer(x as i64)),
        ScalarV::I16(x) => ValueV::Number(Number::Integer(x as i64)),
        ScalarV::I32(x) => ValueV::Number(Number::Integer(x as i64)),
        ScalarV::Float(n) => ValueV::Number(n),
        _ => ValueV::Undefined,
    }
}

/// The bit patterns of the first `k` values as elements of the kind
/// `kind`, or `None` where one of them is no scalar of that type.
pub open spec fn items_bits(kind: ElemKind, items: Seq<NativeV>, k: nat) -> Option<Seq<u64>>
    decreases k,
{
    if k == 0 || k > items.len() {
        Some(Seq::empty())
    } else {
        match items_bits(kind, items, (k - 1) as nat) {
            None => None,
            Some(bits) => match items[k - 1] {
                NativeV::Scalar(s) => match scalar_bits(kind, s) {
                    Some(b) => Some(bits.push(b)),
                    None => None,
                },
                _ => None,
            },
        }
    }
}

/// What writing a sequence to a typed array gives. A contiguous sequence
/// of the element type of the array is copied as a whole and must have
/// the length of the array. The values of any other sequence are written
/// one by one from the start of the array, each being a scalar of the
/// element type, and must not be more than the array holds; what lies
/// behind them stays.
pub open spec fn typed_model(sid: usize, v: NativeV, target: BufferV) -> Result<BufferV, Error> {
    match v {
        NativeV::Contiguous(b) => if b.kind == target.kind && b.bits.len() == target.bits.len() {
            Ok(b)
        } else {
            Err(Error::failed(sid, Operation::BufferMismatch))
        },
        NativeV::List(items) => match items_bits(target.kind, items, items.len()) {
            Some(bits) => if bits.len() <= target.bits.len() {
                Ok(
                    BufferV {
                        kind: target.kind,
                        bits: bits + target.bits.skip(bits.len() as int),
                    },
                )
            } else {
                Err(Error::failed(sid, Operation::BufferMismatch))
            },
            None => Err(Error::failed(sid, Operation::BufferMismatch)),
        },
        _ => Err(Error::was_not_a(sid)),
    }
}

/// The values of the runtime that the elements of a contiguous sequence
/// become where the sequence is written to a plain array.
pub open spec fn buffer_values(b: BufferV) -> Seq<ValueV> {
    Seq::new(b.bits.len(), |i: int| bits_value(b.kind, b.bits[i]))
}

/// What marshalling the native value `v` of the shape `sid` gives, where
/// the next object gets the handle `base` and `table` says which cells
/// have an object already. `field` is what is told of the field that holds
/// the value, if a field holds it.
///
/// A scalar is marshalled as such. An absent optional value becomes
/// `null`, a present one what it holds becomes. A smart pointer becomes
/// what its pointee becomes, and a shared one whose pointee becomes an
/// object stands for one object however often it is met. A plain pointer
/// is a string or a failure. An enum without payload becomes its tag.
/// Everything else becomes an object: the container is made first, with
/// the handle `base`, and then filled.
pub open spec fn marshal_model(
    env: Env,
    sid: usize,
    v: NativeV,
    field: Option<OwnerV>,
    base: nat,
    table: Seq<Option<usize>>,
) -> Result<Outcome, Error>
    decreases vacant(table), flag(env.schema, sid), rank(env.schema, sid), v, 3nat, 0nat,
{
    if sid >= env.schema.shapes.len() {
        Err(Error::failed(sid, Operation::MalformedShape))
    } else {
        let shape = env.schema.shapes[sid as int];
        if shape.spec_is_scalar() {
            match scalar_to_model(env.schema, sid, v) {
                Ok(value) => Ok(Outcome { value, objects: Seq::empty(), table }),
                Err(e) => Err(e),
            }
        } else {
            match shape.def {
                Def::Optional(t) => if t >= sid {
                    Err(Error::failed(sid, Operation::MalformedShape))
                } else {
                    match v {
                        NativeV::Optional(None) => Ok(
                            Outcome { value: ValueV::Null, objects: Seq::empty(), table },
                        ),
                        NativeV::Optional(Some(x)) => marshal_model(
                            env,
                            t,
                            *x,
                            field,
                            base,
                            table,
                        ),
                        _ => Err(Error::was_not_a(sid)),
                    }
                },
                Def::Pointer { known, pointee } => smart_pointer_model(
                    env,
                    sid,
                    v,
                    field,
                    base,
                    table,
                ),
                _ => match shape.ty {
                    Type::Pointer(pointer_type) => match pointer_model(sid, pointer_type, v) {
                        Ok(value) => Ok(Outcome { value, objects: Seq::empty(), table }),
                        Err(e) => Err(e),
                    },
                    _ => if is_unit_enum(env.schema, sid) {
                        match enum_unit_model(env.schema, sid, shape.ty->User_0->Enum_0, v) {
                            Ok(value) => Ok(Outcome { value, objects: Seq::empty(), table }),
                            Err(e) => Err(e),
                        }
                    } else if !marshals_as_object(env.schema, sid) {
                        Err(Error::failed(sid, Operation::UnsupportedType))
                    } else {
                        match create_model(env, sid, v, field) {
                            Err(e) => Err(e),
                            Ok(object) => match populate_model(
                                env,
                                sid,
                                v,
                                object.body,
                                base + 1,
                                table,
                            ) {
                                Err(e) => Err(e),
                                Ok(f) => Ok(
                                    Outcome {
                                        value: ValueV::Object(base as usize),
                                        objects: seq![
                                            ObjectV { origin: object.origin, body: f.body },
                                        ] + f.objects,
                                        table: f.table,
                                    },
                                ),
                            },
                        }
                    },
                },
            }
        }
    }
}

/// What marshalling a smart pointer gives: the shape `sid` is in the
/// schema and is that of a smart pointer.
///
/// A weak pointer fails. A pointer without a pointee becomes `null`. A
/// shared pointer whose pointee becomes an object gives the object that
/// the table holds for the cell; where it holds none, the container is
/// made, entered in the table, and only then filled. Any other pointer
/// becomes what its pointee becomes.
pub open spec fn smart_pointer_model(
    env: Env,
    sid: usize,
    v: NativeV,
    field: Option<OwnerV>,
    base: nat,
    table: Seq<Option<usize>>,
) -> Result<Outcome, Error>
    decreases vacant(table), flag(env.schema, sid), rank(env.schema, sid), v, 2nat, 0nat,
{
    if sid >= env.schema.shapes.len() {
        Err(Error::failed(sid, Operation::MalformedShape))
    } else {
        match env.schema.shapes[sid as int].def {
            Def::Pointer { known, pointee } => {
                if is_weak(known) {
                    Err(Error::failed(sid, Operation::WeakPointer))
                } else if !(v is Owned || v is Shared) {
                    Err(Error::was_not_a(sid))
                } else if pointee is None || v == NativeV::Owned(None) || v == NativeV::Shared(
                    None,
                ) {
                    Ok(Outcome { value: ValueV::Null, objects: Seq::empty(), table })
                } else if pointee->Some_0 >= sid {
                    Err(Error::failed(sid, Operation::MalformedShape))
                } else {
                    let p = pointee->Some_0;
                    if is_shared(known) && marshals_as_object(env.schema, p) {
                        match v {
                            NativeV::Shared(Some(cell)) => shared_model(
                                env,
                                sid,
                                p,
                                cell,
                                field,
                                base,
                                table,
                            ),
                            _ => Err(Error::was_not_a(sid)),
                        }
                    } else {
                        match v {
                            NativeV::Owned(Some(x)) => marshal_model(env, p, *x, field, base, table),
                            NativeV::Shared(Some(cell)) => if !is_shared(known) || cell
                                >= env.memory.len() {
                                Err(Error::was_not_a(sid))
                            } else {
                                marshal_model(env, p, env.memory[cell as int], field, base, table)
                            },
                            _ => Err(Error::was_not_a(sid)),
                        }
                    }
                }
            },
            _ => Err(Error::was_not_a(sid)),
        }
    }
}

/// What marshalling a shared pointer of the shape `sid` to the cell `cell`
/// gives, where the pointee has the shape `p` and becomes an object: the
/// object that the table holds for the cell; where it holds none, the
/// container is made, with the handle `base`, entered in the table, and
/// only then filled.
pub open spec fn shared_model(
    env: Env,
    sid: usize,
    p: usize,
    cell: usize,
    field: Option<OwnerV>,
    base: nat,
    table: Seq<Option<usize>>,
) -> Result<Outcome, Error>
    decreases vacant(table), 0nat, 0nat, NativeV::Unset, 0nat, 0nat,
{
    if cell >= env.memory.len() {
        Err(Error::was_not_a(sid))
    } else if cell >= table.len() {
        Err(Error::failed(sid, Operation::UntrackedPointer))
    } else {
        match table[cell as int] {
            Some(h) => Ok(Outcome { value: ValueV::Object(h), objects: Seq::empty(), table }),
            None => if p >= env.schema.shapes.len() {
                Err(Error::failed(p, Operation::MalformedShape))
            } else {
                match create_model(env, p, env.memory[cell as int], field) {
                    Err(e) => Err(e),
                    Ok(object) => {
                        let entered = table.update(cell as int, Some(base as usize));
                        // Entering an object leaves one cell fewer without
                        // one, so the other branch is never taken; it is
                        // there for the definition to end.
                        if vacant(entered) < vacant(table) {
                            match populate_model(
                                env,
                                p,
                                env.memory[cell as int],
                                object.body,
                                base + 1,
                                entered,
                            ) {
                                Err(e) => Err(e),
                                Ok(f) => Ok(
                                    Outcome {
                                        value: ValueV::Object(base as usize),
                                        objects: seq![
                                            ObjectV { origin: object.origin, body: f.body },
                                        ] + f.objects,
                                        table: f.table,
                                    },
                                ),
                            }
                        } else {
                            Err(Error::Exception)
                        }
                    },
                }
            },
        }
    }
}

/// What filling the container with the body `body` from the native value
/// `v` of the shape `sid` gives: a map, a set, a sequence, a tuple, an
/// enum with payload or a struct, each in its own way.
pub open spec fn populate_model(
    env: Env,
    sid: usize,
    v: NativeV,
    body: BodyV,
    base: nat,
    table: Seq<Option<usize>>,
) -> Result<Filled, Error>
    decreases vacant(table), 1nat, 0nat, v, 2nat, 0nat,
{
    if sid >= env.schema.shapes.len() {
        Err(Error::failed(sid, Operation::MalformedShape))
    } else {
        let shape = env.schema.shapes[sid as int];
        match shape.def {
            Def::MapOf { key, value } => map_model(env, sid, key, value, v, body, base, table),
            Def::SetOf(t) => set_model(env, sid, t, v, body, base, table),
            Def::List(t) | Def::Array(t) | Def::Slice(t) => list_model(
                env,
                sid,
                t,
                v,
                body,
                base,
                table,
            ),
            _ => match shape.ty {
                Type::User(UserType::Struct(s)) => if s.kind == StructKind::Tuple {
                    tuple_model(env, sid, s.fields@, v, body, base, table)
                } else {
                    struct_model(env, sid, s.fields@, v, body, base, table)
                },
                Type::User(UserType::Enum(e)) => enum_model(env, sid, e, v, body, base, table),
                _ => Err(Error::failed(sid, Operation::UnsupportedType)),
            },
        }
    }
}

/// What filling a map gives: one entry for each entry of the native map,
/// in order, behind those the map holds already.
pub open spec fn map_model(
    env: Env,
    sid: usize,
    key: usize,
    value: usize,
    v: NativeV,
    body: BodyV,
    base: nat,
    table: Seq<Option<usize>>,
) -> Result<Filled, Error>
    decreases vacant(table), 1nat, 0nat, v, 1nat, 0nat,
{
    match v {
        NativeV::MapOf(pairs) => match body {
            BodyV::MapOf(entries) => match marshal_pairs(
                env,
                key,
                value,
                pairs,
                pairs.len(),
                base,
                table,
            ) {
                Err(e) => Err(e),
                Ok(m) => Ok(
                    Filled {
                        body: BodyV::MapOf(entries + m.pairs),
                        objects: m.objects,
                        table: m.table,
                    },
                ),
            },
            _ => Err(Error::failed(sid, Operation::ContainerMismatch)),
        },
        _ => Err(Error::was_not_a(sid)),
    }
}

/// What filling a set gives: one member for each member of the native
/// set, in order, behind those the set holds already.
pub open spec fn set_model(
    env: Env,
    sid: usize,
    t: usize,
    v: NativeV,
    body: BodyV,
    base: nat,
    table: Seq<Option<usize>>,
) -> Result<Filled, Error>
    decreases vacant(table), 1nat, 0nat, v, 1nat, 0nat,
{
    match v {
        NativeV::SetOf(items) => match body {
            BodyV::SetOf(members) => match marshal_items(
                env,
                Kids::Uniform(t),
                items,
                items.len(),
                base,
                table,
            ) {
                Err(e) => Err(e),
                Ok(m) => Ok(
                    Filled {
                        body: BodyV::SetOf(members + m.values),
                        objects: m.objects,
                        table: m.table,
                    },
                ),
            },
            _ => Err(Error::failed(sid, Operation::ContainerMismatch)),
        },
        _ => Err(Error::was_not_a(sid)),
    }
}

/// What filling the container of a sequence gives. A plain array takes
/// each element at its position, and fails where there are more elements
/// than positions that a 32-bit number names; a typed array takes the
/// elements as bit patterns.
pub open spec fn list_model(
    env: Env,
    sid: usize,
    t: usize,
    v: NativeV,
    body: BodyV,
    base: nat,
    table: Seq<Option<usize>>,
) -> Result<Filled, Error>
    decreases vacant(table), 1nat, 0nat, v, 1nat, 0nat,
{
    match body {
        BodyV::Array(_) => match v {
            NativeV::List(items) => if items.len() > u32::MAX {
                Err(Error::failed(sid, Operation::CountRange))
            } else {
                match marshal_items(env, Kids::Uniform(t), items, items.len(), base, table) {
                    Err(e) => Err(e),
                    Ok(m) => Ok(
                        Filled {
                            body: set_elements(body, m.values, m.values.len()),
                            objects: m.objects,
                            table: m.table,
                        },
                    ),
                }
            },
            NativeV::Contiguous(b) => if b.bits.len() > u32::MAX {
                Err(Error::failed(sid, Operation::CountRange))
            } else {
                Ok(
                    Filled {
                        body: set_elements(body, buffer_values(b), b.bits.len()),
                        objects: Seq::empty(),
                        table,
                    },
                )
            },
            _ => Err(Error::was_not_a(sid)),
        },
        BodyV::Typed(target) => match typed_model(sid, v, target) {
            Ok(b) => Ok(Filled { body: BodyV::Typed(b), objects: Seq::empty(), table }),
            Err(e) => Err(e),
        },
        _ => Err(Error::failed(sid, Operation::ContainerMismatch)),
    }
}

/// What filling the container of a tuple gives: each field at its
/// position. It fails where there are more fields than positions that a
/// 32-bit number names.
pub open spec fn tuple_model(
    env: Env,
    sid: usize,
    fields: Seq<Field>,
    v: NativeV,
    body: BodyV,
    base: nat,
    table: Seq<Option<usize>>,
) -> Result<Filled, Error>
    decreases vacant(table), 1nat, 0nat, v, 1nat, 0nat,
{
    match v {
        NativeV::Struct(vals) => if vals.len() != fields.len() {
            Err(Error::was_not_a(sid))
        } else if !(body is Array || body is Plain) {
            Err(Error::failed(sid, Operation::ContainerMismatch))
        } else if vals.len() > u32::MAX {
            Err(Error::failed(sid, Operation::CountRange))
        } else {
            match marshal_items(env, Kids::Fields(fields), vals, vals.len(), base, table) {
                Err(e) => Err(e),
                Ok(m) => Ok(
                    Filled {
                        body: set_elements(body, m.values, m.values.len()),
                        objects: m.objects,
                        table: m.table,
                    },
                ),
            }
        },
        _ => Err(Error::was_not_a(sid)),
    }
}

/// What filling the object of a struct gives: each field under its name,
/// in declaration order.
pub open spec fn struct_model(
    env: Env,
    sid: usize,
    fields: Seq<Field>,
    v: NativeV,
    body: BodyV,
    base: nat,
    table: Seq<Option<usize>>,
) -> Result<Filled, Error>
    decreases vacant(table), 1nat, 0nat, v, 1nat, 0nat,
{
    match v {
        NativeV::Struct(vals) => if vals.len() != fields.len() {
            Err(Error::was_not_a(sid))
        } else {
            match body {
                BodyV::Plain(entries) => match marshal_items(
                    env,
                    Kids::Fields(fields),
                    vals,
                    vals.len(),
                    base,
                    table,
                ) {
                    Err(e) => Err(e),
                    Ok(m) => Ok(
                        Filled {
                            body: BodyV::Plain(set_fields(entries, fields, m.values, fields.len())),
                            objects: m.objects,
                            table: m.table,
                        },
                    ),
                },
                _ => Err(Error::failed(sid, Operation::ContainerMismatch)),
            }
        },
        _ => Err(Error::was_not_a(sid)),
    }
}

/// The body of the object of an enum once its tag is set and before any
/// field of its payload is: the tag under the name that the enum
/// declares, where the value is a variant of the enum with as many fields
/// as the variant declares, its tag can be written and the object has
/// properties. `None` where the filling fails before the tag is set.
pub open spec fn enum_started(schema: Schema, sid: usize, e: EnumType, v: NativeV, body: BodyV) -> Option<
    BodyV,
> {
    if behavior(schema, sid) is Ok && v is Enum && v->Enum_variant < e.variants.len() && tag_fits(
        behavior(schema, sid)->Ok_0.js_enum_repr,
        e.variants[v->Enum_variant as int],
    ) && v->Enum_fields.len() == e.variants[v->Enum_variant as int].data.fields@.len()
        && positions_fit(
        e.variants[v->Enum_variant as int].data.kind,
        e.variants[v->Enum_variant as int].data.fields@,
    ) && body is Plain {
        Some(
            BodyV::Plain(
                with_property(
                    body->Plain_0,
                    KeyV::Name(behavior(schema, sid)->Ok_0.js_enum_tag),
                    tag_value(
                        behavior(schema, sid)->Ok_0.js_enum_repr,
                        e.variants[v->Enum_variant as int],
                    ),
                ),
            ),
        )
    } else {
        None
    }
}

/// What filling the object of an enum gives: the tag first, then the
/// fields of the active variant in declaration order. A field that is
/// named like the tag fails, and so do a discriminant that is no whole
/// number of the runtime and fields by position of which there are more
/// than a 32-bit number names.
pub open spec fn enum_model(
    env: Env,
    sid: usize,
    e: EnumType,
    v: NativeV,
    body: BodyV,
    base: nat,
    table: Seq<Option<usize>>,
) -> Result<Filled, Error>
    decreases vacant(table), 1nat, 0nat, v, 1nat, 0nat,
{
    match behavior(env.schema, sid) {
        Err(e) => Err(e),
        Ok(b) => match v {
            NativeV::Enum { variant, fields: vals } => if variant >= e.variants.len() {
                Err(Error::Variant(VariantError::OutOfRange))
            } else {
                let chosen = e.variants[variant as int];
                let fields = chosen.data.fields@;
                if !tag_fits(b.js_enum_repr, chosen) {
                    Err(Error::failed(sid, Operation::DiscriminantRange))
                } else if vals.len() != fields.len() {
                    Err(Error::was_not_a(sid))
                } else if !positions_fit(chosen.data.kind, fields) {
                    Err(Error::failed(sid, Operation::CountRange))
                } else {
                    match body {
                        BodyV::Plain(entries) => match marshal_items(
                            env,
                            Kids::Payload { fields, tag: b.js_enum_tag, shape: sid },
                            vals,
                            vals.len(),
                            base,
                            table,
                        ) {
                            Err(e) => Err(e),
                            Ok(m) => Ok(
                                Filled {
                                    body: BodyV::Plain(
                                        set_payload(
                                            with_property(
                                                entries,
                                                KeyV::Name(b.js_enum_tag),
                                                tag_value(b.js_enum_repr, chosen),
                                            ),
                                            chosen.data.kind,
                                            fields,
                                            m.values,
                                            fields.len(),
                                        ),
                                    ),
                                    objects: m.objects,
                                    table: m.table,
                                },
                            ),
                        },
                        _ => Err(Error::failed(sid, Operation::ContainerMismatch)),
                    }
                }
            },
            _ => Err(Error::was_not_a(sid)),
        },
    }
}

/// What marshalling the first `k` of the values `vals` in turn gives,
/// where `kids` has a shape for each of them. The first failure ends it.
pub open spec fn marshal_items(
    env: Env,
    kids: Kids,
    vals: Seq<NativeV>,
    k: nat,
    base: nat,
    table: Seq<Option<usize>>,
) -> Result<Many, Error>
    decreases vacant(table), 1nat, 0nat, vals, 0nat, k,
{
    if k == 0 || k > vals.len() {
        Ok(Many { values: Seq::empty(), objects: Seq::empty(), table })
    } else {
        match marshal_items(env, kids, vals, (k - 1) as nat, base, table) {
            Err(e) => Err(e),
            Ok(m) => match kids.blocked(k - 1) {
                Some(e) => Err(e),
                // Marshalling never takes an object from a cell, so the
                // other branch is never taken; it is there for the
                // definition to end.
                None => if vacant(m.table) <= vacant(table) {
                    match marshal_model(
                        env,
                        kids.shape_of(k - 1),
                        vals[k - 1],
                        kids.owner(k - 1),
                        base + m.objects.len(),
                        m.table,
                    ) {
                        Err(e) => Err(e),
                        Ok(o) => Ok(
                            Many {
                                values: m.values.push(o.value),
                                objects: m.objects + o.objects,
                                table: o.table,
                            },
                        ),
                    }
                } else {
                    Err(Error::Exception)
                },
            },
        }
    }
}

/// What marshalling the first `k` of the entries `pairs` in turn gives,
/// each key before its value. The first failure ends it.
pub open spec fn marshal_pairs(
    env: Env,
    key: usize,
    value: usize,
    pairs: Seq<(NativeV, NativeV)>,
    k: nat,
    base: nat,
    table: Seq<Option<usize>>,
) -> Result<ManyPairs, Error>
    decreases vacant(table), 1nat, 0nat, pairs, 0nat, k,
{
    if k == 0 || k > pairs.len() {
        Ok(ManyPairs { pairs: Seq::empty(), objects: Seq::empty(), table })
    } else {
        match marshal_pairs(env, key, value, pairs, (k - 1) as nat, base, table) {
            Err(e) => Err(e),
            // Marshalling never takes an object from a cell, so the other
            // branches are never taken; they are there for the definition
            // to end.
            Ok(m) => if vacant(m.table) <= vacant(table) {
                match marshal_model(
                    env,
                    key,
                    pairs[k - 1].0,
                    None,
                    base + m.objects.len(),
                    m.table,
                ) {
                    Err(e) => Err(e),
                    Ok(a) => if vacant(a.table) <= vacant(table) {
                        match marshal_model(
                            env,
                            value,
                            pairs[k - 1].1,
                            None,
                            base + m.objects.len() + a.objects.len(),
                            a.table,
                        ) {
                            Err(e) => Err(e),
                            Ok(b) => Ok(
                                ManyPairs {
                                    pairs: m.pairs.push((a.value, b.value)),
                                    objects: m.objects + a.objects + b.objects,
                                    table: b.table,
                                },
                            ),
                        }
                    } else {
                        Err(Error::Exception)
                    },
                }
            } else {
                Err(Error::Exception)
            },
        }
    }
}

} // verus!
