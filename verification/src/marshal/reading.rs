//! What a runtime value is read as, as a function of the value.

use crate::marshal::error::{Error, Operation, ReflectError, VariantError};
use crate::marshal::heap::{position, BodyV, ObjectV};
use crate::marshal::model::{behavior, bits_scalar};
use crate::marshal::native::{BufferV, NativeV};
use crate::marshal::scalar::{observed, scalar_from_model};
use crate::marshal::shape::{
    Def, EnumType, Field, KnownPointer, Schema, StructKind, Type, UserType, Variant,
};
use crate::marshal::value::{KeyV, Number, ValueV};
use vstd::prelude::*;

verus! {

/// The first position at or after `from` of a field with the name, or the
/// number of fields where none has it.
pub open spec fn field_position(fields: Seq<Field>, name: Seq<char>, from: int) -> int
    decreases fields.len() - from,
{
    if from < 0 || from >= fields.len() {
        fields.len() as int
    } else if fields[from].name@ == name {
        from
    } else {
        field_position(fields, name, from + 1)
    }
}

/// The first position at or after `from` of a variant with the name, or
/// the number of variants where none has it.
pub open spec fn variant_named(variants: Seq<Variant>, name: Seq<char>, from: int) -> int
    decreases variants.len() - from,
{
    if from < 0 || from >= variants.len() {
        variants.len() as int
    } else if variants[from].name@ == name {
        from
    } else {
        variant_named(variants, name, from + 1)
    }
}

/// The first position at or after `from` of a variant with the
/// discriminant, or the number of variants where none has it.
pub open spec fn variant_numbered(variants: Seq<Variant>, d: i64, from: int) -> int
    decreases variants.len() - from,
{
    if from < 0 || from >= variants.len() {
        variants.len() as int
    } else if variants[from].discriminant == Some(d) {
        from
    } else {
        variant_numbered(variants, d, from + 1)
    }
}

/// The variant that a tag selects: the one with the name where the tag is
/// a string, the one with the discriminant where it is a whole number.
pub open spec fn selected(sid: usize, e: EnumType, tag: ValueV) -> Result<usize, Error> {
    match tag {
        ValueV::Str(name) => {
            let p = variant_named(e.variants@, name, 0);
            if p < e.variants.len() {
                Ok(p as usize)
            } else {
                Err(Error::Variant(VariantError::UnknownName))
            }
        },
        ValueV::Number(Number::Integer(d)) => {
            let p = variant_numbered(e.variants@, d, 0);
            if p < e.variants.len() {
                Ok(p as usize)
            } else {
                Err(Error::Variant(VariantError::UnknownDiscriminant))
            }
        },
        _ => Err(Error::failed(sid, Operation::EnumTagKind)),
    }
}

/// As many places as there are fields, none of which holds a value.
pub open spec fn unset_slots(n: nat) -> Seq<NativeV> {
    Seq::new(n, |i: int| NativeV::Unset)
}

/// The places after each one that holds no value took the default of its
/// field, where the field has one.
pub open spec fn with_defaults(fields: Seq<Field>, slots: Seq<NativeV>) -> Seq<NativeV> {
    Seq::new(
        slots.len(),
        |i: int|
            if slots[i] is Unset && 0 <= i < fields.len() && fields[i].default is Some {
                fields[i].default->Some_0@
            } else {
                slots[i]
            },
    )
}

/// How the properties of an object are read into fields.
pub enum Reading {
    /// As the fields of a struct: a property with a position is passed
    /// over.
    Named,
    /// As the payload of a variant of an enum with this tag: the tag is
    /// passed over, and a property with a position is the field at that
    /// position.
    Payload(Seq<char>),
}

/// The native sequence that a typed array is read as by the shape `sid`,
/// whose elements have the shape `t`. The element type must be that of
/// the array. A list takes the elements as a whole (`whole`); an array
/// and a slice take them one by one.
pub open spec fn typed_from_model(schema: Schema, sid: usize, t: usize, whole: bool, b: BufferV) -> Result<
    NativeV,
    Error,
> {
    if t < schema.shapes.len() && schema.shapes[t as int].scalar is Some
        && schema.shapes[t as int].scalar->Some_0.spec_elem_kind() == Some(b.kind) {
        if whole {
            Ok(NativeV::Contiguous(b))
        } else {
            Ok(
                NativeV::List(
                    Seq::new(b.bits.len(), |i: int| NativeV::Scalar(bits_scalar(b.kind, b.bits[i]))),
                ),
            )
        }
    } else {
        Err(Error::was_not_a(sid))
    }
}

/// The native value of the shape `sid` that the runtime value `v` stands
/// for, read at the nesting depth `depth` in `heap`.
///
/// A scalar is read as such. `null` and `undefined` are an absent
/// optional value, anything else a present one. A smart pointer is read
/// as a fresh pointer to its pointee; a weak one and a plain pointer
/// fail. An enum is read from its tag or from an object. Everything else
/// is read from an object.
pub open spec fn unmarshal_model(
    schema: Schema,
    sid: usize,
    heap: Seq<ObjectV>,
    v: ValueV,
    depth: nat,
) -> Result<NativeV, Error>
    decreases heap.len() - depth, sid + 1, 0nat, 0nat,
{
    if sid >= schema.shapes.len() {
        Err(Error::failed(sid, Operation::MalformedShape))
    } else if depth > heap.len() {
        Err(Error::failed(sid, Operation::CyclicValue))
    } else {
        let shape = schema.shapes[sid as int];
        if shape.spec_is_scalar() {
            scalar_from_model(schema, sid, heap, v)
        } else {
            match shape.def {
                Def::Optional(t) => if t >= sid {
                    Err(Error::failed(sid, Operation::MalformedShape))
                } else if v is Null || v is Undefined {
                    Ok(NativeV::Optional(None))
                } else {
                    match unmarshal_model(schema, t, heap, v, depth) {
                        Ok(x) => Ok(NativeV::Optional(Some(Box::new(x)))),
                        Err(e) => Err(e),
                    }
                },
                Def::Pointer { known, pointee } => smart_pointer_from_model(
                    schema,
                    sid,
                    heap,
                    v,
                    depth,
                ),
                _ => match shape.ty {
                    Type::Pointer(_) => Err(Error::failed(sid, Operation::UnmarshalPointer)),
                    Type::User(UserType::Enum(e)) => enum_from_model(schema, sid, e, heap, v, depth),
                    _ => match v {
                        ValueV::Object(h) => object_from_model(schema, sid, heap, h, depth),
                        _ => Err(Error::unexpected(sid, observed(heap, v))),
                    },
                },
            }
        }
    }
}

/// The smart pointer of the shape `sid` that the runtime value `v` stands
/// for: a fresh pointer to the pointee that the value is read as. A
/// shared pointer is read as a pointer that owns its pointee alone, for
/// which objects of the runtime are one and the same does not say which
/// native values share a cell. A weak pointer fails.
pub open spec fn smart_pointer_from_model(
    schema: Schema,
    sid: usize,
    heap: Seq<ObjectV>,
    v: ValueV,
    depth: nat,
) -> Result<NativeV, Error>
    decreases heap.len() - depth, sid, 1nat, 0nat,
{
    if sid >= schema.shapes.len() {
        Err(Error::failed(sid, Operation::MalformedShape))
    } else if depth > heap.len() {
        Err(Error::failed(sid, Operation::CyclicValue))
    } else {
        match schema.shapes[sid as int].def {
            Def::Pointer { known, pointee } => if known == Some(KnownPointer::RcWeak) || known
                == Some(KnownPointer::ArcWeak) {
                Err(Error::failed(sid, Operation::WeakPointer))
            } else if pointee is None || pointee->Some_0 >= sid {
                Err(Error::failed(sid, Operation::MalformedShape))
            } else {
                match unmarshal_model(schema, pointee->Some_0, heap, v, depth) {
                    Ok(x) => Ok(NativeV::Owned(Some(Box::new(x)))),
                    Err(e) => Err(e),
                }
            },
            _ => Err(Error::was_not_a(sid)),
        }
    }
}

/// The native value of the shape `sid` that the object `h` stands for: a
/// map, a set, a sequence, a tuple or a struct. There must be such an
/// object; one that lies deeper than there are
/// objects in the heap holds itself, and fails.
pub open spec fn object_from_model(
    schema: Schema,
    sid: usize,
    heap: Seq<ObjectV>,
    h: usize,
    depth: nat,
) -> Result<NativeV, Error>
    decreases heap.len() - depth, 0nat, 3nat, 0nat,
{
    if sid >= schema.shapes.len() {
        Err(Error::failed(sid, Operation::MalformedShape))
    } else if h >= heap.len() {
        Err(Error::Exception)
    } else if depth >= heap.len() {
        Err(Error::failed(sid, Operation::CyclicValue))
    } else {
        let shape = schema.shapes[sid as int];
        match shape.def {
            Def::MapOf { key, value } => map_from_model(schema, sid, key, value, heap, h, depth),
            Def::SetOf(t) => set_from_model(schema, sid, t, heap, h, depth),
            Def::List(t) | Def::Array(t) | Def::Slice(t) => list_from_model(
                schema,
                sid,
                t,
                heap,
                h,
                depth,
            ),
            _ => match shape.ty {
                Type::User(UserType::Struct(s)) => if s.kind == StructKind::Tuple {
                    tuple_from_model(schema, sid, s.fields@, heap, h, depth)
                } else {
                    struct_from_model(schema, sid, s.fields@, heap, h, depth)
                },
                _ => Err(Error::failed(sid, Operation::UnsupportedType)),
            },
        }
    }
}

/// The native map that the object `h` stands for: the object must be a
/// map, and each of its entries is read, the key before the value.
pub open spec fn map_from_model(
    schema: Schema,
    sid: usize,
    key: usize,
    value: usize,
    heap: Seq<ObjectV>,
    h: usize,
    depth: nat,
) -> Result<NativeV, Error>
    decreases heap.len() - depth, 0nat, 2nat, 0nat,
{
    if h >= heap.len() {
        Err(Error::Exception)
    } else if depth >= heap.len() {
        Err(Error::failed(sid, Operation::CyclicValue))
    } else {
        match heap[h as int].body {
            BodyV::MapOf(pairs) => match unmarshal_pairs(
                schema,
                key,
                value,
                heap,
                pairs,
                pairs.len(),
                depth,
            ) {
                Ok(entries) => Ok(NativeV::MapOf(entries)),
                Err(e) => Err(e),
            },
            _ => Err(Error::unexpected(sid, observed(heap, ValueV::Object(h)))),
        }
    }
}

/// The native set that the object `h` stands for: the object must be a
/// set, and each of its members is read.
pub open spec fn set_from_model(
    schema: Schema,
    sid: usize,
    t: usize,
    heap: Seq<ObjectV>,
    h: usize,
    depth: nat,
) -> Result<NativeV, Error>
    decreases heap.len() - depth, 0nat, 2nat, 0nat,
{
    if h >= heap.len() {
        Err(Error::Exception)
    } else if depth >= heap.len() {
        Err(Error::failed(sid, Operation::CyclicValue))
    } else {
        match heap[h as int].body {
            BodyV::SetOf(items) => match unmarshal_items(
                schema,
                t,
                heap,
                items,
                items.len(),
                depth,
            ) {
                Ok(members) => Ok(NativeV::SetOf(members)),
                Err(e) => Err(e),
            },
            _ => Err(Error::unexpected(sid, observed(heap, ValueV::Object(h)))),
        }
    }
}

/// The native sequence that the object `h` stands for: each element of
/// an array is read; a typed array is read as its elements lie.
pub open spec fn list_from_model(
    schema: Schema,
    sid: usize,
    t: usize,
    heap: Seq<ObjectV>,
    h: usize,
    depth: nat,
) -> Result<NativeV, Error>
    decreases heap.len() - depth, 0nat, 2nat, 0nat,
{
    if h >= heap.len() {
        Err(Error::Exception)
    } else if depth >= heap.len() {
        Err(Error::failed(sid, Operation::CyclicValue))
    } else {
        match heap[h as int].body {
            BodyV::Array(items) => match unmarshal_items(
                schema,
                t,
                heap,
                items,
                items.len(),
                depth,
            ) {
                Ok(elements) => Ok(NativeV::List(elements)),
                Err(e) => Err(e),
            },
            BodyV::Typed(b) => typed_from_model(
                schema,
                sid,
                t,
                sid < schema.shapes.len() && schema.shapes[sid as int].def is List,
                b,
            ),
            _ => Err(Error::unexpected(sid, observed(heap, ValueV::Object(h)))),
        }
    }
}

/// The native tuple that the object `h` stands for: the object must be
/// an array of no more elements than the tuple has fields; each element
/// is read as the field at its position, and a field without an element
/// takes its default, where it has one.
pub open spec fn tuple_from_model(
    schema: Schema,
    sid: usize,
    fields: Seq<Field>,
    heap: Seq<ObjectV>,
    h: usize,
    depth: nat,
) -> Result<NativeV, Error>
    decreases heap.len() - depth, 0nat, 2nat, 0nat,
{
    if h >= heap.len() {
        Err(Error::Exception)
    } else if depth >= heap.len() {
        Err(Error::failed(sid, Operation::CyclicValue))
    } else {
        match heap[h as int].body {
            BodyV::Array(items) => if items.len() > fields.len() {
                Err(Error::was_not_a(sid))
            } else {
                match unmarshal_positions(schema, fields, heap, items, items.len(), depth) {
                    Ok(first) => Ok(
                        NativeV::Struct(
                            with_defaults(
                                fields,
                                first + unset_slots((fields.len() - items.len()) as nat),
                            ),
                        ),
                    ),
                    Err(e) => Err(e),
                }
            },
            _ => Err(Error::unexpected(sid, observed(heap, ValueV::Object(h)))),
        }
    }
}

/// The native struct that the object `h` stands for: the object must
/// have properties; each property that names a field is read into it,
/// and a field that was not set takes its default, where it has one.
pub open spec fn struct_from_model(
    schema: Schema,
    sid: usize,
    fields: Seq<Field>,
    heap: Seq<ObjectV>,
    h: usize,
    depth: nat,
) -> Result<NativeV, Error>
    decreases heap.len() - depth, 0nat, 2nat, 0nat,
{
    if h >= heap.len() {
        Err(Error::Exception)
    } else if depth >= heap.len() {
        Err(Error::failed(sid, Operation::CyclicValue))
    } else {
        match heap[h as int].body {
            BodyV::Plain(entries) => match unmarshal_entries(
                schema,
                sid,
                fields,
                Reading::Named,
                heap,
                entries,
                entries.len(),
                depth,
            ) {
                Ok(slots) => Ok(NativeV::Struct(with_defaults(fields, slots))),
                Err(e) => Err(e),
            },
            _ => Err(Error::unexpected(sid, observed(heap, ValueV::Object(h)))),
        }
    }
}

/// The native value of the enum `e` with the shape `sid` that the
/// runtime value `v` stands for. A value that is no
/// object is the tag, and selects a variant none of whose fields is set.
/// An object holds the tag under the name that the enum declares, and
/// the fields of the variant: those of a variant with named fields under
/// their names, those of any other under their positions. Properties
/// that name no field are passed over. A field that was not set takes
/// its default, where it has one.
pub open spec fn enum_from_model(
    schema: Schema,
    sid: usize,
    e: EnumType,
    heap: Seq<ObjectV>,
    v: ValueV,
    depth: nat,
) -> Result<NativeV, Error>
    decreases heap.len() - depth, 0nat, 3nat, 0nat,
{
    match behavior(schema, sid) {
        Err(e) => Err(e),
        Ok(b) => match v {
            ValueV::Object(h) => if h >= heap.len() {
                Err(Error::Exception)
            } else if depth >= heap.len() {
                Err(Error::failed(sid, Operation::CyclicValue))
            } else {
                match heap[h as int].body {
                    BodyV::Plain(entries) => {
                        let p = position(entries, KeyV::Name(b.js_enum_tag), 0);
                        if p >= entries.len() {
                            Err(Error::failed(sid, Operation::MissingEnumTag))
                        } else {
                            match selected(sid, e, entries[p].1) {
                                Err(e) => Err(e),
                                Ok(variant) => {
                                    let fields = e.variants[variant as int].data.fields@;
                                    match unmarshal_entries(
                                        schema,
                                        sid,
                                        fields,
                                        Reading::Payload(b.js_enum_tag),
                                        heap,
                                        entries,
                                        entries.len(),
                                        depth,
                                    ) {
                                        Ok(slots) => Ok(
                                            NativeV::Enum {
                                                variant,
                                                fields: with_defaults(fields, slots),
                                            },
                                        ),
                                        Err(e) => Err(e),
                                    }
                                },
                            }
                        }
                    },
                    _ => Err(Error::unexpected(sid, observed(heap, v))),
                }
            },
            _ => match selected(sid, e, v) {
                Err(e) => Err(e),
                Ok(variant) => {
                    let fields = e.variants[variant as int].data.fields@;
                    Ok(
                        NativeV::Enum {
                            variant,
                            fields: with_defaults(fields, unset_slots(fields.len())),
                        },
                    )
                },
            },
        },
    }
}

/// The native values of the shape `t` that the first `k` of the values
/// `items` stand for, which lie one level below `depth`. The first
/// failure ends it.
pub open spec fn unmarshal_items(
    schema: Schema,
    t: usize,
    heap: Seq<ObjectV>,
    items: Seq<ValueV>,
    k: nat,
    depth: nat,
) -> Result<Seq<NativeV>, Error>
    decreases heap.len() - depth, 0nat, 1nat, k,
{
    if k == 0 || k > items.len() || depth >= heap.len() {
        Ok(Seq::empty())
    } else {
        match unmarshal_items(schema, t, heap, items, (k - 1) as nat, depth) {
            Err(e) => Err(e),
            Ok(first) => match unmarshal_model(schema, t, heap, items[k - 1], depth + 1) {
                Err(e) => Err(e),
                Ok(x) => Ok(first.push(x)),
            },
        }
    }
}

/// The native values that the first `k` of the values `items` stand for,
/// each read with the shape of the field at its position. The first
/// failure ends it.
pub open spec fn unmarshal_positions(
    schema: Schema,
    fields: Seq<Field>,
    heap: Seq<ObjectV>,
    items: Seq<ValueV>,
    k: nat,
    depth: nat,
) -> Result<Seq<NativeV>, Error>
    decreases heap.len() - depth, 0nat, 1nat, k,
{
    if k == 0 || k > items.len() || k > fields.len() || depth >= heap.len() {
        Ok(Seq::empty())
    } else {
        match unmarshal_positions(schema, fields, heap, items, (k - 1) as nat, depth) {
            Err(e) => Err(e),
            Ok(first) => match unmarshal_model(
                schema,
                fields[k - 1].shape,
                heap,
                items[k - 1],
                depth + 1,
            ) {
                Err(e) => Err(e),
                Ok(x) => Ok(first.push(x)),
            },
        }
    }
}

/// The native entries that the first `k` of the entries `pairs` stand
/// for, each key before its value. The first failure ends it.
pub open spec fn unmarshal_pairs(
    schema: Schema,
    key: usize,
    value: usize,
    heap: Seq<ObjectV>,
    pairs: Seq<(ValueV, ValueV)>,
    k: nat,
    depth: nat,
) -> Result<Seq<(NativeV, NativeV)>, Error>
    decreases heap.len() - depth, 0nat, 1nat, k,
{
    if k == 0 || k > pairs.len() || depth >= heap.len() {
        Ok(Seq::empty())
    } else {
        match unmarshal_pairs(schema, key, value, heap, pairs, (k - 1) as nat, depth) {
            Err(e) => Err(e),
            Ok(first) => match unmarshal_model(schema, key, heap, pairs[k - 1].0, depth + 1) {
                Err(e) => Err(e),
                Ok(a) => match unmarshal_model(schema, value, heap, pairs[k - 1].1, depth + 1) {
                    Err(e) => Err(e),
                    Ok(b) => Ok(first.push((a, b))),
                },
            },
        }
    }
}

/// The places of the fields `fields` after the first `k` of the
/// properties `entries` are read into them, in order. A property whose
/// name is that of a field is read into the first such field, with its
/// shape; one whose name is no field's is passed over. A property of an
/// enum whose key is neither a string nor a number fails. The first
/// failure ends it.
pub open spec fn unmarshal_entries(
    schema: Schema,
    sid: usize,
    fields: Seq<Field>,
    reading: Reading,
    heap: Seq<ObjectV>,
    entries: Seq<(KeyV, ValueV)>,
    k: nat,
    depth: nat,
) -> Result<Seq<NativeV>, Error>
    decreases heap.len() - depth, 0nat, 1nat, k,
{
    if k == 0 || k > entries.len() || depth >= heap.len() {
        Ok(unset_slots(fields.len()))
    } else {
        match unmarshal_entries(schema, sid, fields, reading, heap, entries, (k - 1) as nat, depth) {
            Err(e) => Err(e),
            Ok(slots) => {
                let at: Result<int, Error> = match entries[k - 1].0 {
                    KeyV::Index(i) => match reading {
                        Reading::Named => Ok(fields.len() as int),
                        Reading::Payload(_) => if i < fields.len() {
                            Ok(i as int)
                        } else {
                            Err(Error::failed(sid, Operation::FieldOutOfRange))
                        },
                    },
                    KeyV::Name(name) => if reading == Reading::Payload(name) {
                        Ok(fields.len() as int)
                    } else {
                        Ok(field_position(fields, name, 0))
                    },
                    KeyV::Symbol(_) => match reading {
                        Reading::Named => Ok(fields.len() as int),
                        Reading::Payload(_) => Err(Error::failed(sid, Operation::EnumKeyKind)),
                    },
                };
                match at {
                    Err(e) => Err(e),
                    Ok(j) => if 0 <= j < fields.len() {
                        match unmarshal_model(
                            schema,
                            fields[j].shape,
                            heap,
                            entries[k - 1].1,
                            depth + 1,
                        ) {
                            Err(e) => Err(e),
                            Ok(x) => Ok(slots.update(j, x)),
                        }
                    } else {
                        Ok(slots)
                    },
                }
            },
        }
    }
}

/// Whether a native value holds a value in every place.
pub open spec fn complete(v: NativeV) -> bool
    decreases v,
{
    match v {
        NativeV::Unset => false,
        NativeV::Optional(Some(x)) => complete(*x),
        NativeV::Owned(Some(x)) => complete(*x),
        NativeV::List(items) => forall|i: int| 0 <= i < items.len() ==> complete(#[trigger] items[i]),
        NativeV::SetOf(items) => forall|i: int|
            0 <= i < items.len() ==> complete(#[trigger] items[i]),
        NativeV::Struct(items) => forall|i: int|
            0 <= i < items.len() ==> complete(#[trigger] items[i]),
        NativeV::Enum { variant, fields } => forall|i: int|
            0 <= i < fields.len() ==> complete(#[trigger] fields[i]),
        NativeV::MapOf(pairs) => forall|i: int|
            0 <= i < pairs.len() ==> complete((#[trigger] pairs[i]).0) && complete(pairs[i].1),
        _ => true,
    }
}

/// What building a native value of the shape `sid` from a runtime value
/// gives: the value that the runtime value stands for, if it holds a
/// value in every place.
pub open spec fn from_model(schema: Schema, sid: usize, heap: Seq<ObjectV>, v: ValueV) -> Result<
    NativeV,
    Error,
> {
    match unmarshal_model(schema, sid, heap, v, 0) {
        Err(e) => Err(e),
        Ok(x) => if complete(x) {
            Ok(x)
        } else {
            Err(Error::Reflect(ReflectError::Uninitialized { shape: sid }))
        },
    }
}

} // verus!
