//! A value that is marshalled and read back is the value it was.

use crate::marshal::enum_::EnumTagRepr;
use crate::marshal::error::Error;
use crate::marshal::heap::{with_index, BodyV, ObjectV};
use crate::marshal::laws::{
    distinct_keys, distinct_names, lemma_enum_properties, lemma_marshalled_fields_not_blocked,
    lemma_scalar_round_trip, lemma_struct_properties,
};
use crate::marshal::model::{
    behavior, create_model, enum_model, asks_typed, enum_unit_model, holes, is_shared,
    is_unit_enum, is_weak, list_model, map_model, marshal_items, marshal_model, marshal_pairs,
    payload_key, populate_model, set_elements, set_model, smart_pointer_model, struct_model,
    tag_value, tuple_model, Env, Kids,
};
use crate::marshal::native::NativeV;
use crate::marshal::reading::{
    complete, from_model, enum_from_model, field_position, list_from_model, map_from_model, object_from_model,
    selected, set_from_model, smart_pointer_from_model, struct_from_model, tuple_from_model,
    unmarshal_entries, unmarshal_items, unmarshal_model, unmarshal_pairs, unmarshal_positions,
    unset_slots, variant_named, variant_numbered, with_defaults, Reading,
};
use crate::marshal::scalar::{observed, scalar_value};
use crate::marshal::shape::{
    marshals_as_object, owner_of, Def, EnumType, Field, OwnerV, ScalarType, Schema, StructKind,
    Type, UserType,
};
use crate::marshal::value::{KeyV, Number, ValueV};
use vstd::prelude::*;

verus! {

/// Whether values of the shape never marshal to `null`: the shape is no
/// optional value nor the unit, nor a pointer to one.
pub open spec fn never_null(schema: Schema, sid: usize) -> bool
    decreases sid,
{
    sid < schema.shapes.len() && {
        let shape = schema.shapes[sid as int];
        if shape.spec_is_scalar() {
            shape.scalar is Some && shape.scalar != Some(ScalarType::Unit)
        } else {
            match shape.def {
                Def::Optional(_) => false,
                Def::Pointer { known, pointee } => pointee is Some && pointee->Some_0 < sid
                    && never_null(schema, pointee->Some_0),
                _ => true,
            }
        }
    }
}

/// Whether the tag of the variant at position `variant` selects that
/// variant again: no earlier variant has its name, where the tag is the
/// name, and it has a discriminant that is a whole number of the runtime
/// and that no earlier variant has, where the tag is the discriminant.
pub open spec fn selectable(e: EnumType, repr: EnumTagRepr, variant: int) -> bool {
    match repr {
        EnumTagRepr::String => forall|j: int|
            0 <= j < variant ==> (#[trigger] e.variants[j]).name@ != e.variants[variant].name@,
        EnumTagRepr::Number => {
            &&& e.variants[variant].discriminant is Some
            &&& i32::MIN <= e.variants[variant].discriminant->Some_0 <= u32::MAX
            &&& forall|j: int|
                0 <= j < variant ==> (#[trigger] e.variants[j]).discriminant
                    != e.variants[variant].discriminant
        },
    }
}

/// Whether a type that is a container is nothing else: no plain pointer,
/// no enum and no tuple.
pub open spec fn container_only(ty: Type) -> bool {
    &&& !(ty is Pointer)
    &&& !(ty is User && ty->User_0 is Enum)
    &&& !(ty is User && ty->User_0 is Struct && ty->User_0->Struct_0.kind == StructKind::Tuple)
}

/// Whether a native value is one that is read back as it was written: a
/// value of the shape `sid`, without shared pointers to objects, weak or
/// plain pointers or string slices, in which every sequence that is asked
/// to be a typed array is a list that lies contiguous and has no
/// constructor, every other sequence lies behind a generic container and
/// has no more elements than an array has positions, every optional value
/// wraps a value that never marshals to `null`, every struct has fields
/// with names of their own, and every enum has variants that their tags
/// tell apart. `field` is what is told of the field that holds the value,
/// if a field holds it.
pub open spec fn plain(env: Env, sid: usize, v: NativeV, field: Option<OwnerV>) -> bool
    decreases v,
{
    let schema = env.schema;
    sid < schema.shapes.len() && {
        let shape = schema.shapes[sid as int];
        if shape.spec_is_scalar() {
            &&& shape.scalar is Some
            &&& shape.scalar != Some(ScalarType::Str)
            &&& v is Scalar
            &&& scalar_value(shape.scalar->Some_0, v->Scalar_0) is Some
        } else {
            match shape.def {
                Def::Optional(t) => match v {
                    NativeV::Optional(None) => true,
                    NativeV::Optional(Some(x)) => never_null(schema, t) && plain(env,
                        t,
                        *x,
                        field,
                    ),
                    _ => false,
                },
                Def::Pointer { known, pointee } => {
                    &&& !is_weak(known)
                    &&& pointee is Some
                    &&& !(is_shared(known) && marshals_as_object(schema, pointee->Some_0))
                    &&& match v {
                        NativeV::Owned(Some(x)) => plain(env, pointee->Some_0, *x, field),
                        _ => false,
                    }
                },
                Def::MapOf { key, value } => container_only(shape.ty) && match v {
                    NativeV::MapOf(pairs) => forall|i: int|
                        0 <= i < pairs.len() ==> plain(env, key, (#[trigger] pairs[i]).0, None)
                            && plain(env, value, pairs[i].1, None),
                    _ => false,
                },
                Def::SetOf(t) => container_only(shape.ty) && match v {
                    NativeV::SetOf(items) => forall|i: int|
                        0 <= i < items.len() ==> plain(env, t, #[trigger] items[i], None),
                    _ => false,
                },
                Def::List(t) | Def::Array(t) | Def::Slice(t) => container_only(shape.ty) && if asks_typed(field) {
                    // A typed array: the elements are taken over as a whole.
                    &&& shape.def is List
                    &&& !env.constructors.contains_key(shape.id)
                    &&& v is Contiguous
                    &&& t < schema.shapes.len()
                    &&& schema.shapes[t as int].scalar is Some
                    &&& schema.shapes[t as int].scalar->Some_0.spec_elem_kind() == Some(
                        v->Contiguous_0.kind,
                    )
                } else {
                    match v {
                        NativeV::List(items) => items.len() <= u32::MAX && forall|i: int|
                            0 <= i < items.len() ==> plain(env, t, #[trigger] items[i], None),
                        _ => false,
                    }
                },
                _ => match shape.ty {
                    Type::User(UserType::Struct(s)) => match v {
                        NativeV::Struct(vals) => {
                            &&& vals.len() == s.fields.len()
                            &&& if s.kind == StructKind::Tuple {
                                // A prototype makes an object that is no
                                // array, which a tuple is not read from.
                                vals.len() <= u32::MAX && !(env.constructors.contains_key(shape.id)
                                    && env.constructors[shape.id] is Prototype)
                            } else {
                                distinct_names(s.fields@)
                            }
                            &&& forall|i: int|
                                0 <= i < vals.len() ==> plain(env,
                                    s.fields[i].shape,
                                    #[trigger] vals[i],
                                    Some(owner_of(s.fields[i])),
                                )
                        },
                        _ => false,
                    },
                    Type::User(UserType::Enum(e)) => match v {
                        NativeV::Enum { variant, fields: vals } => {
                            &&& variant < e.variants.len()
                            &&& behavior(schema, sid) is Ok
                            &&& selectable(e, behavior(schema, sid)->Ok_0.js_enum_repr, variant as int)
                            &&& vals.len() == e.variants[variant as int].data.fields.len()
                            &&& e.variants[variant as int].data.kind == StructKind::Unit
                                ==> vals.len() == 0
                            &&& distinct_keys(
                                e.variants[variant as int].data.kind,
                                e.variants[variant as int].data.fields@,
                            )
                            &&& forall|i: int|
                                0 <= i < vals.len() ==> plain(env,
                                    e.variants[variant as int].data.fields[i].shape,
                                    #[trigger] vals[i],
                                    Some(owner_of(e.variants[variant as int].data.fields[i])),
                                )
                        },
                        _ => false,
                    },
                    _ => false,
                },
            }
        }
    }
}

/// Setting every element of an array of that many places that hold
/// nothing leaves exactly the elements.
pub proof fn lemma_elements_fill_holes(values: Seq<ValueV>, k: nat)
    requires
        k <= values.len() <= u32::MAX,
    ensures
        set_elements(BodyV::Array(holes(values.len())), values, k) == BodyV::Array(
            values.take(k as int) + holes((values.len() - k) as nat),
        ),
    decreases k,
{
    let n = values.len();
    let want = values.take(k as int) + holes((n - k) as nat);
    if k == 0 {
        assert(holes(n) =~= want);
    } else {
        lemma_elements_fill_holes(values, (k - 1) as nat);
        let before = values.take(k - 1) + holes((n - k + 1) as nat);
        assert((k - 1) as usize as u32 == k - 1);
        assert(with_index(before, k - 1, values[k - 1]) =~= want);
    }
}

/// Where the first `n` values marshal, each of them marshals where its
/// turn comes: the value at position `i` marshals behind the objects and
/// with the table that the values before it left, what it becomes is the
/// value at position `i` of the result, and its objects lie in the
/// result behind those of the values before it.
pub proof fn lemma_items_layout(
    env: Env,
    kids: Kids,
    vals: Seq<NativeV>,
    i: int,
    n: nat,
    base: nat,
    table: Seq<Option<usize>>,
)
    requires
        0 <= i < n <= vals.len(),
        marshal_items(env, kids, vals, n, base, table) is Ok,
    ensures
        ({
            let all = marshal_items(env, kids, vals, n, base, table)->Ok_0;
            let before = marshal_items(env, kids, vals, i as nat, base, table);
            &&& before is Ok
            &&& all.values.len() == n
            &&& {
                let one = marshal_model(
                    env,
                    kids.shape_of(i),
                    vals[i],
                    kids.owner(i),
                    base + before->Ok_0.objects.len(),
                    before->Ok_0.table,
                );
                &&& one is Ok
                &&& one->Ok_0.value == all.values[i]
                &&& before->Ok_0.objects.len() + one->Ok_0.objects.len() <= all.objects.len()
                &&& all.objects.subrange(
                    before->Ok_0.objects.len() as int,
                    (before->Ok_0.objects.len() + one->Ok_0.objects.len()) as int,
                ) == one->Ok_0.objects
            }
        }),
    decreases n,
{
    lemma_marshalled_fields_not_blocked(env, kids, vals, n, base, table);
    let all = marshal_items(env, kids, vals, n, base, table)->Ok_0;
    let prev = marshal_items(env, kids, vals, (n - 1) as nat, base, table)->Ok_0;
    lemma_marshalled_fields_not_blocked(env, kids, vals, (n - 1) as nat, base, table);
    let last = marshal_model(
        env,
        kids.shape_of(n - 1),
        vals[n - 1],
        kids.owner(n - 1),
        base + prev.objects.len(),
        prev.table,
    )->Ok_0;
    assert(all.objects == prev.objects + last.objects);
    if i == n - 1 {
        assert(all.objects.subrange(
            prev.objects.len() as int,
            (prev.objects.len() + last.objects.len()) as int,
        ) =~= last.objects);
    } else {
        lemma_items_layout(env, kids, vals, i, (n - 1) as nat, base, table);
        let before = marshal_items(env, kids, vals, i as nat, base, table)->Ok_0;
        let one = marshal_model(
            env,
            kids.shape_of(i),
            vals[i],
            kids.owner(i),
            base + before.objects.len(),
            before.table,
        )->Ok_0;
        assert(all.objects.subrange(
            before.objects.len() as int,
            (before.objects.len() + one.objects.len()) as int,
        ) =~= prev.objects.subrange(
            before.objects.len() as int,
            (before.objects.len() + one.objects.len()) as int,
        ));
    }
}

/// Where each of the first `k` values is read as the native value at its
/// position, the first `k` values are read as the first `k` native
/// values.
pub proof fn lemma_read_items(
    schema: Schema,
    t: usize,
    heap: Seq<ObjectV>,
    values: Seq<ValueV>,
    vals: Seq<NativeV>,
    k: nat,
    depth: nat,
)
    requires
        k <= values.len(),
        k <= vals.len(),
        depth < heap.len(),
        forall|i: int|
            0 <= i < k ==> unmarshal_model(schema, t, heap, #[trigger] values[i], depth + 1) == Ok::<
                NativeV,
                Error,
            >(vals[i]),
    ensures
        unmarshal_items(schema, t, heap, values, k, depth) == Ok::<Seq<NativeV>, Error>(
            vals.take(k as int),
        ),
    decreases k,
{
    if k == 0 {
        assert(vals.take(0) =~= Seq::<NativeV>::empty());
    } else {
        lemma_read_items(schema, t, heap, values, vals, (k - 1) as nat, depth);
        assert(vals.take(k as int) =~= vals.take(k - 1).push(vals[k - 1]));
    }
}

/// Where each of the first `k` values is read, with the shape of the
/// field at its position, as the native value at its position, the first
/// `k` values are read as the first `k` native values.
pub proof fn lemma_read_positions(
    schema: Schema,
    fields: Seq<Field>,
    heap: Seq<ObjectV>,
    values: Seq<ValueV>,
    vals: Seq<NativeV>,
    k: nat,
    depth: nat,
)
    requires
        k <= values.len(),
        k <= vals.len(),
        k <= fields.len(),
        depth < heap.len(),
        forall|i: int|
            0 <= i < k ==> unmarshal_model(
                schema,
                fields[i].shape,
                heap,
                #[trigger] values[i],
                depth + 1,
            ) == Ok::<NativeV, Error>(vals[i]),
    ensures
        unmarshal_positions(schema, fields, heap, values, k, depth) == Ok::<Seq<NativeV>, Error>(
            vals.take(k as int),
        ),
    decreases k,
{
    if k == 0 {
        assert(vals.take(0) =~= Seq::<NativeV>::empty());
    } else {
        lemma_read_positions(schema, fields, heap, values, vals, (k - 1) as nat, depth);
        assert(vals.take(k as int) =~= vals.take(k - 1).push(vals[k - 1]));
    }
}

/// Where each of the first `k` entries is read as the native entry at its
/// position, the first `k` entries are read as the first `k` native
/// entries.
pub proof fn lemma_read_pairs(
    schema: Schema,
    key: usize,
    value: usize,
    heap: Seq<ObjectV>,
    pairs: Seq<(ValueV, ValueV)>,
    natives: Seq<(NativeV, NativeV)>,
    k: nat,
    depth: nat,
)
    requires
        k <= pairs.len(),
        k <= natives.len(),
        depth < heap.len(),
        forall|i: int|
            0 <= i < k ==> unmarshal_model(schema, key, heap, (#[trigger] pairs[i]).0, depth + 1)
                == Ok::<NativeV, Error>(natives[i].0) && unmarshal_model(
                schema,
                value,
                heap,
                pairs[i].1,
                depth + 1,
            ) == Ok::<NativeV, Error>(natives[i].1),
    ensures
        unmarshal_pairs(schema, key, value, heap, pairs, k, depth) == Ok::<
            Seq<(NativeV, NativeV)>,
            Error,
        >(natives.take(k as int)),
    decreases k,
{
    if k == 0 {
        assert(natives.take(0) =~= Seq::<(NativeV, NativeV)>::empty());
    } else {
        lemma_read_pairs(schema, key, value, heap, pairs, natives, (k - 1) as nat, depth);
        assert(natives.take(k as int) =~= natives.take(k - 1).push(natives[k - 1]));
    }
}

/// Where the first `n` entries marshal, each of them marshals where its
/// turn comes: the key behind the objects and with the table that the
/// entries before it left, the value behind those of the key; what they
/// become is the entry at position `i` of the result, and their objects
/// lie in the result behind those of the entries before.
pub proof fn lemma_pairs_layout(
    env: Env,
    key: usize,
    value: usize,
    pairs: Seq<(NativeV, NativeV)>,
    i: int,
    n: nat,
    base: nat,
    table: Seq<Option<usize>>,
)
    requires
        0 <= i < n <= pairs.len(),
        marshal_pairs(env, key, value, pairs, n, base, table) is Ok,
    ensures
        ({
            let all = marshal_pairs(env, key, value, pairs, n, base, table)->Ok_0;
            let before = marshal_pairs(env, key, value, pairs, i as nat, base, table);
            &&& before is Ok
            &&& all.pairs.len() == n
            &&& {
                let at = before->Ok_0.objects.len();
                let a = marshal_model(env, key, pairs[i].0, None, base + at, before->Ok_0.table);
                &&& a is Ok
                &&& {
                    let b = marshal_model(
                        env,
                        value,
                        pairs[i].1,
                        None,
                        base + at + a->Ok_0.objects.len(),
                        a->Ok_0.table,
                    );
                    &&& b is Ok
                    &&& all.pairs[i] == (a->Ok_0.value, b->Ok_0.value)
                    &&& at + a->Ok_0.objects.len() + b->Ok_0.objects.len() <= all.objects.len()
                    &&& all.objects.subrange(at as int, (at + a->Ok_0.objects.len()) as int)
                        == a->Ok_0.objects
                    &&& all.objects.subrange(
                        (at + a->Ok_0.objects.len()) as int,
                        (at + a->Ok_0.objects.len() + b->Ok_0.objects.len()) as int,
                    ) == b->Ok_0.objects
                }
            }
        }),
    decreases n,
{
    let all = marshal_pairs(env, key, value, pairs, n, base, table)->Ok_0;
    let prev = marshal_pairs(env, key, value, pairs, (n - 1) as nat, base, table)->Ok_0;
    lemma_pairs_len(env, key, value, pairs, n, base, table);
    lemma_pairs_len(env, key, value, pairs, (n - 1) as nat, base, table);
    let la = marshal_model(env, key, pairs[n - 1].0, None, base + prev.objects.len(), prev.table)->Ok_0;
    let lb = marshal_model(
        env,
        value,
        pairs[n - 1].1,
        None,
        base + prev.objects.len() + la.objects.len(),
        la.table,
    )->Ok_0;
    assert(all.objects == prev.objects + la.objects + lb.objects);
    if i == n - 1 {
        let at = prev.objects.len();
        assert(all.objects.subrange(at as int, (at + la.objects.len()) as int) =~= la.objects);
        assert(all.objects.subrange(
            (at + la.objects.len()) as int,
            (at + la.objects.len() + lb.objects.len()) as int,
        ) =~= lb.objects);
    } else {
        lemma_pairs_layout(env, key, value, pairs, i, (n - 1) as nat, base, table);
        let before = marshal_pairs(env, key, value, pairs, i as nat, base, table)->Ok_0;
        let at = before.objects.len();
        let a = marshal_model(env, key, pairs[i].0, None, base + at, before.table)->Ok_0;
        let b = marshal_model(
            env,
            value,
            pairs[i].1,
            None,
            base + at + a.objects.len(),
            a.table,
        )->Ok_0;
        assert(all.objects.subrange(at as int, (at + a.objects.len()) as int)
            =~= prev.objects.subrange(at as int, (at + a.objects.len()) as int));
        assert(all.objects.subrange(
            (at + a.objects.len()) as int,
            (at + a.objects.len() + b.objects.len()) as int,
        ) =~= prev.objects.subrange(
            (at + a.objects.len()) as int,
            (at + a.objects.len() + b.objects.len()) as int,
        ));
    }
}

/// As many entries come out of marshalling as went in.
pub proof fn lemma_pairs_len(
    env: Env,
    key: usize,
    value: usize,
    pairs: Seq<(NativeV, NativeV)>,
    k: nat,
    base: nat,
    table: Seq<Option<usize>>,
)
    requires
        k <= pairs.len(),
        marshal_pairs(env, key, value, pairs, k, base, table) is Ok,
    ensures
        marshal_pairs(env, key, value, pairs, k, base, table)->Ok_0.pairs.len() == k,
    decreases k,
{
    if k > 0 {
        lemma_pairs_len(env, key, value, pairs, (k - 1) as nat, base, table);
    }
}

/// Among fields with names of their own, a field is found where it
/// stands.
pub proof fn lemma_field_found(fields: Seq<Field>, j: int, from: int)
    requires
        distinct_names(fields),
        0 <= from <= j < fields.len(),
    ensures
        field_position(fields, fields[j].name@, from) == j,
    decreases j - from,
{
    if from < j {
        assert(fields[from].name@ != fields[j].name@);
        lemma_field_found(fields, j, from + 1);
    }
}

/// The properties of a struct are read back into its fields: where the
/// properties are the fields in declaration order and each of the first
/// `k` values is read as the native value of its field, reading the
/// first `k` properties sets the first `k` places to those values.
pub proof fn lemma_read_fields(
    schema: Schema,
    sid: usize,
    fields: Seq<Field>,
    heap: Seq<ObjectV>,
    values: Seq<ValueV>,
    vals: Seq<NativeV>,
    k: nat,
    depth: nat,
)
    requires
        distinct_names(fields),
        k <= fields.len(),
        fields.len() == values.len(),
        fields.len() == vals.len(),
        depth < heap.len(),
        forall|i: int|
            0 <= i < k ==> unmarshal_model(
                schema,
                fields[i].shape,
                heap,
                #[trigger] values[i],
                depth + 1,
            ) == Ok::<NativeV, Error>(vals[i]),
    ensures
        unmarshal_entries(
            schema,
            sid,
            fields,
            Reading::Named,
            heap,
            Seq::new(fields.len(), |i: int| (KeyV::Name(fields[i].name@), values[i])),
            k,
            depth,
        ) == Ok::<Seq<NativeV>, Error>(
            vals.take(k as int) + unset_slots((fields.len() - k) as nat),
        ),
    decreases k,
{
    let n = fields.len();
    let entries = Seq::new(n, |i: int| (KeyV::Name(fields[i].name@), values[i]));
    if k == 0 {
        assert(vals.take(0) + unset_slots(n) =~= unset_slots(n));
    } else {
        lemma_read_fields(schema, sid, fields, heap, values, vals, (k - 1) as nat, depth);
        lemma_field_found(fields, k - 1, 0);
        let before = vals.take(k - 1) + unset_slots((n - k + 1) as nat);
        assert(entries[k - 1] == (KeyV::Name(fields[k - 1].name@), values[k - 1]));
        assert(before.update(k - 1, vals[k - 1]) =~= vals.take(k as int) + unset_slots(
            (n - k) as nat,
        ));
    }
}

/// The properties of the object of an enum are read back into the fields
/// of its variant: where the properties are the tag and then the fields
/// in declaration order, none of which is named like the tag, and each of
/// the first `k` values is read as the native value of its field, reading
/// the tag and the first `k` fields sets the first `k` places to those
/// values.
pub proof fn lemma_read_payload(
    schema: Schema,
    sid: usize,
    tag: (KeyV, ValueV),
    name: Seq<char>,
    kind: StructKind,
    fields: Seq<Field>,
    heap: Seq<ObjectV>,
    values: Seq<ValueV>,
    vals: Seq<NativeV>,
    k: nat,
    depth: nat,
)
    requires
        tag.0 == KeyV::Name(name),
        distinct_keys(kind, fields),
        forall|i: int| 0 <= i < fields.len() ==> (#[trigger] fields[i]).name@ != name,
        k <= fields.len(),
        fields.len() == values.len(),
        fields.len() == vals.len(),
        depth < heap.len(),
        forall|i: int|
            0 <= i < k ==> unmarshal_model(
                schema,
                fields[i].shape,
                heap,
                #[trigger] values[i],
                depth + 1,
            ) == Ok::<NativeV, Error>(vals[i]),
    ensures
        unmarshal_entries(
            schema,
            sid,
            fields,
            Reading::Payload(name),
            heap,
            seq![tag] + Seq::new(fields.len(), |i: int| (payload_key(kind, fields, i), values[i])),
            k + 1,
            depth,
        ) == Ok::<Seq<NativeV>, Error>(
            vals.take(k as int) + unset_slots((fields.len() - k) as nat),
        ),
    decreases k,
{
    let n = fields.len();
    let entries = seq![tag] + Seq::new(n, |i: int| (payload_key(kind, fields, i), values[i]));
    if k == 0 {
        assert(entries[0] == tag);
        assert(unmarshal_entries(
            schema,
            sid,
            fields,
            Reading::Payload(name),
            heap,
            entries,
            0,
            depth,
        ) == Ok::<Seq<NativeV>, Error>(unset_slots(n)));
        assert(vals.take(0) + unset_slots(n) =~= unset_slots(n));
    } else {
        lemma_read_payload(
            schema,
            sid,
            tag,
            name,
            kind,
            fields,
            heap,
            values,
            vals,
            (k - 1) as nat,
            depth,
        );
        let before = vals.take(k - 1) + unset_slots((n - k + 1) as nat);
        assert(entries[k as int] == (payload_key(kind, fields, k - 1), values[k - 1]));
        if kind == StructKind::Struct {
            lemma_field_found(fields, k - 1, 0);
            assert(fields[k - 1].name@ != name);
        } else {
            assert((k - 1) as u32 == k - 1);
        }
        assert(before.update(k - 1, vals[k - 1]) =~= vals.take(k as int) + unset_slots(
            (n - k) as nat,
        ));
    }
}

/// Places that all hold a value take no defaults.
pub proof fn lemma_no_defaults(fields: Seq<Field>, vals: Seq<NativeV>)
    requires
        forall|i: int| 0 <= i < vals.len() ==> !((#[trigger] vals[i]) is Unset),
    ensures
        with_defaults(fields, vals) == vals,
{
    assert(with_defaults(fields, vals) =~= vals);
}

/// Whether `objects` lie in the heap from the handle `base` on, and every
/// handle of the heap can be held.
pub open spec fn placed(heap: Seq<ObjectV>, base: nat, objects: Seq<ObjectV>) -> bool {
    &&& heap.len() <= usize::MAX
    &&& base + objects.len() <= heap.len()
    &&& heap.subrange(base as int, (base + objects.len()) as int) == objects
}

/// A part of objects that lie in the heap lies in the heap.
pub proof fn lemma_placed_part(
    heap: Seq<ObjectV>,
    base: nat,
    objects: Seq<ObjectV>,
    at: nat,
    part: Seq<ObjectV>,
)
    requires
        placed(heap, base, objects),
        at + part.len() <= objects.len(),
        objects.subrange(at as int, (at + part.len()) as int) == part,
    ensures
        placed(heap, base + at, part),
{
    assert(heap.subrange((base + at) as int, (base + at + part.len()) as int) =~= part) by {
        assert forall|i: int| 0 <= i < part.len() implies heap[base + at + i] == part[i] by {
            assert(heap.subrange(base as int, (base + objects.len()) as int)[at + i]
                == objects[at + i]);
            assert(objects.subrange(at as int, (at + part.len()) as int)[i] == part[i]);
        }
    }
}

/// A plain value of a shape whose values never marshal to `null` does not
/// marshal to `null` nor to `undefined`.
pub proof fn lemma_never_null(
    env: Env,
    sid: usize,
    v: NativeV,
    field: Option<OwnerV>,
    base: nat,
    table: Seq<Option<usize>>,
)
    requires
        never_null(env.schema, sid),
        plain(env, sid, v, field),
        marshal_model(env, sid, v, field, base, table) is Ok,
    ensures
        !(marshal_model(env, sid, v, field, base, table)->Ok_0.value is Null),
        !(marshal_model(env, sid, v, field, base, table)->Ok_0.value is Undefined),
    decreases v,
{
    let shape = env.schema.shapes[sid as int];
    if shape.spec_is_scalar() {
    } else {
        match shape.def {
            Def::Pointer { known, pointee } => {
                assert(marshal_model(env, sid, v, field, base, table) == smart_pointer_model(
                    env,
                    sid,
                    v,
                    field,
                    base,
                    table,
                ));
                match v {
                    NativeV::Owned(Some(x)) => {
                        lemma_never_null(env, pointee->Some_0, *x, field, base, table);
                    },
                    _ => {},
                }
            },
            _ => {},
        }
    }
}

/// Each of the values that marshalled in turn is read back as it was.
pub proof fn lemma_items_read_back(
    env: Env,
    kids: Kids,
    vals: Seq<NativeV>,
    base: nat,
    table: Seq<Option<usize>>,
    heap: Seq<ObjectV>,
    depth: nat,
)
    requires
        marshal_items(env, kids, vals, vals.len(), base, table) is Ok,
        placed(heap, base, marshal_items(env, kids, vals, vals.len(), base, table)->Ok_0.objects),
        depth <= base,
        forall|i: int|
            0 <= i < vals.len() ==> plain(env,
                kids.shape_of(i),
                #[trigger] vals[i],
                kids.owner(i),
            ),
    ensures
        marshal_items(env, kids, vals, vals.len(), base, table)->Ok_0.values.len() == vals.len(),
        forall|i: int|
            0 <= i < vals.len() ==> unmarshal_model(
                env.schema,
                kids.shape_of(i),
                heap,
                #[trigger] marshal_items(env, kids, vals, vals.len(), base, table)->Ok_0.values[i],
                depth,
            ) == Ok::<NativeV, Error>(vals[i]),
    decreases vals, 1nat, 0nat,
{
    let all = marshal_items(env, kids, vals, vals.len(), base, table)->Ok_0;
    lemma_marshalled_fields_not_blocked(env, kids, vals, vals.len(), base, table);
    assert forall|i: int| 0 <= i < vals.len() implies unmarshal_model(
        env.schema,
        kids.shape_of(i),
        heap,
        #[trigger] all.values[i],
        depth,
    ) == Ok::<NativeV, Error>(vals[i]) by {
        lemma_items_layout(env, kids, vals, i, vals.len(), base, table);
        let before = marshal_items(env, kids, vals, i as nat, base, table)->Ok_0;
        let one = marshal_model(
            env,
            kids.shape_of(i),
            vals[i],
            kids.owner(i),
            base + before.objects.len(),
            before.table,
        )->Ok_0;
        lemma_placed_part(heap, base, all.objects, before.objects.len(), one.objects);
        lemma_value_round_trip(
            env,
            kids.shape_of(i),
            vals[i],
            kids.owner(i),
            base + before.objects.len(),
            before.table,
            heap,
            depth,
        );
    }
}

/// Each of the entries that marshalled in turn is read back as it was.
pub proof fn lemma_pairs_read_back(
    env: Env,
    key: usize,
    value: usize,
    pairs: Seq<(NativeV, NativeV)>,
    base: nat,
    table: Seq<Option<usize>>,
    heap: Seq<ObjectV>,
    depth: nat,
)
    requires
        marshal_pairs(env, key, value, pairs, pairs.len(), base, table) is Ok,
        placed(
            heap,
            base,
            marshal_pairs(env, key, value, pairs, pairs.len(), base, table)->Ok_0.objects,
        ),
        depth <= base,
        forall|i: int|
            0 <= i < pairs.len() ==> plain(env, key, (#[trigger] pairs[i]).0, None) && plain(env,
                value,
                pairs[i].1,
                None,
            ),
    ensures
        marshal_pairs(env, key, value, pairs, pairs.len(), base, table)->Ok_0.pairs.len()
            == pairs.len(),
        forall|i: int|
            0 <= i < pairs.len() ==> unmarshal_model(
                env.schema,
                key,
                heap,
                (#[trigger] marshal_pairs(
                    env,
                    key,
                    value,
                    pairs,
                    pairs.len(),
                    base,
                    table,
                )->Ok_0.pairs[i]).0,
                depth,
            ) == Ok::<NativeV, Error>(pairs[i].0) && unmarshal_model(
                env.schema,
                value,
                heap,
                marshal_pairs(env, key, value, pairs, pairs.len(), base, table)->Ok_0.pairs[i].1,
                depth,
            ) == Ok::<NativeV, Error>(pairs[i].1),
    decreases pairs, 1nat, 0nat,
{
    let all = marshal_pairs(env, key, value, pairs, pairs.len(), base, table)->Ok_0;
    lemma_pairs_len(env, key, value, pairs, pairs.len(), base, table);
    assert forall|i: int| 0 <= i < pairs.len() implies unmarshal_model(
        env.schema,
        key,
        heap,
        (#[trigger] all.pairs[i]).0,
        depth,
    ) == Ok::<NativeV, Error>(pairs[i].0) && unmarshal_model(
        env.schema,
        value,
        heap,
        all.pairs[i].1,
        depth,
    ) == Ok::<NativeV, Error>(pairs[i].1) by {
        lemma_pairs_layout(env, key, value, pairs, i, pairs.len(), base, table);
        let before = marshal_pairs(env, key, value, pairs, i as nat, base, table)->Ok_0;
        let at = before.objects.len();
        let a = marshal_model(env, key, pairs[i].0, None, base + at, before.table)->Ok_0;
        let b = marshal_model(
            env,
            value,
            pairs[i].1,
            None,
            base + at + a.objects.len(),
            a.table,
        )->Ok_0;
        lemma_placed_part(heap, base, all.objects, at, a.objects);
        lemma_placed_part(heap, base, all.objects, at + a.objects.len(), b.objects);
        lemma_value_round_trip(env, key, pairs[i].0, None, base + at, before.table, heap, depth);
        lemma_value_round_trip(
            env,
            value,
            pairs[i].1,
            None,
            base + at + a.objects.len(),
            a.table,
            heap,
            depth,
        );
    }
}

/// A plain value that is marshalled and read back is the value it was:
/// where the objects that marshalling the value adds lie in the heap from
/// the handle `base` on, and the value that it became is read at a
/// nesting depth of at most `base`, what is read is the value.
pub proof fn lemma_value_round_trip(
    env: Env,
    sid: usize,
    v: NativeV,
    field: Option<OwnerV>,
    base: nat,
    table: Seq<Option<usize>>,
    heap: Seq<ObjectV>,
    depth: nat,
)
    requires
        plain(env, sid, v, field),
        marshal_model(env, sid, v, field, base, table) is Ok,
        placed(heap, base, marshal_model(env, sid, v, field, base, table)->Ok_0.objects),
        depth <= base,
    ensures
        unmarshal_model(
            env.schema,
            sid,
            heap,
            marshal_model(env, sid, v, field, base, table)->Ok_0.value,
            depth,
        ) == Ok::<NativeV, Error>(v),
    decreases v, 3nat, 0nat,
{
    let schema = env.schema;
    let shape = schema.shapes[sid as int];
    let o = marshal_model(env, sid, v, field, base, table)->Ok_0;
    if shape.spec_is_scalar() {
        lemma_scalar_round_trip(
            shape.scalar->Some_0,
            sid,
            v->Scalar_0,
            observed(heap, o.value),
        );
    } else {
        match shape.def {
            Def::Optional(t) => match v {
                NativeV::Optional(Some(x)) => {
                    lemma_never_null(env, t, *x, field, base, table);
                    lemma_value_round_trip(env, t, *x, field, base, table, heap, depth);
                },
                _ => {},
            },
            Def::Pointer { known, pointee } => {
                let p = pointee->Some_0;
                assert(marshal_model(env, sid, v, field, base, table) == smart_pointer_model(
                    env,
                    sid,
                    v,
                    field,
                    base,
                    table,
                ));
                match v {
                    NativeV::Owned(Some(x)) => {
                        lemma_value_round_trip(env, p, *x, field, base, table, heap, depth);
                        assert(unmarshal_model(schema, sid, heap, o.value, depth)
                            == smart_pointer_from_model(schema, sid, heap, o.value, depth));
                    },
                    _ => {},
                }
            },
            _ => {
                if is_unit_enum(schema, sid) {
                    lemma_unit_enum_round_trip(env, sid, v, field, heap, depth);
                } else {
                    lemma_object_round_trip(env, sid, v, field, base, table, heap, depth);
                }
            },
        }
    }
}

/// A variant whose tag tells it apart is selected by its tag.
pub proof fn lemma_selected(sid: usize, e: EnumType, repr: EnumTagRepr, variant: usize)
    requires
        variant < e.variants.len(),
        selectable(e, repr, variant as int),
    ensures
        selected(sid, e, tag_value(repr, e.variants[variant as int])) == Ok::<usize, Error>(
            variant,
        ),
{
    match repr {
        EnumTagRepr::String => {
            lemma_variant_named(e, variant as int, 0);
        },
        EnumTagRepr::Number => {
            lemma_variant_numbered(e, variant as int, 0);
        },
    }
}

/// A variant that no earlier variant shares its name with is the first
/// with its name.
pub proof fn lemma_variant_named(e: EnumType, variant: int, from: int)
    requires
        0 <= from <= variant < e.variants.len(),
        selectable(e, EnumTagRepr::String, variant),
    ensures
        variant_named(e.variants@, e.variants[variant].name@, from) == variant,
    decreases variant - from,
{
    if from < variant {
        assert(e.variants[from].name@ != e.variants[variant].name@);
        lemma_variant_named(e, variant, from + 1);
    }
}

/// A variant that no earlier variant shares its discriminant with is the
/// first with its discriminant.
pub proof fn lemma_variant_numbered(e: EnumType, variant: int, from: int)
    requires
        0 <= from <= variant < e.variants.len(),
        selectable(e, EnumTagRepr::Number, variant),
    ensures
        variant_numbered(e.variants@, e.variants[variant].discriminant->Some_0, from) == variant,
    decreases variant - from,
{
    if from < variant {
        assert(e.variants[from].discriminant != e.variants[variant].discriminant);
        lemma_variant_numbered(e, variant, from + 1);
    }
}

/// A plain value of an enum without payload is read back from its tag.
pub proof fn lemma_unit_enum_round_trip(
    env: Env,
    sid: usize,
    v: NativeV,
    field: Option<OwnerV>,
    heap: Seq<ObjectV>,
    depth: nat,
)
    requires
        sid < env.schema.shapes.len(),
        !env.schema.shapes[sid as int].spec_is_scalar(),
        !(env.schema.shapes[sid as int].def is Optional),
        !(env.schema.shapes[sid as int].def is Pointer),
        is_unit_enum(env.schema, sid),
        plain(env, sid, v, field),
        depth <= heap.len(),
        enum_unit_model(
            env.schema,
            sid,
            env.schema.shapes[sid as int].ty->User_0->Enum_0,
            v,
        ) is Ok,
    ensures
        unmarshal_model(
            env.schema,
            sid,
            heap,
            enum_unit_model(
                env.schema,
                sid,
                env.schema.shapes[sid as int].ty->User_0->Enum_0,
                v,
            )->Ok_0,
            depth,
        ) == Ok::<NativeV, Error>(v),
{
    let schema = env.schema;
    let e = schema.shapes[sid as int].ty->User_0->Enum_0;
    let b = behavior(schema, sid)->Ok_0;
    let variant = v->Enum_variant;
    let tag = tag_value(b.js_enum_repr, e.variants[variant as int]);
    lemma_selected(sid, e, b.js_enum_repr, variant);
    let fields = e.variants[variant as int].data.fields@;
    assert(e.variants[variant as int].data.kind == StructKind::Unit) by {
        if e.variants[variant as int].data.kind != StructKind::Unit {
            assert(crate::marshal::shape::has_payload(e.variants@));
        }
    }
    assert(unmarshal_model(schema, sid, heap, tag, depth) == enum_from_model(
        schema,
        sid,
        e,
        heap,
        tag,
        depth,
    ));
    assert(with_defaults(fields, unset_slots(fields.len())) =~= v->Enum_fields);
}

/// A plain value is no place that holds nothing.
pub proof fn lemma_plain_is_set(env: Env, sid: usize, v: NativeV, field: Option<OwnerV>)
    requires
        plain(env, sid, v, field),
    ensures
        !(v is Unset),
{
}

/// A map of plain entries is read back from the object it filled.
pub proof fn lemma_map_read_back(
    env: Env,
    sid: usize,
    key: usize,
    value: usize,
    v: NativeV,
    base: nat,
    table: Seq<Option<usize>>,
    heap: Seq<ObjectV>,
    depth: nat,
    h: usize,
)
    requires
        v is MapOf,
        forall|i: int|
            0 <= i < v->MapOf_0.len() ==> plain(env, key, (#[trigger] v->MapOf_0[i]).0, None)
                && plain(env, value, v->MapOf_0[i].1, None),
        map_model(env, sid, key, value, v, BodyV::MapOf(Seq::empty()), base, table) is Ok,
        placed(
            heap,
            base,
            map_model(env, sid, key, value, v, BodyV::MapOf(Seq::empty()), base, table)->Ok_0.objects,
        ),
        depth < base,
        h < heap.len(),
        heap[h as int].body == map_model(
            env,
            sid,
            key,
            value,
            v,
            BodyV::MapOf(Seq::empty()),
            base,
            table,
        )->Ok_0.body,
    ensures
        map_from_model(env.schema, sid, key, value, heap, h, depth) == Ok::<NativeV, Error>(v),
    decreases v, 1nat, 0nat,
{
    let pairs = v->MapOf_0;
    let m = marshal_pairs(env, key, value, pairs, pairs.len(), base, table)->Ok_0;
    assert(Seq::<(ValueV, ValueV)>::empty() + m.pairs =~= m.pairs);
    lemma_pairs_read_back(env, key, value, pairs, base, table, heap, depth + 1);
    lemma_read_pairs(env.schema, key, value, heap, m.pairs, pairs, pairs.len(), depth);
    assert(pairs.take(pairs.len() as int) =~= pairs);
}

/// A set of plain members is read back from the object it filled.
pub proof fn lemma_set_read_back(
    env: Env,
    sid: usize,
    t: usize,
    v: NativeV,
    base: nat,
    table: Seq<Option<usize>>,
    heap: Seq<ObjectV>,
    depth: nat,
    h: usize,
)
    requires
        v is SetOf,
        forall|i: int|
            0 <= i < v->SetOf_0.len() ==> plain(env, t, #[trigger] v->SetOf_0[i], None),
        set_model(env, sid, t, v, BodyV::SetOf(Seq::empty()), base, table) is Ok,
        placed(
            heap,
            base,
            set_model(env, sid, t, v, BodyV::SetOf(Seq::empty()), base, table)->Ok_0.objects,
        ),
        depth < base,
        h < heap.len(),
        heap[h as int].body == set_model(
            env,
            sid,
            t,
            v,
            BodyV::SetOf(Seq::empty()),
            base,
            table,
        )->Ok_0.body,
    ensures
        set_from_model(env.schema, sid, t, heap, h, depth) == Ok::<NativeV, Error>(v),
    decreases v, 1nat, 0nat,
{
    let items = v->SetOf_0;
    let m = marshal_items(env, Kids::Uniform(t), items, items.len(), base, table)->Ok_0;
    assert(Seq::<ValueV>::empty() + m.values =~= m.values);
    lemma_items_read_back(env, Kids::Uniform(t), items, base, table, heap, depth + 1);
    lemma_read_items(env.schema, t, heap, m.values, items, items.len(), depth);
    assert(items.take(items.len() as int) =~= items);
}

/// A sequence of plain elements is read back from the array it filled.
pub proof fn lemma_list_read_back(
    env: Env,
    sid: usize,
    t: usize,
    v: NativeV,
    base: nat,
    table: Seq<Option<usize>>,
    heap: Seq<ObjectV>,
    depth: nat,
    h: usize,
)
    requires
        v is List,
        v->List_0.len() <= u32::MAX,
        forall|i: int|
            0 <= i < v->List_0.len() ==> plain(env, t, #[trigger] v->List_0[i], None),
        list_model(env, sid, t, v, BodyV::Array(holes(v->List_0.len())), base, table) is Ok,
        placed(
            heap,
            base,
            list_model(
                env,
                sid,
                t,
                v,
                BodyV::Array(holes(v->List_0.len())),
                base,
                table,
            )->Ok_0.objects,
        ),
        depth < base,
        h < heap.len(),
        heap[h as int].body == list_model(
            env,
            sid,
            t,
            v,
            BodyV::Array(holes(v->List_0.len())),
            base,
            table,
        )->Ok_0.body,
    ensures
        list_from_model(env.schema, sid, t, heap, h, depth) == Ok::<NativeV, Error>(v),
    decreases v, 1nat, 0nat,
{
    let items = v->List_0;
    let m = marshal_items(env, Kids::Uniform(t), items, items.len(), base, table)->Ok_0;
    lemma_items_read_back(env, Kids::Uniform(t), items, base, table, heap, depth + 1);
    lemma_elements_fill_holes(m.values, m.values.len());
    assert(m.values.take(m.values.len() as int) + holes(0) =~= m.values);
    lemma_read_items(env.schema, t, heap, m.values, items, items.len(), depth);
    assert(items.take(items.len() as int) =~= items);
}

/// A tuple of plain fields is read back from the array it filled.
pub proof fn lemma_tuple_read_back(
    env: Env,
    sid: usize,
    fields: Seq<Field>,
    v: NativeV,
    base: nat,
    table: Seq<Option<usize>>,
    heap: Seq<ObjectV>,
    depth: nat,
    h: usize,
)
    requires
        v is Struct,
        v->Struct_0.len() == fields.len(),
        fields.len() <= u32::MAX,
        forall|i: int|
            0 <= i < fields.len() ==> plain(env,
                fields[i].shape,
                #[trigger] v->Struct_0[i],
                Some(owner_of(fields[i])),
            ),
        tuple_model(env, sid, fields, v, BodyV::Array(holes(fields.len())), base, table) is Ok,
        placed(
            heap,
            base,
            tuple_model(
                env,
                sid,
                fields,
                v,
                BodyV::Array(holes(fields.len())),
                base,
                table,
            )->Ok_0.objects,
        ),
        depth < base,
        h < heap.len(),
        heap[h as int].body == tuple_model(
            env,
            sid,
            fields,
            v,
            BodyV::Array(holes(fields.len())),
            base,
            table,
        )->Ok_0.body,
    ensures
        tuple_from_model(env.schema, sid, fields, heap, h, depth) == Ok::<NativeV, Error>(v),
    decreases v, 1nat, 0nat,
{
    let vals = v->Struct_0;
    let kids = Kids::Fields(fields);
    let m = marshal_items(env, kids, vals, vals.len(), base, table)->Ok_0;
    lemma_items_read_back(env, kids, vals, base, table, heap, depth + 1);
    assert forall|i: int| 0 <= i < vals.len() implies !((#[trigger] vals[i]) is Unset) by {
        lemma_plain_is_set(env, fields[i].shape, vals[i], Some(owner_of(fields[i])));
    }
    lemma_no_defaults(fields, vals);
    lemma_elements_fill_holes(m.values, m.values.len());
    assert(m.values.take(m.values.len() as int) + holes(0) =~= m.values);
    lemma_read_positions(env.schema, fields, heap, m.values, vals, vals.len(), depth);
    assert(vals.take(vals.len() as int) =~= vals);
    assert(vals + unset_slots(0) =~= vals);
}

/// A struct of plain fields with names of their own is read back from
/// the object it filled.
pub proof fn lemma_struct_read_back(
    env: Env,
    sid: usize,
    fields: Seq<Field>,
    v: NativeV,
    base: nat,
    table: Seq<Option<usize>>,
    heap: Seq<ObjectV>,
    depth: nat,
    h: usize,
)
    requires
        v is Struct,
        v->Struct_0.len() == fields.len(),
        distinct_names(fields),
        forall|i: int|
            0 <= i < fields.len() ==> plain(env,
                fields[i].shape,
                #[trigger] v->Struct_0[i],
                Some(owner_of(fields[i])),
            ),
        struct_model(env, sid, fields, v, BodyV::Plain(Seq::empty()), base, table) is Ok,
        placed(
            heap,
            base,
            struct_model(env, sid, fields, v, BodyV::Plain(Seq::empty()), base, table)->Ok_0.objects,
        ),
        depth < base,
        h < heap.len(),
        heap[h as int].body == struct_model(
            env,
            sid,
            fields,
            v,
            BodyV::Plain(Seq::empty()),
            base,
            table,
        )->Ok_0.body,
    ensures
        struct_from_model(env.schema, sid, fields, heap, h, depth) == Ok::<NativeV, Error>(v),
    decreases v, 1nat, 0nat,
{
    let vals = v->Struct_0;
    let kids = Kids::Fields(fields);
    let m = marshal_items(env, kids, vals, vals.len(), base, table)->Ok_0;
    lemma_items_read_back(env, kids, vals, base, table, heap, depth + 1);
    assert forall|i: int| 0 <= i < vals.len() implies !((#[trigger] vals[i]) is Unset) by {
        lemma_plain_is_set(env, fields[i].shape, vals[i], Some(owner_of(fields[i])));
    }
    lemma_no_defaults(fields, vals);
    lemma_struct_properties(env, sid, fields, v, base, table);
    lemma_read_fields(env.schema, sid, fields, heap, m.values, vals, fields.len(), depth);
    assert(vals.take(vals.len() as int) + unset_slots(0) =~= vals);
}

/// An enum with a plain payload is read back from the object it filled.
pub proof fn lemma_enum_read_back(
    env: Env,
    sid: usize,
    e: EnumType,
    v: NativeV,
    base: nat,
    table: Seq<Option<usize>>,
    heap: Seq<ObjectV>,
    depth: nat,
    h: usize,
)
    requires
        v is Enum,
        v->Enum_variant < e.variants.len(),
        behavior(env.schema, sid) is Ok,
        selectable(e, behavior(env.schema, sid)->Ok_0.js_enum_repr, v->Enum_variant as int),
        v->Enum_fields.len() == e.variants[v->Enum_variant as int].data.fields.len(),
        distinct_keys(
            e.variants[v->Enum_variant as int].data.kind,
            e.variants[v->Enum_variant as int].data.fields@,
        ),
        forall|i: int|
            0 <= i < v->Enum_fields.len() ==> plain(env,
                e.variants[v->Enum_variant as int].data.fields[i].shape,
                #[trigger] v->Enum_fields[i],
                Some(owner_of(e.variants[v->Enum_variant as int].data.fields[i])),
            ),
        enum_model(env, sid, e, v, BodyV::Plain(Seq::empty()), base, table) is Ok,
        placed(
            heap,
            base,
            enum_model(env, sid, e, v, BodyV::Plain(Seq::empty()), base, table)->Ok_0.objects,
        ),
        depth < base,
        h < heap.len(),
        heap[h as int].body == enum_model(
            env,
            sid,
            e,
            v,
            BodyV::Plain(Seq::empty()),
            base,
            table,
        )->Ok_0.body,
    ensures
        enum_from_model(env.schema, sid, e, heap, ValueV::Object(h), depth) == Ok::<
            NativeV,
            Error,
        >(v),
    decreases v, 1nat, 0nat,
{
    let schema = env.schema;
    let b = behavior(schema, sid)->Ok_0;
    let variant = v->Enum_variant;
    let chosen = e.variants[variant as int];
    let fields = chosen.data.fields@;
    let vals = v->Enum_fields;
    let kids = Kids::Payload { fields, tag: b.js_enum_tag, shape: sid };
    let m = marshal_items(env, kids, vals, vals.len(), base, table)->Ok_0;
    lemma_items_read_back(env, kids, vals, base, table, heap, depth + 1);
    lemma_marshalled_fields_not_blocked(env, kids, vals, vals.len(), base, table);
    assert forall|i: int| 0 <= i < fields.len() implies (#[trigger] fields[i]).name@
        != b.js_enum_tag by {
        assert(kids.blocked(i) is None);
    }
    assert forall|i: int| 0 <= i < vals.len() implies !((#[trigger] vals[i]) is Unset) by {
        lemma_plain_is_set(env, fields[i].shape, vals[i], Some(owner_of(fields[i])));
    }
    lemma_no_defaults(fields, vals);
    lemma_enum_properties(env, sid, e, v, base, table);
    let tag = (KeyV::Name(b.js_enum_tag), tag_value(b.js_enum_repr, chosen));
    let entries = seq![tag] + Seq::new(
        fields.len(),
        |i: int| (payload_key(chosen.data.kind, fields, i), m.values[i]),
    );
    assert(entries[0] == tag);
    assert(entries.len() == fields.len() + 1);
    lemma_selected(sid, e, b.js_enum_repr, variant);
    lemma_read_payload(
        schema,
        sid,
        tag,
        b.js_enum_tag,
        chosen.data.kind,
        fields,
        heap,
        m.values,
        vals,
        fields.len(),
        depth,
    );
    assert(vals.take(vals.len() as int) + unset_slots(0) =~= vals);
}

/// A plain map is read back from the object it became.
pub proof fn lemma_map_round_trip(
    env: Env,
    sid: usize,
    v: NativeV,
    field: Option<OwnerV>,
    base: nat,
    table: Seq<Option<usize>>,
    heap: Seq<ObjectV>,
    depth: nat,
)
    requires
        sid < env.schema.shapes.len(),
        !env.schema.shapes[sid as int].spec_is_scalar(),
        !is_unit_enum(env.schema, sid),
        plain(env, sid, v, field),
        marshal_model(env, sid, v, field, base, table) is Ok,
        placed(heap, base, marshal_model(env, sid, v, field, base, table)->Ok_0.objects),
        depth <= base,
        env.schema.shapes[sid as int].def is MapOf,
    ensures
        unmarshal_model(
            env.schema,
            sid,
            heap,
            marshal_model(env, sid, v, field, base, table)->Ok_0.value,
            depth,
        ) == Ok::<NativeV, Error>(v),
    decreases v, 2nat, 0nat,
{
    let schema = env.schema;
    let shape = schema.shapes[sid as int];
    let o = marshal_model(env, sid, v, field, base, table)->Ok_0;
    let object = create_model(env, sid, v, field)->Ok_0;
    let f = populate_model(env, sid, v, object.body, base + 1, table)->Ok_0;
    assert(o.value == ValueV::Object(base as usize));
    assert(o.objects == seq![ObjectV { origin: object.origin, body: f.body }] + f.objects);
    assert(heap[base as int] == o.objects[0]) by {
        assert(heap.subrange(base as int, (base + o.objects.len()) as int)[0] == o.objects[0]);
    }
    assert(o.objects.subrange(1, (1 + f.objects.len()) as int) =~= f.objects);
    lemma_placed_part(heap, base, o.objects, 1, f.objects);
    let h = base as usize;
    assert(heap[h as int].body == f.body);
    assert(unmarshal_model(schema, sid, heap, o.value, depth) == object_from_model(
        schema,
        sid,
        heap,
        h,
        depth,
    ));
    let key = shape.def->MapOf_key;
    let value = shape.def->MapOf_value;
    assert(object.body == BodyV::MapOf(Seq::empty()));
    assert(populate_model(env, sid, v, object.body, base + 1, table) == map_model(
        env,
        sid,
        key,
        value,
        v,
        object.body,
        base + 1,
        table,
    ));
    lemma_map_read_back(env, sid, key, value, v, base + 1, table, heap, depth, h);
    assert(object_from_model(schema, sid, heap, h, depth) == map_from_model(
        schema,
        sid,
        key,
        value,
        heap,
        h,
        depth,
    ));
}

/// A plain set is read back from the object it became.
pub proof fn lemma_set_round_trip(
    env: Env,
    sid: usize,
    v: NativeV,
    field: Option<OwnerV>,
    base: nat,
    table: Seq<Option<usize>>,
    heap: Seq<ObjectV>,
    depth: nat,
)
    requires
        sid < env.schema.shapes.len(),
        !env.schema.shapes[sid as int].spec_is_scalar(),
        !is_unit_enum(env.schema, sid),
        plain(env, sid, v, field),
        marshal_model(env, sid, v, field, base, table) is Ok,
        placed(heap, base, marshal_model(env, sid, v, field, base, table)->Ok_0.objects),
        depth <= base,
        env.schema.shapes[sid as int].def is SetOf,
    ensures
        unmarshal_model(
            env.schema,
            sid,
            heap,
            marshal_model(env, sid, v, field, base, table)->Ok_0.value,
            depth,
        ) == Ok::<NativeV, Error>(v),
    decreases v, 2nat, 0nat,
{
    let schema = env.schema;
    let shape = schema.shapes[sid as int];
    let o = marshal_model(env, sid, v, field, base, table)->Ok_0;
    let object = create_model(env, sid, v, field)->Ok_0;
    let f = populate_model(env, sid, v, object.body, base + 1, table)->Ok_0;
    assert(o.value == ValueV::Object(base as usize));
    assert(o.objects == seq![ObjectV { origin: object.origin, body: f.body }] + f.objects);
    assert(heap[base as int] == o.objects[0]) by {
        assert(heap.subrange(base as int, (base + o.objects.len()) as int)[0] == o.objects[0]);
    }
    assert(o.objects.subrange(1, (1 + f.objects.len()) as int) =~= f.objects);
    lemma_placed_part(heap, base, o.objects, 1, f.objects);
    let h = base as usize;
    assert(heap[h as int].body == f.body);
    assert(unmarshal_model(schema, sid, heap, o.value, depth) == object_from_model(
        schema,
        sid,
        heap,
        h,
        depth,
    ));
    let t = shape.def->SetOf_0;
    assert(object.body == BodyV::SetOf(Seq::empty()));
    assert(populate_model(env, sid, v, object.body, base + 1, table) == set_model(
        env,
        sid,
        t,
        v,
        object.body,
        base + 1,
        table,
    ));
    lemma_set_read_back(env, sid, t, v, base + 1, table, heap, depth, h);
    assert(object_from_model(schema, sid, heap, h, depth) == set_from_model(
        schema,
        sid,
        t,
        heap,
        h,
        depth,
    ));
}

/// A plain sequence is read back from the object it became.
pub proof fn lemma_list_round_trip(
    env: Env,
    sid: usize,
    v: NativeV,
    field: Option<OwnerV>,
    base: nat,
    table: Seq<Option<usize>>,
    heap: Seq<ObjectV>,
    depth: nat,
)
    requires
        sid < env.schema.shapes.len(),
        !env.schema.shapes[sid as int].spec_is_scalar(),
        !is_unit_enum(env.schema, sid),
        plain(env, sid, v, field),
        marshal_model(env, sid, v, field, base, table) is Ok,
        placed(heap, base, marshal_model(env, sid, v, field, base, table)->Ok_0.objects),
        depth <= base,
        env.schema.shapes[sid as int].spec_list_elem() is Some,
    ensures
        unmarshal_model(
            env.schema,
            sid,
            heap,
            marshal_model(env, sid, v, field, base, table)->Ok_0.value,
            depth,
        ) == Ok::<NativeV, Error>(v),
    decreases v, 2nat, 0nat,
{
    let schema = env.schema;
    let shape = schema.shapes[sid as int];
    let o = marshal_model(env, sid, v, field, base, table)->Ok_0;
    let object = create_model(env, sid, v, field)->Ok_0;
    let f = populate_model(env, sid, v, object.body, base + 1, table)->Ok_0;
    assert(o.value == ValueV::Object(base as usize));
    assert(o.objects == seq![ObjectV { origin: object.origin, body: f.body }] + f.objects);
    assert(heap[base as int] == o.objects[0]) by {
        assert(heap.subrange(base as int, (base + o.objects.len()) as int)[0] == o.objects[0]);
    }
    assert(o.objects.subrange(1, (1 + f.objects.len()) as int) =~= f.objects);
    lemma_placed_part(heap, base, o.objects, 1, f.objects);
    let h = base as usize;
    assert(heap[h as int].body == f.body);
    assert(unmarshal_model(schema, sid, heap, o.value, depth) == object_from_model(
        schema,
        sid,
        heap,
        h,
        depth,
    ));
    let t = shape.spec_list_elem()->Some_0;
    assert(populate_model(env, sid, v, object.body, base + 1, table) == list_model(
        env,
        sid,
        t,
        v,
        object.body,
        base + 1,
        table,
    ));
    assert(object_from_model(schema, sid, heap, h, depth) == list_from_model(
        schema,
        sid,
        t,
        heap,
        h,
        depth,
    ));
    if asks_typed(field) {
        let b = v->Contiguous_0;
        assert(object.body == BodyV::Typed(
            crate::marshal::native::BufferV {
                kind: b.kind,
                bits: crate::marshal::model::zeros(b.bits.len()),
            },
        ));
        assert(f.body == BodyV::Typed(b));
    } else {
        assert(object.body == BodyV::Array(holes(v->List_0.len())));
        lemma_list_read_back(env, sid, t, v, base + 1, table, heap, depth, h);
    }
}

/// A plain tuple is read back from the object it became.
pub proof fn lemma_tuple_round_trip(
    env: Env,
    sid: usize,
    v: NativeV,
    field: Option<OwnerV>,
    base: nat,
    table: Seq<Option<usize>>,
    heap: Seq<ObjectV>,
    depth: nat,
)
    requires
        sid < env.schema.shapes.len(),
        !env.schema.shapes[sid as int].spec_is_scalar(),
        !is_unit_enum(env.schema, sid),
        plain(env, sid, v, field),
        marshal_model(env, sid, v, field, base, table) is Ok,
        placed(heap, base, marshal_model(env, sid, v, field, base, table)->Ok_0.objects),
        depth <= base,
        env.schema.shapes[sid as int].def is Undefined,
        env.schema.shapes[sid as int].spec_tuple_fields() is Some,
    ensures
        unmarshal_model(
            env.schema,
            sid,
            heap,
            marshal_model(env, sid, v, field, base, table)->Ok_0.value,
            depth,
        ) == Ok::<NativeV, Error>(v),
    decreases v, 2nat, 0nat,
{
    let schema = env.schema;
    let shape = schema.shapes[sid as int];
    let o = marshal_model(env, sid, v, field, base, table)->Ok_0;
    let object = create_model(env, sid, v, field)->Ok_0;
    let f = populate_model(env, sid, v, object.body, base + 1, table)->Ok_0;
    assert(o.value == ValueV::Object(base as usize));
    assert(o.objects == seq![ObjectV { origin: object.origin, body: f.body }] + f.objects);
    assert(heap[base as int] == o.objects[0]) by {
        assert(heap.subrange(base as int, (base + o.objects.len()) as int)[0] == o.objects[0]);
    }
    assert(o.objects.subrange(1, (1 + f.objects.len()) as int) =~= f.objects);
    lemma_placed_part(heap, base, o.objects, 1, f.objects);
    let h = base as usize;
    assert(heap[h as int].body == f.body);
    assert(unmarshal_model(schema, sid, heap, o.value, depth) == object_from_model(
        schema,
        sid,
        heap,
        h,
        depth,
    ));
    let fields = shape.spec_tuple_fields()->Some_0;
    assert(object.body == BodyV::Array(holes(fields.len())));
    assert(populate_model(env, sid, v, object.body, base + 1, table) == tuple_model(
        env,
        sid,
        fields,
        v,
        object.body,
        base + 1,
        table,
    ));
    lemma_tuple_read_back(env, sid, fields, v, base + 1, table, heap, depth, h);
    assert(object_from_model(schema, sid, heap, h, depth) == tuple_from_model(
        schema,
        sid,
        fields,
        heap,
        h,
        depth,
    ));
}

/// A plain struct is read back from the object it became.
pub proof fn lemma_struct_round_trip(
    env: Env,
    sid: usize,
    v: NativeV,
    field: Option<OwnerV>,
    base: nat,
    table: Seq<Option<usize>>,
    heap: Seq<ObjectV>,
    depth: nat,
)
    requires
        sid < env.schema.shapes.len(),
        !env.schema.shapes[sid as int].spec_is_scalar(),
        !is_unit_enum(env.schema, sid),
        plain(env, sid, v, field),
        marshal_model(env, sid, v, field, base, table) is Ok,
        placed(heap, base, marshal_model(env, sid, v, field, base, table)->Ok_0.objects),
        depth <= base,
        env.schema.shapes[sid as int].def is Undefined,
        env.schema.shapes[sid as int].ty is User,
        env.schema.shapes[sid as int].ty->User_0 is Struct,
        env.schema.shapes[sid as int].ty->User_0->Struct_0.kind != StructKind::Tuple,
    ensures
        unmarshal_model(
            env.schema,
            sid,
            heap,
            marshal_model(env, sid, v, field, base, table)->Ok_0.value,
            depth,
        ) == Ok::<NativeV, Error>(v),
    decreases v, 2nat, 0nat,
{
    let schema = env.schema;
    let shape = schema.shapes[sid as int];
    let o = marshal_model(env, sid, v, field, base, table)->Ok_0;
    let object = create_model(env, sid, v, field)->Ok_0;
    let f = populate_model(env, sid, v, object.body, base + 1, table)->Ok_0;
    assert(o.value == ValueV::Object(base as usize));
    assert(o.objects == seq![ObjectV { origin: object.origin, body: f.body }] + f.objects);
    assert(heap[base as int] == o.objects[0]) by {
        assert(heap.subrange(base as int, (base + o.objects.len()) as int)[0] == o.objects[0]);
    }
    assert(o.objects.subrange(1, (1 + f.objects.len()) as int) =~= f.objects);
    lemma_placed_part(heap, base, o.objects, 1, f.objects);
    let h = base as usize;
    assert(heap[h as int].body == f.body);
    assert(unmarshal_model(schema, sid, heap, o.value, depth) == object_from_model(
        schema,
        sid,
        heap,
        h,
        depth,
    ));
    let fields = shape.ty->User_0->Struct_0.fields@;
    assert(object.body == BodyV::Plain(Seq::empty()));
    assert(populate_model(env, sid, v, object.body, base + 1, table) == struct_model(
        env,
        sid,
        fields,
        v,
        object.body,
        base + 1,
        table,
    ));
    lemma_struct_read_back(env, sid, fields, v, base + 1, table, heap, depth, h);
    assert(object_from_model(schema, sid, heap, h, depth) == struct_from_model(
        schema,
        sid,
        fields,
        heap,
        h,
        depth,
    ));
}

/// A plain enum with a payload is read back from the object it became.
pub proof fn lemma_enum_round_trip(
    env: Env,
    sid: usize,
    v: NativeV,
    field: Option<OwnerV>,
    base: nat,
    table: Seq<Option<usize>>,
    heap: Seq<ObjectV>,
    depth: nat,
)
    requires
        sid < env.schema.shapes.len(),
        !env.schema.shapes[sid as int].spec_is_scalar(),
        !is_unit_enum(env.schema, sid),
        plain(env, sid, v, field),
        marshal_model(env, sid, v, field, base, table) is Ok,
        placed(heap, base, marshal_model(env, sid, v, field, base, table)->Ok_0.objects),
        depth <= base,
        env.schema.shapes[sid as int].def is Undefined,
        env.schema.shapes[sid as int].ty is User,
        env.schema.shapes[sid as int].ty->User_0 is Enum,
    ensures
        unmarshal_model(
            env.schema,
            sid,
            heap,
            marshal_model(env, sid, v, field, base, table)->Ok_0.value,
            depth,
        ) == Ok::<NativeV, Error>(v),
    decreases v, 2nat, 0nat,
{
    let schema = env.schema;
    let shape = schema.shapes[sid as int];
    let e = shape.ty->User_0->Enum_0;
    let o = marshal_model(env, sid, v, field, base, table)->Ok_0;
    let object = create_model(env, sid, v, field)->Ok_0;
    let f = populate_model(env, sid, v, object.body, base + 1, table)->Ok_0;
    assert(o.value == ValueV::Object(base as usize));
    assert(o.objects == seq![ObjectV { origin: object.origin, body: f.body }] + f.objects);
    assert(heap[base as int] == o.objects[0]) by {
        assert(heap.subrange(base as int, (base + o.objects.len()) as int)[0] == o.objects[0]);
    }
    assert(o.objects.subrange(1, (1 + f.objects.len()) as int) =~= f.objects);
    lemma_placed_part(heap, base, o.objects, 1, f.objects);
    let h = base as usize;
    assert(heap[h as int].body == f.body);
    assert(object.body == BodyV::Plain(Seq::empty()));
    assert(populate_model(env, sid, v, object.body, base + 1, table) == enum_model(
        env,
        sid,
        e,
        v,
        object.body,
        base + 1,
        table,
    ));
    lemma_enum_read_back(env, sid, e, v, base + 1, table, heap, depth, h);
    assert(unmarshal_model(schema, sid, heap, o.value, depth) == enum_from_model(
        schema,
        sid,
        e,
        heap,
        o.value,
        depth,
    ));
}

/// A plain value that becomes an object is read back from that object.
pub proof fn lemma_object_round_trip(
    env: Env,
    sid: usize,
    v: NativeV,
    field: Option<OwnerV>,
    base: nat,
    table: Seq<Option<usize>>,
    heap: Seq<ObjectV>,
    depth: nat,
)
    requires
        sid < env.schema.shapes.len(),
        !env.schema.shapes[sid as int].spec_is_scalar(),
        !is_unit_enum(env.schema, sid),
        plain(env, sid, v, field),
        marshal_model(env, sid, v, field, base, table) is Ok,
        placed(heap, base, marshal_model(env, sid, v, field, base, table)->Ok_0.objects),
        depth <= base,
        !(env.schema.shapes[sid as int].def is Optional),
        !(env.schema.shapes[sid as int].def is Pointer),
    ensures
        unmarshal_model(
            env.schema,
            sid,
            heap,
            marshal_model(env, sid, v, field, base, table)->Ok_0.value,
            depth,
        ) == Ok::<NativeV, Error>(v),
    decreases v, 2nat, 1nat,
{
    let shape = env.schema.shapes[sid as int];
    match shape.def {
        Def::MapOf { .. } => {
            lemma_map_round_trip(env, sid, v, field, base, table, heap, depth);
        },
        Def::SetOf(_) => {
            lemma_set_round_trip(env, sid, v, field, base, table, heap, depth);
        },
        Def::List(_) | Def::Array(_) | Def::Slice(_) => {
            lemma_list_round_trip(env, sid, v, field, base, table, heap, depth);
        },
        _ => match shape.ty {
            Type::User(UserType::Struct(s)) => {
                if s.kind == StructKind::Tuple {
                    lemma_tuple_round_trip(env, sid, v, field, base, table, heap, depth);
                } else {
                    lemma_struct_round_trip(env, sid, v, field, base, table, heap, depth);
                }
            },
            Type::User(UserType::Enum(_)) => {
                lemma_enum_round_trip(env, sid, v, field, base, table, heap, depth);
            },
            _ => {},
        },
    }
}

/// A plain value holds a value in every place.
pub proof fn lemma_plain_complete(env: Env, sid: usize, v: NativeV, field: Option<OwnerV>)
    requires
        plain(env, sid, v, field),
    ensures
        complete(v),
    decreases v,
{
    let schema = env.schema;
    let shape = schema.shapes[sid as int];
    if shape.spec_is_scalar() {
    } else {
        match v {
            NativeV::Optional(Some(x)) => {
                lemma_plain_complete(env, shape.def->Optional_0, *x, field);
            },
            NativeV::Owned(Some(x)) => {
                lemma_plain_complete(env, shape.def->Pointer_pointee->Some_0, *x, field);
            },
            NativeV::List(items) => {
                let t = shape.spec_list_elem()->Some_0;
                assert forall|i: int| 0 <= i < items.len() implies complete(
                    #[trigger] items[i],
                ) by {
                    lemma_plain_complete(env, t, items[i], None);
                }
            },
            NativeV::SetOf(items) => {
                let t = shape.def->SetOf_0;
                assert forall|i: int| 0 <= i < items.len() implies complete(
                    #[trigger] items[i],
                ) by {
                    lemma_plain_complete(env, t, items[i], None);
                }
            },
            NativeV::MapOf(pairs) => {
                let key = shape.def->MapOf_key;
                let value = shape.def->MapOf_value;
                assert forall|i: int| 0 <= i < pairs.len() implies complete(
                    (#[trigger] pairs[i]).0,
                ) && complete(pairs[i].1) by {
                    lemma_plain_complete(env, key, pairs[i].0, None);
                    lemma_plain_complete(env, value, pairs[i].1, None);
                }
            },
            NativeV::Struct(vals) => {
                let fields = shape.ty->User_0->Struct_0.fields;
                assert forall|i: int| 0 <= i < vals.len() implies complete(#[trigger] vals[i]) by {
                    lemma_plain_complete(env, fields[i].shape, vals[i], Some(owner_of(fields[i])));
                }
            },
            NativeV::Enum { variant, fields: vals } => {
                let fields = shape.ty->User_0->Enum_0.variants[variant as int].data.fields;
                assert forall|i: int| 0 <= i < vals.len() implies complete(#[trigger] vals[i]) by {
                    lemma_plain_complete(env, fields[i].shape, vals[i], Some(owner_of(fields[i])));
                }
            },
            _ => {},
        }
    }
}

/// A plain value that is marshalled and built again is the value it was:
/// where marshalling the value adds its objects to a heap, building a
/// value of the same shape from what the value became, in the heap with
/// those objects, gives the value.
pub proof fn lemma_marshal_then_build(
    env: Env,
    sid: usize,
    v: NativeV,
    table: Seq<Option<usize>>,
    heap: Seq<ObjectV>,
)
    requires
        plain(env, sid, v, None),
        marshal_model(env, sid, v, None, heap.len(), table) is Ok,
        heap.len() + marshal_model(env, sid, v, None, heap.len(), table)->Ok_0.objects.len()
            <= usize::MAX,
    ensures
        from_model(
            env.schema,
            sid,
            heap + marshal_model(env, sid, v, None, heap.len(), table)->Ok_0.objects,
            marshal_model(env, sid, v, None, heap.len(), table)->Ok_0.value,
        ) == Ok::<NativeV, Error>(v),
{
    let o = marshal_model(env, sid, v, None, heap.len(), table)->Ok_0;
    let after = heap + o.objects;
    assert(after.subrange(heap.len() as int, (heap.len() + o.objects.len()) as int)
        =~= o.objects);
    lemma_value_round_trip(env, sid, v, None, heap.len(), table, after, 0);
    lemma_plain_complete(env, sid, v, None);
}

} // verus!
