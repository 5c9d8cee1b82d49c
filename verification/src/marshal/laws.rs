//! What holds of marshalling, for every value.

use crate::marshal::error::{Error, Observed};
use crate::marshal::heap::{position, with_property, BodyV, ObjectV};
use crate::marshal::model::{
    set_fields,
    behavior, bits_scalar, create_model, enum_model, is_shared, items_bits, marshal_items,
    marshal_model, marshal_pairs, payload_key, populate_model, scalar_bits, set_payload,
    shared_model, smart_pointer_model, struct_model, tag_value, typed_model, vacant, Env, Kids,
    Outcome,
};
use crate::marshal::native::{BufferV, ElemKind, NativeV, ScalarV};
use crate::marshal::reading::from_model;
use crate::marshal::scalar::{integer_of, is_integer, pow128, scalar_native, scalar_value};
use crate::marshal::shape::{
    marshals_as_object, owner_of, Def, EnumType, Field, OwnerV, ScalarType, StructKind, Type,
    UserType,
};
use crate::marshal::value::{KeyV, ValueV};
use crate::marshal::lemma_items_failure_stays;
use vstd::prelude::*;

verus! {

/// A scalar that is marshalled and read back is the scalar it was: the
/// value that a scalar of the kind `st` becomes is read, for the same
/// kind, as that scalar again. A string slice is left out: it can be
/// marshalled, and cannot be read back, for it has no owner.
pub proof fn lemma_scalar_round_trip(st: ScalarType, sid: usize, s: ScalarV, seen: Observed)
    requires
        scalar_value(st, s) is Some,
        st != ScalarType::Str,
    ensures
        scalar_native(st, sid, scalar_value(st, s)->Some_0, seen) == Ok::<ScalarV, Error>(s),
{
    match (st, s) {
        (ScalarType::Char, ScalarV::Char(c)) => {
            assert(seq![c].len() == 1);
            assert(seq![c][0] == c);
        },
        _ => {},
    }
}

/// A value with a scalar shape that is marshalled and built again is the
/// value it was, whatever else the heap holds. A string slice is left
/// out.
pub proof fn lemma_round_trip(
    env: Env,
    sid: usize,
    v: NativeV,
    base: nat,
    table: Seq<Option<usize>>,
    heap: Seq<ObjectV>,
)
    requires
        sid < env.schema.shapes.len(),
        env.schema.shapes[sid as int].spec_is_scalar(),
        env.schema.shapes[sid as int].scalar != Some(ScalarType::Str),
        marshal_model(env, sid, v, None, base, table) is Ok,
    ensures
        from_model(env.schema, sid, heap, marshal_model(env, sid, v, None, base, table)->Ok_0.value)
            == Ok::<NativeV, Error>(v),
{
    let st = env.schema.shapes[sid as int].scalar->Some_0;
    let s = v->Scalar_0;
    let value = marshal_model(env, sid, v, None, base, table)->Ok_0.value;
    lemma_scalar_round_trip(st, sid, s, crate::marshal::scalar::observed(heap, value));
}

/// The least and the greatest integer of an integer kind.
pub open spec fn integer_range(st: ScalarType) -> (int, int) {
    match st {
        ScalarType::U8 => (u8::MIN as int, u8::MAX as int),
        ScalarType::U16 => (u16::MIN as int, u16::MAX as int),
        ScalarType::U32 => (u32::MIN as int, u32::MAX as int),
        ScalarType::U64 => (u64::MIN as int, u64::MAX as int),
        ScalarType::U128 => (u128::MIN as int, u128::MAX as int),
        ScalarType::USize => (usize::MIN as int, usize::MAX as int),
        ScalarType::I8 => (i8::MIN as int, i8::MAX as int),
        ScalarType::I16 => (i16::MIN as int, i16::MAX as int),
        ScalarType::I32 => (i32::MIN as int, i32::MAX as int),
        ScalarType::I64 => (i64::MIN as int, i64::MAX as int),
        ScalarType::I128 => (i128::MIN as int, i128::MAX as int),
        ScalarType::ISize => (isize::MIN as int, isize::MAX as int),
        _ => (0, 0),
    }
}

/// An integer that does not fit the integer kind of the shape is refused
/// as an overflow, whether it comes as a whole number or as a big
/// integer, and one that fits is read as itself: nothing is wrapped or
/// cut. The one integer outside the range that is read is the image of
/// the lowest signed 128-bit integer.
pub proof fn lemma_overflow_rejected(st: ScalarType, sid: usize, v: ValueV, seen: Observed)
    requires
        is_integer(st),
        integer_of(v) is Some,
    ensures
        ({
            let n = integer_of(v)->Some_0;
            let (low, high) = integer_range(st);
            if low <= n <= high {
                scalar_native(st, sid, v, seen) is Ok && integer_of(
                    scalar_value(st, scalar_native(st, sid, v, seen)->Ok_0)->Some_0,
                ) == Some(
                    if st == ScalarType::I128 && n == i128::MIN {
                        -pow128()
                    } else {
                        n
                    },
                )
            } else if st == ScalarType::I128 && n == -pow128() {
                scalar_native(st, sid, v, seen) == Ok::<ScalarV, Error>(ScalarV::I128(i128::MIN))
            } else {
                scalar_native(st, sid, v, seen) == Err::<ScalarV, Error>(Error::IntOverflow(sid))
            }
        }),
{
}

/// Whether every element of a contiguous sequence is a bit pattern of
/// its element type.
pub open spec fn well_formed(b: BufferV) -> bool {
    forall|i: int| 0 <= i < b.bits.len() ==> (#[trigger] b.bits[i]) <= b.kind.spec_mask()
}

/// The scalars that the elements of a contiguous sequence are.
pub open spec fn scalars_of(b: BufferV) -> Seq<NativeV> {
    Seq::new(b.bits.len(), |i: int| NativeV::Scalar(bits_scalar(b.kind, b.bits[i])))
}

/// The bit pattern of the scalar that a bit pattern is, is that bit
/// pattern.
pub proof fn lemma_bits_round_trip(kind: ElemKind, bits: u64)
    requires
        bits <= kind.spec_mask(),
    ensures
        scalar_bits(kind, bits_scalar(kind, bits)) == Some(bits),
{
}

/// The bit patterns of the scalars of a contiguous sequence are those of
/// the sequence.
pub proof fn lemma_scalars_bits(b: BufferV, k: nat)
    requires
        well_formed(b),
        k <= b.bits.len(),
    ensures
        items_bits(b.kind, scalars_of(b), k) == Some(b.bits.take(k as int)),
    decreases k,
{
    if k == 0 {
        assert(b.bits.take(0) =~= Seq::<u64>::empty());
    } else {
        lemma_scalars_bits(b, (k - 1) as nat);
        lemma_bits_round_trip(b.kind, b.bits[k - 1]);
        assert(b.bits.take(k as int) =~= b.bits.take(k - 1).push(b.bits[k - 1]));
    }
}

/// Writing a sequence to a typed array of its element type and length
/// gives the same typed array whether the sequence lies contiguous and
/// is copied as a whole, or is read value by value: the elements of the
/// sequence, one for one.
pub proof fn lemma_typed_paths_agree(sid: usize, b: BufferV, target: BufferV)
    requires
        well_formed(b),
        target.kind == b.kind,
        target.bits.len() == b.bits.len(),
    ensures
        typed_model(sid, NativeV::Contiguous(b), target) == Ok::<BufferV, Error>(b),
        typed_model(sid, NativeV::List(scalars_of(b)), target) == Ok::<BufferV, Error>(b),
{
    lemma_scalars_bits(b, b.bits.len());
    assert(b.bits.take(b.bits.len() as int) =~= b.bits);
    assert(b.bits + target.bits.skip(b.bits.len() as int) =~= b.bits);
}

/// Where the first `k` fields of a payload marshal, none of them is
/// named like the tag.
pub proof fn lemma_marshalled_fields_not_blocked(
    env: Env,
    kids: Kids,
    vals: Seq<NativeV>,
    k: nat,
    base: nat,
    table: Seq<Option<usize>>,
)
    requires
        k <= vals.len(),
        marshal_items(env, kids, vals, k, base, table) is Ok,
    ensures
        marshal_items(env, kids, vals, k, base, table)->Ok_0.values.len() == k,
        forall|i: int| 0 <= i < k ==> kids.blocked(i) is None,
    decreases k,
{
    if k > 0 {
        lemma_marshalled_fields_not_blocked(env, kids, vals, (k - 1) as nat, base, table);
    }
}

/// The position of a key that is looked for from `from` on is not before
/// `from` and not behind the end.
pub proof fn lemma_position_bounds(entries: Seq<(KeyV, ValueV)>, key: KeyV, from: int)
    requires
        0 <= from <= entries.len(),
    ensures
        from <= position(entries, key, from) <= entries.len(),
    decreases entries.len() - from,
{
    if from < entries.len() && entries[from].0 != key {
        lemma_position_bounds(entries, key, from + 1);
    }
}

/// Setting payload fields that are not named like the tag leaves the
/// first property, where that is the tag, as it is.
pub proof fn lemma_payload_keeps_tag(
    entries: Seq<(KeyV, ValueV)>,
    tag: Seq<char>,
    kind: StructKind,
    fields: Seq<Field>,
    values: Seq<ValueV>,
    k: nat,
)
    requires
        entries.len() >= 1,
        entries[0].0 == KeyV::Name(tag),
        k <= fields.len(),
        k <= values.len(),
        forall|i: int| 0 <= i < k ==> (#[trigger] fields[i]).name@ != tag,
    ensures
        set_payload(entries, kind, fields, values, k).len() >= 1,
        set_payload(entries, kind, fields, values, k)[0] == entries[0],
    decreases k,
{
    if k > 0 {
        lemma_payload_keeps_tag(entries, tag, kind, fields, values, (k - 1) as nat);
        let before = set_payload(entries, kind, fields, values, (k - 1) as nat);
        let key = payload_key(kind, fields, k - 1);
        assert(key != KeyV::Name(tag));
        lemma_position_bounds(before, key, 1);
        assert(position(before, key, 0) != 0);
    }
}

/// The tag of an enum is set before any field of its payload: in the
/// object that is filled from nothing, the first property is the tag,
/// under the name that the enum declares.
pub proof fn lemma_tag_comes_first(
    env: Env,
    sid: usize,
    e: EnumType,
    v: NativeV,
    base: nat,
    table: Seq<Option<usize>>,
)
    requires
        enum_model(env, sid, e, v, BodyV::Plain(Seq::empty()), base, table) is Ok,
    ensures
        ({
            let f = enum_model(env, sid, e, v, BodyV::Plain(Seq::empty()), base, table)->Ok_0;
            let b = behavior(env.schema, sid)->Ok_0;
            &&& f.body is Plain
            &&& f.body->Plain_0.len() >= 1
            &&& f.body->Plain_0[0] == (
                KeyV::Name(b.js_enum_tag),
                tag_value(b.js_enum_repr, e.variants[v->Enum_variant as int]),
            )
        }),
{
    let b = behavior(env.schema, sid)->Ok_0;
    let chosen = e.variants[v->Enum_variant as int];
    let fields = chosen.data.fields@;
    let vals = v->Enum_fields;
    let kids = Kids::Payload { fields, tag: b.js_enum_tag, shape: sid };
    let m = marshal_items(env, kids, vals, vals.len(), base, table)->Ok_0;
    lemma_marshalled_fields_not_blocked(env, kids, vals, vals.len(), base, table);
    let first = with_property(
        Seq::<(KeyV, ValueV)>::empty(),
        KeyV::Name(b.js_enum_tag),
        tag_value(b.js_enum_repr, chosen),
    );
    assert(first[0] == (KeyV::Name(b.js_enum_tag), tag_value(b.js_enum_repr, chosen)));
    assert forall|i: int| 0 <= i < fields.len() implies (#[trigger] fields[i]).name@
        != b.js_enum_tag by {
        assert(kids.blocked(i) is None);
    }
    lemma_payload_keeps_tag(first, b.js_enum_tag, chosen.data.kind, fields, m.values, fields.len());
}

/// A payload field that is named like the tag makes the marshalling of
/// its enum fail, whatever the container holds: with the failure of an
/// earlier field where one fails, and as a clobbered tag otherwise. The
/// tag is never overwritten.
pub proof fn lemma_clobber_rejected(
    env: Env,
    sid: usize,
    e: EnumType,
    v: NativeV,
    entries: Seq<(KeyV, ValueV)>,
    base: nat,
    table: Seq<Option<usize>>,
    j: int,
)
    requires
        behavior(env.schema, sid) is Ok,
        v is Enum,
        v->Enum_variant < e.variants.len(),
        crate::marshal::model::tag_fits(
            behavior(env.schema, sid)->Ok_0.js_enum_repr,
            e.variants[v->Enum_variant as int],
        ),
        v->Enum_fields.len() == e.variants[v->Enum_variant as int].data.fields@.len(),
        crate::marshal::model::positions_fit(
            e.variants[v->Enum_variant as int].data.kind,
            e.variants[v->Enum_variant as int].data.fields@,
        ),
        0 <= j < v->Enum_fields.len(),
        e.variants[v->Enum_variant as int].data.fields@[j].name@ == behavior(
            env.schema,
            sid,
        )->Ok_0.js_enum_tag,
    ensures
        enum_model(env, sid, e, v, BodyV::Plain(entries), base, table) is Err,
        marshal_items(
            env,
            Kids::Payload {
                fields: e.variants[v->Enum_variant as int].data.fields@,
                tag: behavior(env.schema, sid)->Ok_0.js_enum_tag,
                shape: sid,
            },
            v->Enum_fields,
            j as nat,
            base,
            table,
        ) is Ok ==> enum_model(env, sid, e, v, BodyV::Plain(entries), base, table) == Err::<
            crate::marshal::model::Filled,
            Error,
        >(Error::ClobberedTypeTag(sid)),
{
    let b = behavior(env.schema, sid)->Ok_0;
    let fields = e.variants[v->Enum_variant as int].data.fields@;
    let vals = v->Enum_fields;
    let kids = Kids::Payload { fields, tag: b.js_enum_tag, shape: sid };
    if marshal_items(env, kids, vals, vals.len(), base, table) is Ok {
        lemma_marshalled_fields_not_blocked(env, kids, vals, vals.len(), base, table);
        assert(kids.blocked(j) is None);
    }
    if marshal_items(env, kids, vals, j as nat, base, table) is Ok {
        assert(kids.blocked(j) == Some(Error::ClobberedTypeTag(sid)));
        assert(marshal_items(env, kids, vals, (j + 1) as nat, base, table) == Err::<
            crate::marshal::model::Many,
            Error,
        >(Error::ClobberedTypeTag(sid)));
        lemma_items_failure_stays(env, kids, vals, (j + 1) as nat, vals.len(), base, table);
    }
}

/// Whether a table of shared pointers holds all that an earlier one
/// held: the same cells, and for each cell that had an object, the same
/// object.
pub open spec fn extends(before: Seq<Option<usize>>, after: Seq<Option<usize>>) -> bool {
    &&& after.len() == before.len()
    &&& forall|i: int|
        0 <= i < before.len() ==> (#[trigger] before[i]) is Some ==> after[i] == before[i]
}

/// In a table that holds all that another one held, no more cells are
/// without an object than in that one.
pub proof fn lemma_extends_vacant(before: Seq<Option<usize>>, after: Seq<Option<usize>>)
    requires
        extends(before, after),
    ensures
        vacant(after) <= vacant(before),
    decreases before.len(),
{
    if before.len() > 0 {
        assert(before.last() is Some ==> after.last() is Some) by {
            assert(before[before.len() - 1] == before.last());
        }
        assert(extends(before.drop_last(), after.drop_last())) by {
            assert forall|i: int|
                0 <= i < before.drop_last().len() && (#[trigger] before.drop_last()[i])
                    is Some implies after.drop_last()[i] == before.drop_last()[i] by {
                assert(before[i] == before.drop_last()[i]);
            }
        }
        lemma_extends_vacant(before.drop_last(), after.drop_last());
    }
}

/// Marshalling a value never takes an object from a cell nor gives a cell
/// another one: the table afterwards holds all that it held before.
pub proof fn lemma_marshal_extends(
    env: Env,
    sid: usize,
    v: NativeV,
    field: Option<OwnerV>,
    base: nat,
    table: Seq<Option<usize>>,
)
    requires
        marshal_model(env, sid, v, field, base, table) is Ok,
    ensures
        extends(table, marshal_model(env, sid, v, field, base, table)->Ok_0.table),
    decreases
            vacant(table),
            crate::marshal::model::flag(env.schema, sid),
            crate::marshal::model::rank(env.schema, sid),
            v,
            3nat,
            0nat,
{
    let shape = env.schema.shapes[sid as int];
    if shape.spec_is_scalar() {
    } else {
        match shape.def {
            Def::Optional(t) => match v {
                NativeV::Optional(Some(x)) => {
                    lemma_marshal_extends(env, t, *x, field, base, table);
                },
                _ => {},
            },
            Def::Pointer { known, pointee } => {
                lemma_smart_pointer_extends(env, sid, v, field, base, table);
            },
            _ => match shape.ty {
                Type::Pointer(_) => {},
                _ => if crate::marshal::model::is_unit_enum(env.schema, sid) {
                } else {
                    let object = create_model(env, sid, v, field)->Ok_0;
                    lemma_populate_extends(env, sid, v, object.body, base + 1, table);
                },
            },
        }
    }
}

/// Marshalling a smart pointer leaves in the table all that it held.
pub proof fn lemma_smart_pointer_extends(
    env: Env,
    sid: usize,
    v: NativeV,
    field: Option<OwnerV>,
    base: nat,
    table: Seq<Option<usize>>,
)
    requires
        smart_pointer_model(env, sid, v, field, base, table) is Ok,
    ensures
        extends(table, smart_pointer_model(env, sid, v, field, base, table)->Ok_0.table),
    decreases
            vacant(table),
            crate::marshal::model::flag(env.schema, sid),
            crate::marshal::model::rank(env.schema, sid),
            v,
            2nat,
            0nat,
{
    match env.schema.shapes[sid as int].def {
        Def::Pointer { known, pointee } => {
            if pointee is None || v == NativeV::Owned(None) || v == NativeV::Shared(None) {
            } else {
                let p = pointee->Some_0;
                if is_shared(known) && marshals_as_object(env.schema, p) {
                    match v {
                        NativeV::Shared(Some(cell)) => {
                            lemma_shared_extends(env, sid, p, cell, field, base, table);
                        },
                        _ => {},
                    }
                } else {
                    match v {
                        NativeV::Owned(Some(x)) => {
                            lemma_marshal_extends(env, p, *x, field, base, table);
                        },
                        NativeV::Shared(Some(cell)) => {
                            lemma_marshal_extends(
                                env,
                                p,
                                env.memory[cell as int],
                                field,
                                base,
                                table,
                            );
                        },
                        _ => {},
                    }
                }
            }
        },
        _ => {},
    }
}

/// A table that holds all that a second one held, which holds all that a
/// third one held, holds all that the third one held.
pub proof fn lemma_extends_twice(
    first: Seq<Option<usize>>,
    second: Seq<Option<usize>>,
    third: Seq<Option<usize>>,
)
    requires
        extends(first, second),
        extends(second, third),
    ensures
        extends(first, third),
{
    assert forall|i: int| 0 <= i < first.len() && (#[trigger] first[i]) is Some implies third[i]
        == first[i] by {
        assert(second[i] == first[i]);
    }
}

/// Marshalling a shared pointer leaves in the table all that it held,
/// and afterwards the table holds, for the cell, the object that the
/// pointer became.
pub proof fn lemma_shared_extends(
    env: Env,
    sid: usize,
    p: usize,
    cell: usize,
    field: Option<OwnerV>,
    base: nat,
    table: Seq<Option<usize>>,
)
    requires
        shared_model(env, sid, p, cell, field, base, table) is Ok,
    ensures
        ({
            let o = shared_model(env, sid, p, cell, field, base, table)->Ok_0;
            &&& extends(table, o.table)
            &&& cell < table.len()
            &&& o.table[cell as int] is Some
            &&& o.value == ValueV::Object(o.table[cell as int]->Some_0)
        }),
    decreases vacant(table), 0nat, 0nat, NativeV::Unset, 0nat, 0nat,
{
    let o = shared_model(env, sid, p, cell, field, base, table)->Ok_0;
    match table[cell as int] {
        Some(h) => {
            assert(o.table == table);
        },
        None => {
            let object = create_model(env, p, env.memory[cell as int], field)->Ok_0;
            let entered = table.update(cell as int, Some(base as usize));
            let filled = populate_model(
                env,
                p,
                env.memory[cell as int],
                object.body,
                base + 1,
                entered,
            );
            assert(filled is Ok);
            lemma_populate_extends(env, p, env.memory[cell as int], object.body, base + 1, entered);
            assert(o.table == filled->Ok_0.table);
            assert(entered[cell as int] == Some(base as usize));
            assert(extends(table, entered));
            lemma_extends_twice(table, entered, o.table);
            assert(o.table[cell as int] == Some(base as usize));
            assert(o.value == ValueV::Object(base as usize));
        },
    }
}

/// Filling a container leaves in the table all that it held.
pub proof fn lemma_populate_extends(
    env: Env,
    sid: usize,
    v: NativeV,
    body: BodyV,
    base: nat,
    table: Seq<Option<usize>>,
)
    requires
        populate_model(env, sid, v, body, base, table) is Ok,
    ensures
        extends(table, populate_model(env, sid, v, body, base, table)->Ok_0.table),
    decreases vacant(table), 1nat, 0nat, v, 2nat, 0nat,
{
    let shape = env.schema.shapes[sid as int];
    match shape.def {
        Def::MapOf { key, value } => match v {
            NativeV::MapOf(pairs) => {
                lemma_pairs_extends(env, key, value, pairs, pairs.len(), base, table);
            },
            _ => {},
        },
        Def::SetOf(t) => match v {
            NativeV::SetOf(items) => {
                lemma_items_extends(env, Kids::Uniform(t), items, items.len(), base, table);
            },
            _ => {},
        },
        Def::List(t) | Def::Array(t) | Def::Slice(t) => match (body, v) {
            (BodyV::Array(_), NativeV::List(items)) => {
                lemma_items_extends(env, Kids::Uniform(t), items, items.len(), base, table);
            },
            _ => {},
        },
        _ => match shape.ty {
            Type::User(UserType::Struct(s)) => match v {
                NativeV::Struct(vals) => {
                    lemma_items_extends(env, Kids::Fields(s.fields@), vals, vals.len(), base, table);
                },
                _ => {},
            },
            Type::User(UserType::Enum(e)) => match v {
                NativeV::Enum { variant, fields: vals } => {
                    let b = behavior(env.schema, sid)->Ok_0;
                    let fields = e.variants[variant as int].data.fields@;
                    lemma_items_extends(
                        env,
                        Kids::Payload { fields, tag: b.js_enum_tag, shape: sid },
                        vals,
                        vals.len(),
                        base,
                        table,
                    );
                },
                _ => {},
            },
            _ => {},
        },
    }
}

/// Marshalling values in turn leaves in the table all that it held.
pub proof fn lemma_items_extends(
    env: Env,
    kids: Kids,
    vals: Seq<NativeV>,
    k: nat,
    base: nat,
    table: Seq<Option<usize>>,
)
    requires
        marshal_items(env, kids, vals, k, base, table) is Ok,
    ensures
        extends(table, marshal_items(env, kids, vals, k, base, table)->Ok_0.table),
    decreases vacant(table), 1nat, 0nat, vals, 0nat, k,
{
    if k == 0 || k > vals.len() {
    } else {
        lemma_items_extends(env, kids, vals, (k - 1) as nat, base, table);
        let m = marshal_items(env, kids, vals, (k - 1) as nat, base, table)->Ok_0;
        lemma_marshal_extends(
            env,
            kids.shape_of(k - 1),
            vals[k - 1],
            kids.owner(k - 1),
            base + m.objects.len(),
            m.table,
        );
        lemma_extends_twice(
            table,
            m.table,
            marshal_items(env, kids, vals, k, base, table)->Ok_0.table,
        );
    }
}

/// Marshalling the entries of a map in turn leaves in the table all that
/// it held.
pub proof fn lemma_pairs_extends(
    env: Env,
    key: usize,
    value: usize,
    pairs: Seq<(NativeV, NativeV)>,
    k: nat,
    base: nat,
    table: Seq<Option<usize>>,
)
    requires
        marshal_pairs(env, key, value, pairs, k, base, table) is Ok,
    ensures
        extends(table, marshal_pairs(env, key, value, pairs, k, base, table)->Ok_0.table),
    decreases vacant(table), 1nat, 0nat, pairs, 0nat, k,
{
    if k == 0 || k > pairs.len() {
    } else {
        lemma_pairs_extends(env, key, value, pairs, (k - 1) as nat, base, table);
        let m = marshal_pairs(env, key, value, pairs, (k - 1) as nat, base, table)->Ok_0;
        lemma_marshal_extends(env, key, pairs[k - 1].0, None, base + m.objects.len(), m.table);
        let a = marshal_model(
            env,
            key,
            pairs[k - 1].0,
            None,
            base + m.objects.len(),
            m.table,
        )->Ok_0;
        lemma_marshal_extends(
            env,
            value,
            pairs[k - 1].1,
            None,
            base + m.objects.len() + a.objects.len(),
            a.table,
        );
        lemma_extends_twice(table, m.table, a.table);
        lemma_extends_twice(
            table,
            a.table,
            marshal_pairs(env, key, value, pairs, k, base, table)->Ok_0.table,
        );
    }
}

/// Shared pointers to one cell become one object: once a shared pointer
/// to a cell has been marshalled, every shared pointer to that cell that
/// is marshalled later, with a table that holds all the first one left,
/// becomes the same object, and adds nothing to the heap.
pub proof fn lemma_identity_preserved(
    env: Env,
    sid: usize,
    p: usize,
    cell: usize,
    field: Option<OwnerV>,
    base: nat,
    table: Seq<Option<usize>>,
    later_sid: usize,
    later_field: Option<OwnerV>,
    later_base: nat,
    later_table: Seq<Option<usize>>,
)
    requires
        shared_model(env, sid, p, cell, field, base, table) is Ok,
        extends(shared_model(env, sid, p, cell, field, base, table)->Ok_0.table, later_table),
    ensures
        shared_model(env, later_sid, p, cell, later_field, later_base, later_table) == Ok::<
            Outcome,
            Error,
        >(
            Outcome {
                value: shared_model(env, sid, p, cell, field, base, table)->Ok_0.value,
                objects: Seq::empty(),
                table: later_table,
            },
        ),
{
    lemma_shared_extends(env, sid, p, cell, field, base, table);
    let first = shared_model(env, sid, p, cell, field, base, table)->Ok_0;
    assert(first.table[cell as int] is Some);
    assert(later_table[cell as int] == first.table[cell as int]);
    assert(first.value == ValueV::Object(later_table[cell as int]->Some_0));
}

/// The values that marshalling the first `n` values gives begin with
/// those that marshalling the first `k` gives, and marshalling the first
/// `k` does not fail where marshalling the first `n` does not.
pub proof fn lemma_items_prefix(
    env: Env,
    kids: Kids,
    vals: Seq<NativeV>,
    k: nat,
    n: nat,
    base: nat,
    table: Seq<Option<usize>>,
)
    requires
        k <= n <= vals.len(),
        marshal_items(env, kids, vals, n, base, table) is Ok,
    ensures
        marshal_items(env, kids, vals, k, base, table) is Ok,
        marshal_items(env, kids, vals, k, base, table)->Ok_0.values.len() == k,
        marshal_items(env, kids, vals, n, base, table)->Ok_0.values.len() == n,
        forall|i: int|
            0 <= i < k ==> marshal_items(env, kids, vals, n, base, table)->Ok_0.values[i]
                == marshal_items(env, kids, vals, k, base, table)->Ok_0.values[i],
    decreases n - k,
{
    lemma_marshalled_fields_not_blocked(env, kids, vals, n, base, table);
    if k < n {
        lemma_items_prefix(env, kids, vals, k, (n - 1) as nat, base, table);
        lemma_marshalled_fields_not_blocked(env, kids, vals, (n - 1) as nat, base, table);
    } else {
    }
}

/// A pointer that leads back to the cell it lies in finds the object of
/// that cell: where a shared pointer to the cell `cell`, which has no
/// object yet, is marshalled, and the cell holds a struct whose field at
/// position `j` is a shared pointer to the same cell, the value written
/// for that field is the object that the pointer itself becomes, whose
/// handle is `base`.
pub proof fn lemma_cycle_points_back(
    env: Env,
    sid: usize,
    p: usize,
    cell: usize,
    field: Option<OwnerV>,
    base: nat,
    table: Seq<Option<usize>>,
    j: int,
)
    requires
        shared_model(env, sid, p, cell, field, base, table) is Ok,
        table[cell as int] is None,
        env.schema.shapes[p as int].def is Undefined,
        env.schema.shapes[p as int].ty is User,
        env.schema.shapes[p as int].ty->User_0 is Struct,
        env.schema.shapes[p as int].ty->User_0->Struct_0.kind != StructKind::Tuple,
        env.memory[cell as int] is Struct,
        0 <= j < env.memory[cell as int]->Struct_0.len(),
        env.memory[cell as int]->Struct_0[j] == NativeV::Shared(Some(cell)),
        shares(env.schema, env.schema.shapes[p as int].ty->User_0->Struct_0.fields@[j].shape, p),
    ensures
        shared_model(env, sid, p, cell, field, base, table)->Ok_0.value == ValueV::Object(
            base as usize,
        ),
        ({
            let fields = env.schema.shapes[p as int].ty->User_0->Struct_0.fields@;
            let vals = env.memory[cell as int]->Struct_0;
            let entered = table.update(cell as int, Some(base as usize));
            let m = marshal_items(env, Kids::Fields(fields), vals, vals.len(), base + 1, entered);
            m is Ok && m->Ok_0.values.len() == vals.len() && m->Ok_0.values[j] == ValueV::Object(
                base as usize,
            )
        }),
{
    let fields = env.schema.shapes[p as int].ty->User_0->Struct_0.fields@;
    let vals = env.memory[cell as int]->Struct_0;
    let entered = table.update(cell as int, Some(base as usize));
    let kids = Kids::Fields(fields);
    let q = fields[j].shape;
    let object = create_model(env, p, env.memory[cell as int], field)->Ok_0;
    assert(populate_model(env, p, env.memory[cell as int], object.body, base + 1, entered) is Ok);
    assert(struct_model(env, p, fields, env.memory[cell as int], object.body, base + 1, entered)
        is Ok);
    let all = marshal_items(env, kids, vals, vals.len(), base + 1, entered);
    assert(all is Ok);
    lemma_items_prefix(env, kids, vals, j as nat, vals.len(), base + 1, entered);
    lemma_items_prefix(env, kids, vals, (j + 1) as nat, vals.len(), base + 1, entered);
    let before = marshal_items(env, kids, vals, j as nat, base + 1, entered)->Ok_0;
    lemma_items_extends(env, kids, vals, j as nat, base + 1, entered);
    assert(entered[cell as int] == Some(base as usize));
    assert(before.table[cell as int] == Some(base as usize));
    let at = base + 1 + before.objects.len();
    let back = marshal_model(env, q, vals[j], kids.owner(j), at, before.table);
    assert(back == smart_pointer_model(env, q, vals[j], kids.owner(j), at, before.table));
    assert(smart_pointer_model(env, q, vals[j], kids.owner(j), at, before.table) == shared_model(
        env,
        q,
        p,
        cell,
        kids.owner(j),
        at,
        before.table,
    ));
    assert(back->Ok_0.value == ValueV::Object(base as usize));
}

/// Whether the definition of a shape is that of a container.
pub open spec fn is_container(def: Def) -> bool {
    def is MapOf || def is SetOf || def is List || def is Array || def is Slice
}

/// Whether no shape of the schema is two things at once: a primitive type
/// has the definition of a scalar or none, and a container is neither a
/// plain pointer nor an enum without payload.
pub open spec fn consistent(schema: crate::marshal::shape::Schema) -> bool {
    forall|i: int|
        0 <= i < schema.shapes.len() ==> {
            &&& (#[trigger] schema.shapes[i]).ty is Primitive ==> schema.shapes[i].def is Scalar
                || schema.shapes[i].def is Undefined
            &&& is_container(schema.shapes[i].def) ==> !(schema.shapes[i].ty is Pointer)
                && !crate::marshal::model::is_unit_enum(schema, i as usize)
        }
}

/// Whether a value becomes an object is a matter of its shape alone, and
/// is the same for marshalling as for what asks beforehand: a value whose
/// shape says that it becomes an object marshals to an object, or to
/// `null` where an optional value or a pointee is absent; a value whose
/// shape says that it does not, never marshals to an object.
pub proof fn lemma_objects_by_shape(
    env: Env,
    sid: usize,
    v: NativeV,
    field: Option<OwnerV>,
    base: nat,
    table: Seq<Option<usize>>,
)
    requires
        consistent(env.schema),
        marshal_model(env, sid, v, field, base, table) is Ok,
    ensures
        ({
            let value = marshal_model(env, sid, v, field, base, table)->Ok_0.value;
            if marshals_as_object(env.schema, sid) {
                value is Object || value is Null
            } else {
                !(value is Object)
            }
        }),
    decreases
            vacant(table),
            crate::marshal::model::flag(env.schema, sid),
            crate::marshal::model::rank(env.schema, sid),
            v,
            3nat,
            0nat,
{
    let shape = env.schema.shapes[sid as int];
    if shape.spec_is_scalar() {
        assert(!marshals_as_object(env.schema, sid));
    } else {
        match shape.def {
            Def::Optional(t) => match v {
                NativeV::Optional(Some(x)) => {
                    lemma_objects_by_shape(env, t, *x, field, base, table);
                },
                _ => {},
            },
            Def::Pointer { known, pointee } => {
                lemma_pointer_objects_by_shape(env, sid, v, field, base, table);
            },
            _ => {},
        }
    }
}

/// A smart pointer marshals to an object where its shape says that its
/// values become objects, and to none where its shape says otherwise.
pub proof fn lemma_pointer_objects_by_shape(
    env: Env,
    sid: usize,
    v: NativeV,
    field: Option<OwnerV>,
    base: nat,
    table: Seq<Option<usize>>,
)
    requires
        consistent(env.schema),
        smart_pointer_model(env, sid, v, field, base, table) is Ok,
    ensures
        ({
            let value = smart_pointer_model(env, sid, v, field, base, table)->Ok_0.value;
            if marshals_as_object(env.schema, sid) {
                value is Object || value is Null
            } else {
                !(value is Object)
            }
        }),
    decreases
            vacant(table),
            crate::marshal::model::flag(env.schema, sid),
            crate::marshal::model::rank(env.schema, sid),
            v,
            2nat,
            0nat,
{
    match env.schema.shapes[sid as int].def {
        Def::Pointer { known, pointee } => {
            if pointee is None || v == NativeV::Owned(None) || v == NativeV::Shared(None) {
            } else {
                let p = pointee->Some_0;
                if is_shared(known) && marshals_as_object(env.schema, p) {
                    match v {
                        NativeV::Shared(Some(cell)) => {
                            lemma_shared_extends(env, sid, p, cell, field, base, table);
                        },
                        _ => {},
                    }
                } else {
                    match v {
                        NativeV::Owned(Some(x)) => {
                            lemma_objects_by_shape(env, p, *x, field, base, table);
                        },
                        NativeV::Shared(Some(cell)) => {
                            lemma_objects_by_shape(
                                env,
                                p,
                                env.memory[cell as int],
                                field,
                                base,
                                table,
                            );
                        },
                        _ => {},
                    }
                }
            }
        },
        _ => {},
    }
}

/// Whether no two of the fields have the same name.
pub open spec fn distinct_names(fields: Seq<Field>) -> bool {
    forall|i: int, j: int|
        0 <= i < j < fields.len() ==> (#[trigger] fields[i]).name@ != (#[trigger] fields[j]).name@
}

/// A key that no entry has is found at the end.
pub proof fn lemma_position_absent(entries: Seq<(KeyV, ValueV)>, key: KeyV, from: int)
    requires
        0 <= from <= entries.len(),
        forall|i: int| from <= i < entries.len() ==> (#[trigger] entries[i]).0 != key,
    ensures
        position(entries, key, from) == entries.len(),
    decreases entries.len() - from,
{
    if from < entries.len() {
        lemma_position_absent(entries, key, from + 1);
    }
}

/// The properties of a struct whose fields have names of their own are
/// its fields, one property for each, in declaration order: setting the
/// first `k` fields on an object without properties leaves exactly those
/// `k` properties, each under the name of its field and with its value.
pub proof fn lemma_fields_in_order(fields: Seq<Field>, values: Seq<ValueV>, k: nat)
    requires
        distinct_names(fields),
        k <= fields.len(),
        k <= values.len(),
    ensures
        set_fields(Seq::empty(), fields, values, k) == Seq::new(
            k,
            |i: int| (KeyV::Name(fields[i].name@), values[i]),
        ),
    decreases k,
{
    let want = Seq::new(k, |i: int| (KeyV::Name(fields[i].name@), values[i]));
    if k == 0 {
        assert(set_fields(Seq::empty(), fields, values, k) =~= want);
    } else {
        lemma_fields_in_order(fields, values, (k - 1) as nat);
        let before = set_fields(Seq::empty(), fields, values, (k - 1) as nat);
        let key = KeyV::Name(fields[k - 1].name@);
        assert forall|i: int| 0 <= i < before.len() implies (#[trigger] before[i]).0 != key by {
            assert(fields[i].name@ != fields[k - 1].name@);
        }
        lemma_position_absent(before, key, 0);
        assert(set_fields(Seq::empty(), fields, values, k) =~= want);
    }
}

/// A struct whose fields have names of their own marshals to an object
/// with exactly its fields as properties, in declaration order, each
/// with the value that the field became.
pub proof fn lemma_struct_properties(
    env: Env,
    sid: usize,
    fields: Seq<Field>,
    v: NativeV,
    base: nat,
    table: Seq<Option<usize>>,
)
    requires
        distinct_names(fields),
        struct_model(env, sid, fields, v, BodyV::Plain(Seq::empty()), base, table) is Ok,
    ensures
        ({
            let f = struct_model(env, sid, fields, v, BodyV::Plain(Seq::empty()), base, table)->Ok_0;
            let m = marshal_items(
                env,
                Kids::Fields(fields),
                v->Struct_0,
                fields.len(),
                base,
                table,
            )->Ok_0;
            &&& m.values.len() == fields.len()
            &&& f.body == BodyV::Plain(
                Seq::new(fields.len(), |i: int| (KeyV::Name(fields[i].name@), m.values[i])),
            )
        }),
{
    let vals = v->Struct_0;
    lemma_marshalled_fields_not_blocked(env, Kids::Fields(fields), vals, vals.len(), base, table);
    let m = marshal_items(env, Kids::Fields(fields), vals, vals.len(), base, table)->Ok_0;
    lemma_fields_in_order(fields, m.values, fields.len());
}

/// Whether the payload fields of a variant get keys of their own: names of
/// their own where the fields are named, and no more fields than there
/// are positions otherwise.
pub open spec fn distinct_keys(kind: StructKind, fields: Seq<Field>) -> bool {
    if kind == StructKind::Struct {
        distinct_names(fields)
    } else {
        fields.len() <= u32::MAX
    }
}

/// The properties of the object of an enum are its tag and then the
/// fields of its payload, one property for each, in declaration order:
/// setting the first `k` payload fields, whose keys are their own and not
/// the tag, behind the tag alone leaves exactly the tag and those `k`
/// properties.
pub proof fn lemma_payload_in_order(
    tag: (KeyV, ValueV),
    kind: StructKind,
    fields: Seq<Field>,
    values: Seq<ValueV>,
    k: nat,
)
    requires
        distinct_keys(kind, fields),
        k <= fields.len(),
        k <= values.len(),
        forall|i: int| 0 <= i < fields.len() ==> KeyV::Name((#[trigger] fields[i]).name@) != tag.0,
        tag.0 is Name,
    ensures
        set_payload(seq![tag], kind, fields, values, k) == seq![tag] + Seq::new(
            k,
            |i: int| (payload_key(kind, fields, i), values[i]),
        ),
    decreases k,
{
    let want = seq![tag] + Seq::new(k, |i: int| (payload_key(kind, fields, i), values[i]));
    if k == 0 {
        assert(set_payload(seq![tag], kind, fields, values, k) =~= want);
    } else {
        lemma_payload_in_order(tag, kind, fields, values, (k - 1) as nat);
        let before = set_payload(seq![tag], kind, fields, values, (k - 1) as nat);
        let key = payload_key(kind, fields, k - 1);
        assert forall|i: int| 0 <= i < before.len() implies (#[trigger] before[i]).0 != key by {
            if i == 0 {
                assert(KeyV::Name(fields[k - 1].name@) != tag.0);
            } else {
                assert(before[i].0 == payload_key(kind, fields, i - 1));
                if kind == StructKind::Struct {
                    assert(fields[i - 1].name@ != fields[k - 1].name@);
                } else {
                    assert((i - 1) as u32 != (k - 1) as u32);
                }
            }
        }
        lemma_position_absent(before, key, 0);
        assert(set_payload(seq![tag], kind, fields, values, k) =~= want);
    }
}

/// An enum with a payload marshals to an object with exactly its tag and
/// the fields of the active variant as properties: the tag first, under
/// the name that the enum declares, then the fields in declaration order,
/// under their names where the variant has named fields and under their
/// positions otherwise.
pub proof fn lemma_enum_properties(
    env: Env,
    sid: usize,
    e: EnumType,
    v: NativeV,
    base: nat,
    table: Seq<Option<usize>>,
)
    requires
        enum_model(env, sid, e, v, BodyV::Plain(Seq::empty()), base, table) is Ok,
        distinct_keys(
            e.variants[v->Enum_variant as int].data.kind,
            e.variants[v->Enum_variant as int].data.fields@,
        ),
    ensures
        ({
            let f = enum_model(env, sid, e, v, BodyV::Plain(Seq::empty()), base, table)->Ok_0;
            let b = behavior(env.schema, sid)->Ok_0;
            let chosen = e.variants[v->Enum_variant as int];
            let fields = chosen.data.fields@;
            let m = marshal_items(
                env,
                Kids::Payload { fields, tag: b.js_enum_tag, shape: sid },
                v->Enum_fields,
                fields.len(),
                base,
                table,
            )->Ok_0;
            &&& m.values.len() == fields.len()
            &&& f.body == BodyV::Plain(
                seq![(KeyV::Name(b.js_enum_tag), tag_value(b.js_enum_repr, chosen))] + Seq::new(
                    fields.len(),
                    |i: int| (payload_key(chosen.data.kind, fields, i), m.values[i]),
                ),
            )
        }),
{
    let b = behavior(env.schema, sid)->Ok_0;
    let chosen = e.variants[v->Enum_variant as int];
    let fields = chosen.data.fields@;
    let vals = v->Enum_fields;
    let kids = Kids::Payload { fields, tag: b.js_enum_tag, shape: sid };
    lemma_marshalled_fields_not_blocked(env, kids, vals, vals.len(), base, table);
    let m = marshal_items(env, kids, vals, vals.len(), base, table)->Ok_0;
    let tag = (KeyV::Name(b.js_enum_tag), tag_value(b.js_enum_repr, chosen));
    assert(with_property(Seq::<(KeyV, ValueV)>::empty(), tag.0, tag.1) =~= seq![tag]);
    assert forall|i: int| 0 <= i < fields.len() implies KeyV::Name((#[trigger] fields[i]).name@)
        != tag.0 by {
        assert(kids.blocked(i) is None);
    }
    lemma_payload_in_order(tag, chosen.data.kind, fields, m.values, fields.len());
}

/// Whether the shape `q` is that of a shared pointer to values of the
/// shape `p`, which become objects.
pub open spec fn shares(schema: crate::marshal::shape::Schema, q: usize, p: usize) -> bool {
    &&& q < schema.shapes.len()
    &&& !schema.shapes[q as int].spec_is_scalar()
    &&& schema.shapes[q as int].def is Pointer
    &&& is_shared(schema.shapes[q as int].def->Pointer_known)
    &&& !crate::marshal::model::is_weak(schema.shapes[q as int].def->Pointer_known)
    &&& schema.shapes[q as int].def->Pointer_pointee == Some(p)
    &&& p < q
    &&& marshals_as_object(schema, p)
}

/// Where the first `n` values marshal, the value at position `i` marshals
/// with a table that holds all that the table held at first, and leaves a
/// table that the values behind it keep.
pub proof fn lemma_items_tables(
    env: Env,
    kids: Kids,
    vals: Seq<NativeV>,
    i: int,
    n: nat,
    base: nat,
    table: Seq<Option<usize>>,
)
    requires
        0 <= i <= n <= vals.len(),
        marshal_items(env, kids, vals, n, base, table) is Ok,
    ensures
        marshal_items(env, kids, vals, i as nat, base, table) is Ok,
        extends(table, marshal_items(env, kids, vals, i as nat, base, table)->Ok_0.table),
        extends(
            marshal_items(env, kids, vals, i as nat, base, table)->Ok_0.table,
            marshal_items(env, kids, vals, n, base, table)->Ok_0.table,
        ),
    decreases n - i,
{
    lemma_items_prefix(env, kids, vals, i as nat, n, base, table);
    lemma_items_extends(env, kids, vals, i as nat, base, table);
    if i < n {
        lemma_items_tables(env, kids, vals, i + 1, n, base, table);
        let before = marshal_items(env, kids, vals, i as nat, base, table)->Ok_0;
        lemma_items_prefix(env, kids, vals, (i + 1) as nat, n, base, table);
        lemma_marshal_extends(
            env,
            kids.shape_of(i),
            vals[i],
            kids.owner(i),
            base + before.objects.len(),
            before.table,
        );
        lemma_extends_twice(
            before.table,
            marshal_items(env, kids, vals, (i + 1) as nat, base, table)->Ok_0.table,
            marshal_items(env, kids, vals, n, base, table)->Ok_0.table,
        );
    } else {
        let t = marshal_items(env, kids, vals, n, base, table)->Ok_0.table;
        assert(extends(t, t));
    }
}

/// Two fields that are shared pointers to the same cell become the same
/// object: where the values of a struct, a tuple or a variant marshal, and
/// the values at the positions `i` and `j` are shared pointers to one
/// cell, whose pointee becomes an object, what the two values become is
/// one and the same object.
pub proof fn lemma_shared_fields_identical(
    env: Env,
    kids: Kids,
    vals: Seq<NativeV>,
    base: nat,
    table: Seq<Option<usize>>,
    p: usize,
    cell: usize,
    i: int,
    j: int,
)
    requires
        0 <= i < j < vals.len(),
        marshal_items(env, kids, vals, vals.len(), base, table) is Ok,
        vals[i] == NativeV::Shared(Some(cell)),
        vals[j] == NativeV::Shared(Some(cell)),
        shares(env.schema, kids.shape_of(i), p),
        shares(env.schema, kids.shape_of(j), p),
    ensures
        marshal_items(env, kids, vals, vals.len(), base, table)->Ok_0.values.len() == vals.len(),
        marshal_items(env, kids, vals, vals.len(), base, table)->Ok_0.values[i] is Object,
        marshal_items(env, kids, vals, vals.len(), base, table)->Ok_0.values[i] == marshal_items(
            env,
            kids,
            vals,
            vals.len(),
            base,
            table,
        )->Ok_0.values[j],
{
    let n = vals.len();
    let all = marshal_items(env, kids, vals, n, base, table)->Ok_0;
    lemma_items_prefix(env, kids, vals, (i + 1) as nat, n, base, table);
    lemma_items_prefix(env, kids, vals, (j + 1) as nat, n, base, table);
    lemma_items_prefix(env, kids, vals, i as nat, n, base, table);
    lemma_items_prefix(env, kids, vals, j as nat, n, base, table);
    let bi = marshal_items(env, kids, vals, i as nat, base, table)->Ok_0;
    let ai = marshal_items(env, kids, vals, (i + 1) as nat, base, table)->Ok_0;
    let bj = marshal_items(env, kids, vals, j as nat, base, table)->Ok_0;
    let qi = kids.shape_of(i);
    let qj = kids.shape_of(j);
    // The first pointer.
    let first = marshal_model(env, qi, vals[i], kids.owner(i), base + bi.objects.len(), bi.table);
    assert(first == smart_pointer_model(
        env,
        qi,
        vals[i],
        kids.owner(i),
        base + bi.objects.len(),
        bi.table,
    ));
    assert(first == shared_model(
        env,
        qi,
        p,
        cell,
        kids.owner(i),
        base + bi.objects.len(),
        bi.table,
    ));
    assert(ai.table == first->Ok_0.table);
    lemma_shared_extends(env, qi, p, cell, kids.owner(i), base + bi.objects.len(), bi.table);
    // The table keeps it until the second pointer is met.
    lemma_items_tables(env, kids, vals, i + 1, j as nat, base, table);
    // The second pointer.
    let second = marshal_model(env, qj, vals[j], kids.owner(j), base + bj.objects.len(), bj.table);
    assert(second == smart_pointer_model(
        env,
        qj,
        vals[j],
        kids.owner(j),
        base + bj.objects.len(),
        bj.table,
    ));
    assert(second == shared_model(
        env,
        qj,
        p,
        cell,
        kids.owner(j),
        base + bj.objects.len(),
        bj.table,
    ));
    lemma_identity_preserved(
        env,
        qi,
        p,
        cell,
        kids.owner(i),
        base + bi.objects.len(),
        bi.table,
        qj,
        kids.owner(j),
        base + bj.objects.len(),
        bj.table,
    );
}

/// A structure that holds a shared pointer to itself marshals to an
/// object whose property for that pointer is the object itself: where a
/// shared pointer to the cell `cell`, which has no object yet, is
/// marshalled, and the cell holds a struct, with fields of names of their
/// own, whose field at position `j` is a shared pointer to the same cell,
/// the pointer becomes the object with the handle `base`, the first that
/// is added, and the property at position `j` of that object has the
/// name of the field and is that same object.
pub proof fn lemma_cycle_property(
    env: Env,
    sid: usize,
    p: usize,
    cell: usize,
    field: Option<OwnerV>,
    base: nat,
    table: Seq<Option<usize>>,
    j: int,
)
    requires
        shared_model(env, sid, p, cell, field, base, table) is Ok,
        table[cell as int] is None,
        env.schema.shapes[p as int].def is Undefined,
        env.schema.shapes[p as int].ty is User,
        env.schema.shapes[p as int].ty->User_0 is Struct,
        env.schema.shapes[p as int].ty->User_0->Struct_0.kind != StructKind::Tuple,
        distinct_names(env.schema.shapes[p as int].ty->User_0->Struct_0.fields@),
        env.memory[cell as int] is Struct,
        0 <= j < env.memory[cell as int]->Struct_0.len(),
        env.memory[cell as int]->Struct_0[j] == NativeV::Shared(Some(cell)),
        shares(env.schema, env.schema.shapes[p as int].ty->User_0->Struct_0.fields@[j].shape, p),
    ensures
        ({
            let o = shared_model(env, sid, p, cell, field, base, table)->Ok_0;
            let fields = env.schema.shapes[p as int].ty->User_0->Struct_0.fields@;
            &&& o.value == ValueV::Object(base as usize)
            &&& o.objects.len() >= 1
            &&& o.objects[0].body is Plain
            &&& o.objects[0].body->Plain_0.len() == fields.len()
            &&& o.objects[0].body->Plain_0[j] == (
                KeyV::Name(fields[j].name@),
                ValueV::Object(base as usize),
            )
        }),
{
    let fields = env.schema.shapes[p as int].ty->User_0->Struct_0.fields@;
    let v = env.memory[cell as int];
    let entered = table.update(cell as int, Some(base as usize));
    let object = create_model(env, p, v, field)->Ok_0;
    assert(object.body == BodyV::Plain(Seq::empty()));
    assert(populate_model(env, p, v, object.body, base + 1, entered) == struct_model(
        env,
        p,
        fields,
        v,
        object.body,
        base + 1,
        entered,
    ));
    lemma_cycle_points_back(env, sid, p, cell, field, base, table, j);
    lemma_struct_properties(env, p, fields, v, base + 1, entered);
}

/// No entry before the position of a key has the key, and the entry at
/// that position has it, where there is one.
pub proof fn lemma_position_first(entries: Seq<(KeyV, ValueV)>, key: KeyV, from: int)
    requires
        0 <= from <= entries.len(),
    ensures
        from <= position(entries, key, from) <= entries.len(),
        position(entries, key, from) < entries.len() ==> entries[position(
            entries,
            key,
            from,
        )].0 == key,
        forall|i: int| from <= i < position(entries, key, from) ==> (#[trigger] entries[i]).0 != key,
    decreases entries.len() - from,
{
    if from < entries.len() && entries[from].0 != key {
        lemma_position_first(entries, key, from + 1);
    }
}

/// The first entry that has a key is where the key is found.
pub proof fn lemma_position_is(entries: Seq<(KeyV, ValueV)>, key: KeyV, from: int, p: int)
    requires
        0 <= from <= p < entries.len(),
        entries[p].0 == key,
        forall|i: int| from <= i < p ==> (#[trigger] entries[i]).0 != key,
    ensures
        position(entries, key, from) == p,
    decreases p - from,
{
    if from < p {
        lemma_position_is(entries, key, from + 1, p);
    }
}

/// A property that was set is there: after a property is set, the key is
/// found among the properties, with the value that was set.
pub proof fn lemma_property_is_set(entries: Seq<(KeyV, ValueV)>, key: KeyV, value: ValueV)
    ensures
        position(with_property(entries, key, value), key, 0) < with_property(
            entries,
            key,
            value,
        ).len(),
        with_property(entries, key, value)[position(with_property(entries, key, value), key, 0)]
            == (key, value),
{
    let p = position(entries, key, 0);
    let after = with_property(entries, key, value);
    lemma_position_first(entries, key, 0);
    if p < entries.len() {
        lemma_position_is(after, key, 0, p);
    } else {
        lemma_position_is(after, key, 0, entries.len() as int);
    }
}

/// Where the filling of the object of an enum fails after the tag is set,
/// as it does where a payload field is named like the tag, the object
/// still holds the tag: the name that the enum declares is found among
/// its properties, with the tag of the active variant as its value.
/// Nothing was written over it.
pub proof fn lemma_failure_keeps_tag(
    schema: crate::marshal::shape::Schema,
    sid: usize,
    e: EnumType,
    v: NativeV,
    body: BodyV,
)
    requires
        crate::marshal::model::enum_started(schema, sid, e, v, body) is Some,
    ensures
        ({
            let started = crate::marshal::model::enum_started(schema, sid, e, v, body)->Some_0;
            let b = behavior(schema, sid)->Ok_0;
            let p = position(started->Plain_0, KeyV::Name(b.js_enum_tag), 0);
            &&& started is Plain
            &&& p < started->Plain_0.len()
            &&& started->Plain_0[p] == (
                KeyV::Name(b.js_enum_tag),
                tag_value(b.js_enum_repr, e.variants[v->Enum_variant as int]),
            )
        }),
{
    let b = behavior(schema, sid)->Ok_0;
    lemma_property_is_set(
        body->Plain_0,
        KeyV::Name(b.js_enum_tag),
        tag_value(b.js_enum_repr, e.variants[v->Enum_variant as int]),
    );
}

} // verus!
