//! Sequences, tuples and typed arrays.

use crate::marshal::error::{Error, Operation};
use crate::marshal::heap::{with_body, Body, Heap, Object, ObjectV, Origin};
use crate::marshal::model::{
    bits_scalar, bits_value, buffer_values, create_array_model, holes, items_bits, list_model,
    marshal_items, scalar_bits, set_elements, tuple_model, vacant, zeros,
};
use crate::marshal::native::{
    natives_view, Buffer, BufferV, ElemKind, Memory, Native, NativeV, Scalar,
};
use crate::marshal::shape::{Field, Schema};
use crate::marshal::reading::{
    list_from_model, tuple_from_model, typed_from_model, unmarshal_items, unmarshal_positions,
    unset_slots, with_defaults,
};
use crate::marshal::scalar::type_repr;
use crate::marshal::value::{values_view, Number, Value, ValueV};
use crate::marshal::{same_result, unmarshal_value};
use crate::marshal::{
    env_of, field_is_typed, marshal_fields, populated, KidShapes, MarshalState, Peek,
};
use vstd::prelude::*;

verus! {

/// An array of `len` places that hold nothing yet.
pub fn array_of_holes(len: usize) -> (r: Vec<Value>)
    ensures
        values_view(r@) == holes(len as nat),
{
    let mut items: Vec<Value> = Vec::new();
    let mut i: usize = 0;
    while i < len
        invariant
            i <= len,
            values_view(items@) =~= holes(i as nat),
        decreases len - i,
    {
        let ghost prev = items@;
        items.push(Value::Undefined);
        assert(values_view(items@) =~= values_view(prev).push(ValueV::Undefined));
        i += 1;
    }
    items
}

/// The bits of `len` elements that are zero.
fn zeroed(len: usize) -> (r: Vec<u64>)
    ensures
        r@ == zeros(len as nat),
{
    let mut bits: Vec<u64> = Vec::new();
    let mut i: usize = 0;
    while i < len
        invariant
            i <= len,
            bits@ =~= zeros(i as nat),
        decreases len - i,
    {
        bits.push(0);
        i += 1;
    }
    bits
}

/// Makes the array for a sequence of `len` elements of the shape `t` and
/// returns its handle: a typed array where the field asks for one, a
/// plain array otherwise.
pub fn create_array_for_shape(
    heap: &mut Heap,
    schema: &Schema,
    len: usize,
    t: usize,
    field: Option<&Field>,
) -> (r: Result<usize, Error>)
    ensures
        match create_array_model(
            *schema,
            len as nat,
            t,
            crate::marshal::model::asks_typed(crate::marshal::shape::field_view(field)),
        ) {
            Ok(o) => r is Ok && r->Ok_0 == old(heap)@.len() && final(heap)@ == old(heap)@.push(o),
            Err(e) => r == Err::<usize, Error>(e) && final(heap)@ == old(heap)@,
        },
{
    if field_is_typed(field) {
        return create_arraybuffer_for_shape(heap, schema, len, t);
    }
    let object = Object { origin: Origin::Runtime, body: Body::Array(array_of_holes(len)) };
    Ok(heap.create(object))
}

/// Makes the typed array for `len` elements of the shape `t` and returns
/// its handle. Fails where the elements have no fixed width.
pub fn create_arraybuffer_for_shape(heap: &mut Heap, schema: &Schema, len: usize, t: usize) -> (r:
    Result<usize, Error>)
    ensures
        match create_array_model(*schema, len as nat, t, true) {
            Ok(o) => r is Ok && r->Ok_0 == old(heap)@.len() && final(heap)@ == old(heap)@.push(o),
            Err(e) => r == Err::<usize, Error>(e) && final(heap)@ == old(heap)@,
        },
{
    if t >= schema.shapes.len() {
        return Err(Error::failed(t, Operation::UnsupportedElement));
    }
    let kind = match schema.shapes[t].scalar {
        Some(st) => match st.elem_kind() {
            Some(kind) => kind,
            None => {
                return Err(Error::failed(t, Operation::UnsupportedElement));
            },
        },
        None => {
            return Err(Error::failed(t, Operation::UnsupportedElement));
        },
    };
    let object = Object {
        origin: Origin::Runtime,
        body: Body::Typed(Buffer { kind, bits: zeroed(len) }),
    };
    Ok(heap.create(object))
}

/// The bit pattern of a scalar as an element of the kind `kind`, or
/// `None` where the scalar is of another type.
pub fn scalar_to_bits(kind: ElemKind, s: &Scalar) -> (r: Option<u64>)
    ensures
        r == scalar_bits(kind, s@),
{
    match (kind, s) {
        (ElemKind::U8, Scalar::U8(x)) => Some(*x as u64),
        (ElemKind::U16, Scalar::U16(x)) => Some(*x as u64),
        (ElemKind::U32, Scalar::U32(x)) => Some(*x as u64),
        (ElemKind::I8, Scalar::I8(x)) => Some(
            if *x < 0 {
                (*x as i64 + 0x100) as u64
            } else {
                *x as u64
            },
        ),
        (ElemKind::I16, Scalar::I16(x)) => Some(
            if *x < 0 {
                (*x as i64 + 0x1_0000) as u64
            } else {
                *x as u64
            },
        ),
        (ElemKind::I32, Scalar::I32(x)) => Some(
            if *x < 0 {
                (*x as i64 + 0x1_0000_0000) as u64
            } else {
                *x as u64
            },
        ),
        (ElemKind::F32, Scalar::Float(Number::Single(b))) => Some(*b as u64),
        (ElemKind::F64, Scalar::Float(Number::Double(b))) => Some(*b),
        _ => None,
    }
}

/// The scalar that an element of the kind `kind` with the bit pattern
/// `bits` is.
pub fn bits_to_scalar(kind: ElemKind, bits: u64) -> (r: Scalar)
    ensures
        r@ == bits_scalar(kind, bits),
{
    match kind {
        ElemKind::U8 => Scalar::U8((bits % 0x100) as u8),
        ElemKind::U16 => Scalar::U16((bits % 0x1_0000) as u16),
        ElemKind::U32 => Scalar::U32((bits % 0x1_0000_0000) as u32),
        ElemKind::I8 => {
            let low = (bits % 0x100) as i64;
            Scalar::I8(
                (if low >= 0x80 {
                    low - 0x100
                } else {
                    low
                }) as i8,
            )
        },
        ElemKind::I16 => {
            let low = (bits % 0x1_0000) as i64;
            Scalar::I16(
                (if low >= 0x8000 {
                    low - 0x1_0000
                } else {
                    low
                }) as i16,
            )
        },
        ElemKind::I32 => {
            let low = (bits % 0x1_0000_0000) as i64;
            Scalar::I32(
                (if low >= 0x8000_0000 {
                    low - 0x1_0000_0000
                } else {
                    low
                }) as i32,
            )
        },
        ElemKind::F32 => Scalar::Float(Number::Single((bits % 0x1_0000_0000) as u32)),
        ElemKind::F64 => Scalar::Float(Number::Double(bits)),
    }
}

/// The value of the runtime that an element of a contiguous sequence
/// becomes where the sequence is written to a plain array.
pub fn element_value(kind: ElemKind, bits: u64) -> (r: Value)
    ensures
        r@ == bits_value(kind, bits),
{
    match bits_to_scalar(kind, bits) {
        Scalar::U8(x) => Value::Number(Number::Integer(x as i64)),
        Scalar::U16(x) => Value::Number(Number::Integer(x as i64)),
        Scalar::U32(x) => Value::Number(Number::Integer(x as i64)),
        Scalar::I8(x) => Value::Number(Number::Integer(x as i64)),
        Scalar::I16(x) => Value::Number(Number::Integer(x as i64)),
        Scalar::I32(x) => Value::Number(Number::Integer(x as i64)),
        Scalar::Float(n) => Value::Number(n),
        _ => Value::Undefined,
    }
}

/// The values of the runtime that the elements of a contiguous sequence
/// become.
pub fn buffer_to_values(b: &Buffer) -> (r: Vec<Value>)
    ensures
        values_view(r@) == buffer_values(b@),
{
    let mut out: Vec<Value> = Vec::new();
    let mut i: usize = 0;
    while i < b.bits.len()
        invariant
            i <= b.bits.len(),
            values_view(out@) =~= buffer_values(b@).take(i as int),
        decreases b.bits.len() - i,
    {
        let ghost prev = out@;
        out.push(element_value(b.kind, b.bits[i]));
        assert(values_view(out@) =~= values_view(prev).push(bits_value(b.kind, b.bits@[i as int])));
        i += 1;
    }
    assert(buffer_values(b@).take(i as int) =~= buffer_values(b@));
    out
}

/// Copies a contiguous sequence into a typed array as a whole. `None`
/// where the two differ in element type or in length.
pub fn set_data_slice(target: &Buffer, data: &Buffer) -> (r: Option<Buffer>)
    ensures
        match r {
            Some(b) => data.kind == target.kind && data.bits@.len() == target.bits@.len() && b@
                == data@,
            None => !(data.kind == target.kind && data.bits@.len() == target.bits@.len()),
        },
{
    if data.kind == target.kind && data.bits.len() == target.bits.len() {
        Some(data.duplicate())
    } else {
        None
    }
}

/// Once the first values are no elements of the kind, neither are more of
/// them.
pub proof fn lemma_items_bits_stays_none(kind: ElemKind, items: Seq<NativeV>, k: nat, n: nat)
    requires
        1 <= k <= n <= items.len(),
        items_bits(kind, items, k) is None,
    ensures
        items_bits(kind, items, n) is None,
    decreases n - k,
{
    if k < n {
        lemma_items_bits_stays_none(kind, items, k, (n - 1) as nat);
    }
}

/// The bit patterns of as many elements as were read.
pub proof fn lemma_items_bits_len(kind: ElemKind, items: Seq<NativeV>, k: nat)
    requires
        k <= items.len(),
        items_bits(kind, items, k) is Some,
    ensures
        items_bits(kind, items, k)->Some_0.len() == k,
    decreases k,
{
    if k > 0 {
        lemma_items_bits_len(kind, items, (k - 1) as nat);
    }
}

/// Writes values one by one into a typed array, from its start. `None`
/// where a value is no scalar of the element type, or where there are
/// more values than the array holds. What lies behind the values stays.
pub fn set_data_iter(target: &Buffer, items: &Vec<Native>) -> (r: Option<Buffer>)
    ensures
        match items_bits(target.kind, natives_view(items@), items@.len()) {
            Some(bits) => if bits.len() <= target.bits@.len() {
                r is Some && r->Some_0@ == (BufferV {
                    kind: target.kind,
                    bits: bits + target.bits@.skip(bits.len() as int),
                })
            } else {
                r is None
            },
            None => r is None,
        },
{
    let ghost views = natives_view(items@);
    let mut bits: Vec<u64> = Vec::new();
    let mut i: usize = 0;
    while i < items.len()
        invariant
            i <= items.len(),
            views == natives_view(items@),
            items_bits(target.kind, views, i as nat) == Some(bits@),
            bits@.len() == i,
        decreases items.len() - i,
    {
        assert(views[i as int] == items@[i as int]@);
        let b = match &items[i] {
            Native::Scalar(s) => scalar_to_bits(target.kind, s),
            _ => None,
        };
        match b {
            Some(b) => {
                bits.push(b);
            },
            None => {
                proof {
                    lemma_items_bits_stays_none(
                        target.kind,
                        views,
                        (i + 1) as nat,
                        items@.len(),
                    );
                }
                return None;
            },
        }
        i += 1;
    }
    if bits.len() > target.bits.len() {
        return None;
    }
    let ghost head = bits@;
    let mut j: usize = bits.len();
    while j < target.bits.len()
        invariant
            head.len() <= j <= target.bits.len(),
            bits@ =~= head + target.bits@.subrange(head.len() as int, j as int),
        decreases target.bits.len() - j,
    {
        bits.push(target.bits[j]);
        j += 1;
    }
    assert(bits@ =~= head + target.bits@.skip(head.len() as int));
    Some(Buffer { kind: target.kind, bits })
}

/// Sets the elements of the object `array` to `values`, each at its
/// position. The object is an array or has properties, and a 32-bit
/// number names each position.
pub(crate) fn store_elements(heap: &mut Heap, array: usize, values: &Vec<Value>)
    requires
        values@.len() <= u32::MAX,
        array < old(heap)@.len(),
        old(heap)@[array as int].body is Array || old(heap)@[array as int].body is Plain,
    ensures
        final(heap)@ == with_body(
            old(heap)@,
            array as int,
            set_elements(
                old(heap)@[array as int].body,
                values_view(values@),
                values@.len(),
            ),
        ),
{
    let ghost heap0 = heap@;
    let ghost body0 = heap0[array as int].body;
    let ghost vv = values_view(values@);
    let mut i: usize = 0;
    assert(heap@ =~= with_body(heap0, array as int, body0));
    while i < values.len()
        invariant
            i <= values.len(),
            array < heap0.len(),
            body0 == heap0[array as int].body,
            vv == values_view(values@),
            body0 is Array || body0 is Plain,
            set_elements(body0, vv, i as nat) is Array || set_elements(body0, vv, i as nat) is Plain,
            heap@ == with_body(heap0, array as int, set_elements(body0, vv, i as nat)),
        decreases values.len() - i,
    {
        let _ = heap.set_index(array, i as u32, values[i].duplicate());
        assert(vv[i as int] == values@[i as int]@);
        assert(heap@ =~= with_body(heap0, array as int, set_elements(body0, vv, (i + 1) as nat)));
        i += 1;
    }
}

/// Marshals each of the values `vals` and sets it at its position in the
/// object `array`, which is an array or has properties. A 32-bit number
/// names each position.
pub(crate) fn marshal_array_object(
    schema: &Schema,
    memory: &Memory,
    kids: &KidShapes<'_>,
    vals: &Vec<Native>,
    heap: &mut Heap,
    array: usize,
    state: &mut MarshalState<'_>,
) -> (r: Result<(), Error>)
    requires
        kids@.covers(vals.len() as nat),
        vals@.len() <= u32::MAX,
        array < old(heap)@.len(),
        old(heap)@[array as int].body is Array || old(heap)@[array as int].body is Plain,
    ensures
        final(state).constructors == old(state).constructors,
        match marshal_items(
            env_of(schema, memory, old(state)),
            kids@,
            natives_view(vals@),
            vals.len() as nat,
            old(heap)@.len(),
            old(state).pointers@,
        ) {
            Ok(m) => r is Ok && final(heap)@ == with_body(
                old(heap)@,
                array as int,
                set_elements(old(heap)@[array as int].body, m.values, m.values.len()),
            ) + m.objects && final(state).pointers@ == m.table && vacant(m.table) <= vacant(
                old(state).pointers@,
            ),
            Err(e) => r is Err && r->Err_0 == e && crate::marshal::kept(old(heap)@, final(heap)@),
        },
    decreases vacant(old(state).pointers@), 1nat, 0nat, vals, 0nat, 1nat,
{
    let values = match marshal_fields(schema, memory, kids, vals, heap, state) {
        Ok(values) => values,
        Err(e) => {
            return Err(e);
        },
    };
    store_elements(heap, array, &values);
    proof {
        let m = marshal_items(
            env_of(schema, memory, old(state)),
            kids@,
            natives_view(vals@),
            vals.len() as nat,
            old(heap)@.len(),
            old(state).pointers@,
        )->Ok_0;
        assert(heap@ =~= with_body(
            old(heap)@,
            array as int,
            set_elements(old(heap)@[array as int].body, m.values, m.values.len()),
        ) + m.objects);
    }
    Ok(())
}

/// Fills the container of a sequence. A plain array takes each element,
/// marshalled, at its position, and fails where there are more elements
/// than positions that a 32-bit number names. A typed array takes the
/// elements as bit patterns: a contiguous sequence of its element type as
/// a whole, any other sequence value by value.
pub fn marshal_list_object(
    peek: Peek<'_>,
    t: usize,
    heap: &mut Heap,
    object: usize,
    state: &mut MarshalState<'_>,
) -> (r: Result<(), Error>)
    ensures
        final(state).constructors == old(state).constructors,
        object >= old(heap)@.len() ==> r == Err::<(), Error>(Error::Exception) && final(heap)@
            == old(heap)@,
        object < old(heap)@.len() ==> populated(
            list_model(
                env_of(peek.schema, peek.memory, old(state)),
                peek.shape,
                t,
                peek.value@,
                old(heap)@[object as int].body,
                old(heap)@.len(),
                old(state).pointers@,
            ),
            r,
            object,
            old(heap)@,
            final(heap)@,
            old(state).pointers@,
            final(state).pointers@,
        ),
    decreases vacant(old(state).pointers@), 1nat, 0nat, peek.value, 1nat, 0nat,
{
    if object >= heap.len() {
        return Err(Error::Exception);
    }
    let sid = peek.shape;
    match &heap.objects[object].body {
        Body::Array(_) => {
            // A plain array: each element is marshalled on its own.
            match peek.value {
                Native::List(items) => {
                    assert(peek.value@->List_0 =~= natives_view(items@));
                    if items.len() > 0xffff_ffff {
                        return Err(Error::failed(sid, Operation::CountRange));
                    }
                    let kids = KidShapes::Uniform(t);
                    marshal_array_object(
                        peek.schema,
                        peek.memory,
                        &kids,
                        items,
                        heap,
                        object,
                        state,
                    )
                },
                Native::Contiguous(b) => {
                    if b.bits.len() > 0xffff_ffff {
                        return Err(Error::failed(sid, Operation::CountRange));
                    }
                    let values = buffer_to_values(b);
                    store_elements(heap, object, &values);
                    assert(heap@ =~= heap@ + Seq::<ObjectV>::empty());
                    Ok(())
                },
                _ => Err(Error::was_not_a(sid)),
            }
        },
        Body::Typed(target) => {
            // A typed array: the elements are written as they lie.
            let written = match peek.value {
                Native::Contiguous(b) => match set_data_slice(target, b) {
                    Some(w) => w,
                    None => {
                        return Err(Error::failed(sid, Operation::BufferMismatch));
                    },
                },
                Native::List(items) => {
                    assert(peek.value@->List_0 =~= natives_view(items@));
                    match set_data_iter(target, items) {
                        Some(w) => w,
                        None => {
                            return Err(Error::failed(sid, Operation::BufferMismatch));
                        },
                    }
                },
                _ => {
                    return Err(Error::was_not_a(sid));
                },
            };
            let _ = heap.replace_body(object, Body::Typed(written));
            assert(heap@ =~= heap@ + Seq::<ObjectV>::empty());
            Ok(())
        },
        _ => Err(Error::failed(sid, Operation::ContainerMismatch)),
    }
}

/// Fills the container of a tuple: each field is marshalled and set at
/// its position, in declaration order. It fails where there are more
/// fields than positions that a 32-bit number names.
pub fn marshal_tuple_object(
    peek: Peek<'_>,
    fields: &Vec<Field>,
    heap: &mut Heap,
    object: usize,
    state: &mut MarshalState<'_>,
) -> (r: Result<(), Error>)
    ensures
        final(state).constructors == old(state).constructors,
        object >= old(heap)@.len() ==> r == Err::<(), Error>(Error::Exception) && final(heap)@
            == old(heap)@,
        object < old(heap)@.len() ==> populated(
            tuple_model(
                env_of(peek.schema, peek.memory, old(state)),
                peek.shape,
                fields@,
                peek.value@,
                old(heap)@[object as int].body,
                old(heap)@.len(),
                old(state).pointers@,
            ),
            r,
            object,
            old(heap)@,
            final(heap)@,
            old(state).pointers@,
            final(state).pointers@,
        ),
    decreases vacant(old(state).pointers@), 1nat, 0nat, peek.value, 1nat, 0nat,
{
    if object >= heap.len() {
        return Err(Error::Exception);
    }
    let sid = peek.shape;
    let vals = match peek.value {
        Native::Struct(vals) => vals,
        _ => {
            return Err(Error::was_not_a(sid));
        },
    };
    assert(peek.value@->Struct_0 =~= natives_view(vals@));
    if vals.len() != fields.len() {
        return Err(Error::was_not_a(sid));
    }
    match &heap.objects[object].body {
        Body::Array(_) | Body::Plain(_) => {},
        _ => {
            return Err(Error::failed(sid, Operation::ContainerMismatch));
        },
    }
    if vals.len() > 0xffff_ffff {
        return Err(Error::failed(sid, Operation::CountRange));
    }
    let kids = KidShapes::Fields(fields);
    marshal_array_object(peek.schema, peek.memory, &kids, vals, heap, object, state)
}

/// Once the first values fail to be read, reading more of them fails in
/// the same way.
pub proof fn lemma_read_items_failure_stays(
    schema: Schema,
    t: usize,
    heap: Seq<ObjectV>,
    items: Seq<ValueV>,
    k: nat,
    n: nat,
    depth: nat,
)
    requires
        1 <= k <= n <= items.len(),
        depth < heap.len(),
        unmarshal_items(schema, t, heap, items, k, depth) is Err,
    ensures
        unmarshal_items(schema, t, heap, items, n, depth) == unmarshal_items(
            schema,
            t,
            heap,
            items,
            k,
            depth,
        ),
    decreases n - k,
{
    if k < n {
        lemma_read_items_failure_stays(schema, t, heap, items, k, (n - 1) as nat, depth);
    }
}

/// Once the first values fail to be read, reading more of them fails in
/// the same way.
pub proof fn lemma_read_positions_failure_stays(
    schema: Schema,
    fields: Seq<Field>,
    heap: Seq<ObjectV>,
    items: Seq<ValueV>,
    k: nat,
    n: nat,
    depth: nat,
)
    requires
        1 <= k <= n <= items.len(),
        n <= fields.len(),
        depth < heap.len(),
        unmarshal_positions(schema, fields, heap, items, k, depth) is Err,
    ensures
        unmarshal_positions(schema, fields, heap, items, n, depth) == unmarshal_positions(
            schema,
            fields,
            heap,
            items,
            k,
            depth,
        ),
    decreases n - k,
{
    if k < n {
        lemma_read_positions_failure_stays(schema, fields, heap, items, k, (n - 1) as nat, depth);
    }
}

/// Reads each of the values `items`, which lie one level below `depth`,
/// as a native value of the shape `t`.
pub(crate) fn unmarshal_array_object(
    schema: &Schema,
    t: usize,
    heap: &Heap,
    items: &Vec<Value>,
    depth: usize,
) -> (r: Result<Vec<Native>, Error>)
    requires
        depth < heap@.len(),
    ensures
        match unmarshal_items(
            *schema,
            t,
            heap@,
            values_view(items@),
            items@.len(),
            depth as nat,
        ) {
            Ok(natives) => r is Ok && natives_view(r->Ok_0@) == natives,
            Err(e) => r is Err && r->Err_0 == e,
        },
    decreases heap@.len() - depth, 0nat, 1nat, 0nat,
{
    let ghost vv = values_view(items@);
    let limit = heap.len();
    let mut out: Vec<Native> = Vec::new();
    let mut i: usize = 0;
    assert(natives_view(out@) =~= Seq::empty());
    while i < items.len()
        invariant
            i <= items.len(),
            depth < heap@.len() <= usize::MAX,
            vv == values_view(items@),
            unmarshal_items(*schema, t, heap@, vv, i as nat, depth as nat) == Ok::<
                Seq<NativeV>,
                Error,
            >(natives_view(out@)),
        decreases items.len() - i,
    {
        assert(vv[i as int] == items@[i as int]@);
        match unmarshal_value(schema, t, heap, &items[i], depth + 1) {
            Ok(x) => {
                let ghost prev = out@;
                out.push(x);
                assert(natives_view(out@) =~= natives_view(prev).push(x@));
            },
            Err(e) => {
                proof {
                    lemma_read_items_failure_stays(
                        *schema,
                        t,
                        heap@,
                        vv,
                        (i + 1) as nat,
                        items@.len(),
                        depth as nat,
                    );
                }
                return Err(e);
            },
        }
        i += 1;
    }
    Ok(out)
}

/// Reads a typed array as a native sequence of the shape `sid`, whose
/// elements have the shape `t`. The element type must be that of the
/// array. A list takes the elements as a whole (`whole`); an array and a
/// slice take them one by one.
pub fn copy_to_partial_list(schema: &Schema, sid: usize, t: usize, whole: bool, buffer: &Buffer) -> (r:
    Result<Native, Error>)
    ensures
        same_result(r, typed_from_model(*schema, sid, t, whole, buffer@)),
{
    if t >= schema.shapes.len() {
        return Err(Error::was_not_a(sid));
    }
    let matches = match schema.shapes[t].scalar {
        Some(st) => match st.elem_kind() {
            Some(kind) => kind == buffer.kind,
            None => false,
        },
        None => false,
    };
    if !matches {
        return Err(Error::was_not_a(sid));
    }
    if whole {
        // The elements are taken over as they lie.
        return Ok(Native::Contiguous(buffer.duplicate()));
    }
    let mut out: Vec<Native> = Vec::new();
    let mut i: usize = 0;
    while i < buffer.bits.len()
        invariant
            i <= buffer.bits.len(),
            out@.len() == i,
            forall|j: int|
                0 <= j < i ==> (#[trigger] out@[j])@ == NativeV::Scalar(
                    bits_scalar(buffer.kind, buffer.bits@[j]),
                ),
        decreases buffer.bits.len() - i,
    {
        out.push(Native::Scalar(bits_to_scalar(buffer.kind, buffer.bits[i])));
        i += 1;
    }
    let r = Native::List(out);
    assert(r@->List_0 =~= typed_from_model(*schema, sid, t, whole, buffer@)->Ok_0->List_0);
    Ok(r)
}

/// Reads the native sequence of the shape `sid` that the object `h`
/// stands for: each element of an array is read as a value of the shape
/// `t`; a typed array is read as its elements lie.
pub fn unmarshal_list_object(
    schema: &Schema,
    sid: usize,
    t: usize,
    heap: &Heap,
    h: usize,
    depth: usize,
) -> (r: Result<Native, Error>)
    ensures
        same_result(r, list_from_model(*schema, sid, t, heap@, h, depth as nat)),
    decreases heap@.len() - depth, 0nat, 2nat, 0nat,
{
    let object = match heap.get(h) {
        Some(o) => o,
        None => {
            return Err(Error::Exception);
        },
    };
    if depth >= heap.len() {
        return Err(Error::failed(sid, Operation::CyclicValue));
    }
    match &object.body {
        Body::Array(items) => match unmarshal_array_object(schema, t, heap, items, depth) {
            Ok(elements) => {
                let r = Native::List(elements);
                assert(r@->List_0 =~= natives_view(elements@));
                Ok(r)
            },
            Err(e) => Err(e),
        },
        Body::Typed(buffer) => {
            let whole = sid < schema.shapes.len() && match schema.shapes[sid].def {
                crate::marshal::shape::Def::List(_) => true,
                _ => false,
            };
            copy_to_partial_list(schema, sid, t, whole, buffer)
        },
        _ => Err(Error::unexpected(sid, type_repr(heap, &Value::Object(h)))),
    }
}

/// Gives each place that holds no value the default of its field, where
/// the field has one.
pub fn fill_unset_fields_from_default(fields: &Vec<Field>, slots: &mut Vec<Native>)
    ensures
        final(slots)@.len() == old(slots)@.len(),
        natives_view(final(slots)@) == with_defaults(fields@, natives_view(old(slots)@)),
{
    let ghost before = natives_view(slots@);
    let n = slots.len();
    let mut i: usize = 0;
    while i < n
        invariant
            i <= n,
            n == slots@.len(),
            before.len() == n,
            forall|j: int|
                0 <= j < i ==> (#[trigger] slots@[j])@ == with_defaults(fields@, before)[j],
            forall|j: int| i <= j < n ==> (#[trigger] slots@[j])@ == before[j],
        decreases n - i,
    {
        let unset = match &slots[i] {
            Native::Unset => true,
            _ => false,
        };
        if unset && i < fields.len() {
            if let Some(d) = &fields[i].default {
                slots[i] = d.duplicate();
            }
        }
        i += 1;
    }
    assert(natives_view(slots@) =~= with_defaults(fields@, before));
}

/// As many places as there are fields, none of which holds a value.
pub fn unset_places(n: usize) -> (r: Vec<Native>)
    ensures
        r@.len() == n,
        natives_view(r@) == unset_slots(n as nat),
{
    let mut out: Vec<Native> = Vec::new();
    let mut i: usize = 0;
    while i < n
        invariant
            i <= n,
            out@.len() == i,
            forall|j: int| 0 <= j < i ==> (#[trigger] out@[j])@ == NativeV::Unset,
        decreases n - i,
    {
        out.push(Native::Unset);
        i += 1;
    }
    assert(natives_view(out@) =~= unset_slots(n as nat));
    out
}

/// Reads each of the values `items`, which lie one level below `depth`,
/// as the field at its position. There are no more values than fields.
pub(crate) fn unmarshal_tuple_items(
    schema: &Schema,
    fields: &Vec<Field>,
    heap: &Heap,
    items: &Vec<Value>,
    depth: usize,
) -> (r: Result<Vec<Native>, Error>)
    requires
        depth < heap@.len(),
        items@.len() <= fields@.len(),
    ensures
        match unmarshal_positions(
            *schema,
            fields@,
            heap@,
            values_view(items@),
            items@.len(),
            depth as nat,
        ) {
            Ok(natives) => r is Ok && r->Ok_0@.len() == items@.len() && natives_view(r->Ok_0@)
                == natives,
            Err(e) => r is Err && r->Err_0 == e,
        },
    decreases heap@.len() - depth, 0nat, 1nat, 0nat,
{
    let ghost vv = values_view(items@);
    let limit = heap.len();
    let mut slots: Vec<Native> = Vec::new();
    let mut i: usize = 0;
    assert(natives_view(slots@) =~= Seq::empty());
    while i < items.len()
        invariant
            i <= items.len(),
            items.len() <= fields.len(),
            depth < heap@.len() <= usize::MAX,
            vv == values_view(items@),
            slots@.len() == i,
            unmarshal_positions(*schema, fields@, heap@, vv, i as nat, depth as nat) == Ok::<
                Seq<NativeV>,
                Error,
            >(natives_view(slots@)),
        decreases items.len() - i,
    {
        assert(vv[i as int] == items@[i as int]@);
        match unmarshal_value(schema, fields[i].shape, heap, &items[i], depth + 1) {
            Ok(x) => {
                let ghost prev = slots@;
                slots.push(x);
                assert(natives_view(slots@) =~= natives_view(prev).push(x@));
            },
            Err(e) => {
                proof {
                    lemma_read_positions_failure_stays(
                        *schema,
                        fields@,
                        heap@,
                        vv,
                        (i + 1) as nat,
                        items@.len(),
                        depth as nat,
                    );
                }
                return Err(e);
            },
        }
        i += 1;
    }
    Ok(slots)
}

/// Reads the native tuple of the shape `sid` that the object `h` stands
/// for: the object must be an array of no more elements than the tuple
/// has fields; each element is read as the field at its position, and a
/// field without an element takes its default, where it has one.
pub fn unmarshal_tuple(
    schema: &Schema,
    sid: usize,
    fields: &Vec<Field>,
    heap: &Heap,
    h: usize,
    depth: usize,
) -> (r: Result<Native, Error>)
    ensures
        same_result(r, tuple_from_model(*schema, sid, fields@, heap@, h, depth as nat)),
    decreases heap@.len() - depth, 0nat, 2nat, 0nat,
{
    let object = match heap.get(h) {
        Some(o) => o,
        None => {
            return Err(Error::Exception);
        },
    };
    if depth >= heap.len() {
        return Err(Error::failed(sid, Operation::CyclicValue));
    }
    let items = match &object.body {
        Body::Array(items) => items,
        _ => {
            return Err(Error::unexpected(sid, type_repr(heap, &Value::Object(h))));
        },
    };
    if items.len() > fields.len() {
        return Err(Error::was_not_a(sid));
    }
    let mut slots = match unmarshal_tuple_items(schema, fields, heap, items, depth) {
        Ok(slots) => slots,
        Err(e) => {
            return Err(e);
        },
    };
    let ghost first = natives_view(slots@);
    let ghost read = items@.len();
    assert(natives_view(slots@) =~= first + unset_slots(0nat));
    while slots.len() < fields.len()
        invariant
            read <= slots.len() <= fields.len(),
            first.len() == read,
            natives_view(slots@) == first + unset_slots((slots.len() - read) as nat),
        decreases fields.len() - slots.len(),
    {
        let ghost prev = slots@;
        slots.push(Native::Unset);
        assert(natives_view(slots@) =~= natives_view(prev).push(
            NativeV::Unset,
        ));
        assert(natives_view(slots@) =~= first + unset_slots((slots.len() - read) as nat));
    }
    fill_unset_fields_from_default(fields, &mut slots);
    let r = Native::Struct(slots);
    assert(r@->Struct_0 =~= natives_view(slots@));
    Ok(r)
}

} // verus!
