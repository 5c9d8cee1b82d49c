//! Maps.

use crate::marshal::error::{Error, Operation};
use crate::marshal::heap::{with_body, Body, BodyV, Heap, ObjectV};
use crate::marshal::model::{map_model, marshal_pairs, vacant, Env};
use crate::marshal::native::{Memory, Native, NativeV};
use crate::marshal::shape::Schema;
use crate::marshal::value::{pairs_view, Value, ValueV};
use crate::marshal::reading::{map_from_model, unmarshal_pairs};
use crate::marshal::scalar::type_repr;
use crate::marshal::{
    env_of, marshal_value, populated, same_result, unmarshal_value, MarshalState, Peek};
use vstd::prelude::*;

verus! {

/// The views of the entries of a native map.
pub open spec fn native_pairs_view(pairs: Seq<(Native, Native)>) -> Seq<(NativeV, NativeV)> {
    Seq::new(pairs.len(), |i: int| (pairs[i].0@, pairs[i].1@))
}

/// Once the first entries fail to marshal, marshalling more of them fails
/// in the same way.
pub proof fn lemma_pairs_failure_stays(
    env: Env,
    key: usize,
    value: usize,
    pairs: Seq<(NativeV, NativeV)>,
    k: nat,
    n: nat,
    base: nat,
    table: Seq<Option<usize>>,
)
    requires
        1 <= k <= n <= pairs.len(),
        marshal_pairs(env, key, value, pairs, k, base, table) is Err,
    ensures
        marshal_pairs(env, key, value, pairs, n, base, table) == marshal_pairs(
            env,
            key,
            value,
            pairs,
            k,
            base,
            table,
        ),
    decreases n - k,
{
    if k < n {
        lemma_pairs_failure_stays(env, key, value, pairs, k, (n - 1) as nat, base, table);
    }
}

/// Marshals the entries of a native map in turn, each key before its
/// value, and returns what they became.
pub fn marshal_entries(
    schema: &Schema,
    memory: &Memory,
    key: usize,
    value: usize,
    pairs: &Vec<(Native, Native)>,
    heap: &mut Heap,
    state: &mut MarshalState<'_>,
) -> (r: Result<Vec<(Value, Value)>, Error>)
    ensures
        final(state).constructors == old(state).constructors,
        match marshal_pairs(
            env_of(schema, memory, old(state)),
            key,
            value,
            native_pairs_view(pairs@),
            pairs.len() as nat,
            old(heap)@.len(),
            old(state).pointers@,
        ) {
            Ok(m) => r is Ok && pairs_view(r->Ok_0@) == m.pairs && final(heap)@ == old(heap)@
                + m.objects && final(state).pointers@ == m.table && vacant(m.table) <= vacant(
                old(state).pointers@,
            ),
            Err(e) => r is Err && r->Err_0 == e && crate::marshal::kept(old(heap)@, final(heap)@),
        },
    decreases vacant(old(state).pointers@), 1nat, 0nat, pairs, 0nat, 0nat,
{
    let ghost env = env_of(schema, memory, state);
    let ghost heap0 = heap@;
    let ghost table0 = state.pointers@;
    let ghost views = native_pairs_view(pairs@);
    let ghost all = pairs.len() as nat;
    let mut out: Vec<(Value, Value)> = Vec::new();
    let mut i: usize = 0;
    assert(pairs_view(out@) =~= Seq::<(ValueV, ValueV)>::empty());
    assert(heap@ =~= heap0 + Seq::<ObjectV>::empty());
    while i < pairs.len()
        invariant
            i <= pairs.len(),
            all == pairs.len(),
            views == native_pairs_view(pairs@),
            env == env_of(schema, memory, state),
            state.constructors == old(state).constructors,
            table0 == old(state).pointers@,
            heap0 == old(heap)@,
            marshal_pairs(env, key, value, views, i as nat, heap0.len(), table0) is Ok,
            marshal_pairs(env, key, value, views, i as nat, heap0.len(), table0)->Ok_0.pairs
                == pairs_view(out@),
            heap@ == heap0 + marshal_pairs(
                env,
                key,
                value,
                views,
                i as nat,
                heap0.len(),
                table0,
            )->Ok_0.objects,
            marshal_pairs(env, key, value, views, i as nat, heap0.len(), table0)->Ok_0.table
                == state.pointers@,
            vacant(state.pointers@) <= vacant(table0),
        decreases pairs.len() - i,
    {
        let ghost before = marshal_pairs(
            env,
            key,
            value,
            views,
            i as nat,
            heap0.len(),
            table0,
        )->Ok_0;
        assert(views[i as int] == (pairs[i as int].0@, pairs[i as int].1@));
        assert(heap@.len() == heap0.len() + before.objects.len());
        let key_peek = Peek { schema, memory, shape: key, value: &pairs[i].0 };
        let key_value = match marshal_value(key_peek, heap, state, None) {
            Ok(v) => v,
            Err(e) => {
                proof {
                    lemma_pairs_failure_stays(
                        env,
                        key,
                        value,
                        views,
                        (i + 1) as nat,
                        all,
                        heap0.len(),
                        table0,
                    );
                }
                return Err(e);
            },
        };
        let value_peek = Peek { schema, memory, shape: value, value: &pairs[i].1 };
        let value_value = match marshal_value(value_peek, heap, state, None) {
            Ok(v) => v,
            Err(e) => {
                proof {
                    lemma_pairs_failure_stays(
                        env,
                        key,
                        value,
                        views,
                        (i + 1) as nat,
                        all,
                        heap0.len(),
                        table0,
                    );
                }
                return Err(e);
            },
        };
        let ghost prev = out@;
        let ghost kv = key_value@;
        let ghost vv = value_value@;
        out.push((key_value, value_value));
        proof {
            let after = marshal_pairs(
                env,
                key,
                value,
                views,
                (i + 1) as nat,
                heap0.len(),
                table0,
            )->Ok_0;
            assert(pairs_view(out@) =~= pairs_view(prev).push((kv, vv)));
            assert(heap@ =~= heap0 + after.objects);
        }
        i += 1;
    }
    Ok(out)
}

/// Adds entries to the map `object`, in order.
pub(crate) fn store_entries(heap: &mut Heap, object: usize, pairs: &Vec<(Value, Value)>)
    requires
        object < old(heap)@.len(),
        old(heap)@[object as int].body is MapOf,
    ensures
        final(heap)@ == with_body(
            old(heap)@,
            object as int,
            BodyV::MapOf(old(heap)@[object as int].body->MapOf_0 + pairs_view(pairs@)),
        ),
{
    let ghost heap0 = heap@;
    let ghost entries0 = heap0[object as int].body->MapOf_0;
    let ghost pv = pairs_view(pairs@);
    let mut i: usize = 0;
    assert(heap@ =~= with_body(heap0, object as int, BodyV::MapOf(entries0 + pv.take(0))));
    while i < pairs.len()
        invariant
            i <= pairs.len(),
            object < heap0.len(),
            pv == pairs_view(pairs@),
            heap@ == with_body(heap0, object as int, BodyV::MapOf(entries0 + pv.take(i as int))),
        decreases pairs.len() - i,
    {
        let _ = heap.map_set(object, pairs[i].0.duplicate(), pairs[i].1.duplicate());
        assert(pv[i as int] == (pairs@[i as int].0@, pairs@[i as int].1@));
        assert(entries0 + pv.take(i + 1) =~= (entries0 + pv.take(i as int)).push(pv[i as int]));
        assert(heap@ =~= with_body(
            heap0,
            object as int,
            BodyV::MapOf(entries0 + pv.take(i + 1)),
        ));
        i += 1;
    }
    assert(pv.take(i as int) =~= pv);
}

/// Fills the map `object`: each entry of the native map is marshalled,
/// the key before the value, and set in the map, in order.
pub fn marshal_map_into(
    peek: Peek<'_>,
    key: usize,
    value: usize,
    heap: &mut Heap,
    object: usize,
    state: &mut MarshalState<'_>,
) -> (r: Result<(), Error>)
    ensures
        final(state).constructors == old(state).constructors,
        object >= old(heap)@.len() ==> r == Err::<(), Error>(Error::Exception) && final(heap)@
            == old(heap)@,
        object < old(heap)@.len() ==> populated(
            map_model(
                env_of(peek.schema, peek.memory, old(state)),
                peek.shape,
                key,
                value,
                peek.value@,
                old(heap)@[object as int].body,
                old(heap)@.len(),
                old(state).pointers@,
            ),
            r,
            object,
            old(heap)@,
            final(heap)@,
            old(state).pointers@,
            final(state).pointers@,
        ),
    decreases vacant(old(state).pointers@), 1nat, 0nat, peek.value, 1nat, 0nat,
{
    if object >= heap.len() {
        return Err(Error::Exception);
    }
    let sid = peek.shape;
    let pairs = match peek.value {
        Native::MapOf(pairs) => pairs,
        _ => {
            return Err(Error::was_not_a(sid));
        },
    };
    assert(peek.value@->MapOf_0 =~= native_pairs_view(pairs@));
    match &heap.objects[object].body {
        Body::MapOf(_) => {},
        _ => {
            return Err(Error::failed(sid, Operation::ContainerMismatch));
        },
    }
    let entries = match marshal_entries(peek.schema, peek.memory, key, value, pairs, heap, state) {
        Ok(entries) => entries,
        Err(e) => {
            return Err(e);
        },
    };
    store_entries(heap, object, &entries);
    proof {
        let f = map_model(
            env_of(peek.schema, peek.memory, old(state)),
            peek.shape,
            key,
            value,
            peek.value@,
            old(heap)@[object as int].body,
            old(heap)@.len(),
            old(state).pointers@,
        )->Ok_0;
        assert(heap@ =~= with_body(old(heap)@, object as int, f.body) + f.objects);
    }
    Ok(())
}

/// Once the first entries fail to be read, reading more of them fails in
/// the same way.
pub proof fn lemma_read_pairs_failure_stays(
    schema: Schema,
    key: usize,
    value: usize,
    heap: Seq<ObjectV>,
    pairs: Seq<(ValueV, ValueV)>,
    k: nat,
    n: nat,
    depth: nat,
)
    requires
        1 <= k <= n <= pairs.len(),
        depth < heap.len(),
        unmarshal_pairs(schema, key, value, heap, pairs, k, depth) is Err,
    ensures
        unmarshal_pairs(schema, key, value, heap, pairs, n, depth) == unmarshal_pairs(
            schema,
            key,
            value,
            heap,
            pairs,
            k,
            depth,
        ),
    decreases n - k,
{
    if k < n {
        lemma_read_pairs_failure_stays(schema, key, value, heap, pairs, k, (n - 1) as nat, depth);
    }
}

/// Reads each of the entries `pairs`, which lie one level below `depth`:
/// the key as a value of the shape `key` before the value as one of the
/// shape `value`.
pub(crate) fn unmarshal_map_entries(
    schema: &Schema,
    key: usize,
    value: usize,
    heap: &Heap,
    pairs: &Vec<(Value, Value)>,
    depth: usize,
) -> (r: Result<Vec<(Native, Native)>, Error>)
    requires
        depth < heap@.len(),
    ensures
        match unmarshal_pairs(
            *schema,
            key,
            value,
            heap@,
            pairs_view(pairs@),
            pairs@.len(),
            depth as nat,
        ) {
            Ok(entries) => r is Ok && native_pairs_view(r->Ok_0@) == entries,
            Err(e) => r is Err && r->Err_0 == e,
        },
    decreases heap@.len() - depth, 0nat, 1nat, 0nat,
{
    let ghost pv = pairs_view(pairs@);
    let limit = heap.len();
    let mut out: Vec<(Native, Native)> = Vec::new();
    let mut i: usize = 0;
    assert(native_pairs_view(out@) =~= Seq::empty());
    while i < pairs.len()
        invariant
            i <= pairs.len(),
            depth < heap@.len() <= usize::MAX,
            pv == pairs_view(pairs@),
            unmarshal_pairs(*schema, key, value, heap@, pv, i as nat, depth as nat) == Ok::<
                Seq<(NativeV, NativeV)>,
                Error,
            >(native_pairs_view(out@)),
        decreases pairs.len() - i,
    {
        assert(pv[i as int] == (pairs@[i as int].0@, pairs@[i as int].1@));
        let k = match unmarshal_value(schema, key, heap, &pairs[i].0, depth + 1) {
            Ok(k) => k,
            Err(e) => {
                proof {
                    lemma_read_pairs_failure_stays(
                        *schema,
                        key,
                        value,
                        heap@,
                        pv,
                        (i + 1) as nat,
                        pairs@.len(),
                        depth as nat,
                    );
                }
                return Err(e);
            },
        };
        let v = match unmarshal_value(schema, value, heap, &pairs[i].1, depth + 1) {
            Ok(v) => v,
            Err(e) => {
                proof {
                    lemma_read_pairs_failure_stays(
                        *schema,
                        key,
                        value,
                        heap@,
                        pv,
                        (i + 1) as nat,
                        pairs@.len(),
                        depth as nat,
                    );
                }
                return Err(e);
            },
        };
        let ghost prev = out@;
        let ghost kv = k@;
        let ghost vv = v@;
        out.push((k, v));
        assert(native_pairs_view(out@) =~= native_pairs_view(prev).push((kv, vv)));
        i += 1;
    }
    Ok(out)
}

/// Reads the native map of the shape `sid` that the object `h` stands
/// for: the object must be a map, and each of its entries is read, the
/// key as a value of the shape `key` before the value as one of the
/// shape `value`.
pub fn unmarshal_map(
    schema: &Schema,
    sid: usize,
    key: usize,
    value: usize,
    heap: &Heap,
    h: usize,
    depth: usize,
) -> (r: Result<Native, Error>)
    ensures
        same_result(r, map_from_model(*schema, sid, key, value, heap@, h, depth as nat)),
    decreases heap@.len() - depth, 0nat, 2nat, 0nat,
{
    let object = match heap.get(h) {
        Some(o) => o,
        None => {
            return Err(Error::Exception);
        },
    };
    if depth >= heap.len() {
        return Err(Error::failed(sid, Operation::CyclicValue));
    }
    match &object.body {
        Body::MapOf(pairs) => match unmarshal_map_entries(schema, key, value, heap, pairs, depth) {
            Ok(entries) => {
                let r = Native::MapOf(entries);
                assert(r@->MapOf_0 =~= native_pairs_view(entries@));
                Ok(r)
            },
            Err(e) => Err(e),
        },
        _ => Err(Error::unexpected(sid, type_repr(heap, &Value::Object(h)))),
    }
}

} // verus!
