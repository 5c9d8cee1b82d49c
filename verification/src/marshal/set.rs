//! Sets.

use crate::marshal::error::{Error, Operation};
use crate::marshal::heap::{with_body, Body, BodyV, Heap};
use crate::marshal::model::{set_model, vacant};
use crate::marshal::native::{natives_view, Native};
use crate::marshal::value::{values_view, Value};
use crate::marshal::array::unmarshal_array_object;
use crate::marshal::reading::set_from_model;
use crate::marshal::scalar::type_repr;
use crate::marshal::shape::Schema;
use crate::marshal::{
    env_of, marshal_fields, populated, same_result, KidShapes, MarshalState, Peek};
use vstd::prelude::*;

verus! {

/// A native set together with what is needed to read its members.
#[derive(Clone, Copy, Debug)]
pub struct PeekSet<'a> {
    /// The set: a value that holds members.
    pub value: Peek<'a>,
    /// The shape of the members.
    pub t: usize,
}

impl<'a> PeekSet<'a> {
    /// The members of the set, in the order the set yields them. A value
    /// that is no set has none.
    pub fn iter(self) -> (r: Vec<Peek<'a>>)
        ensures
            match *self.value.value {
                Native::SetOf(items) => r@.len() == items@.len() && forall|i: int|
                    0 <= i < r@.len() ==> (#[trigger] r@[i]).shape == self.t && *r@[i].value
                        == items@[i] && r@[i].schema == self.value.schema && r@[i].memory
                        == self.value.memory,
                _ => r@.len() == 0,
            },
    {
        let mut out: Vec<Peek<'a>> = Vec::new();
        if let Native::SetOf(items) = self.value.value {
            let mut i: usize = 0;
            while i < items.len()
                invariant
                    i <= items.len(),
                    out@.len() == i,
                    forall|j: int|
                        0 <= j < i ==> (#[trigger] out@[j]).shape == self.t && *out@[j].value
                            == items@[j] && out@[j].schema == self.value.schema && out@[j].memory
                            == self.value.memory,
                decreases items.len() - i,
            {
                out.push(
                    Peek {
                        schema: self.value.schema,
                        memory: self.value.memory,
                        shape: self.t,
                        value: &items[i],
                    },
                );
                i += 1;
            }
        }
        out
    }
}

/// Adds members to the set `object`, in order.
pub(crate) fn store_members(heap: &mut Heap, object: usize, values: &Vec<Value>)
    requires
        object < old(heap)@.len(),
        old(heap)@[object as int].body is SetOf,
    ensures
        final(heap)@ == with_body(
            old(heap)@,
            object as int,
            BodyV::SetOf(old(heap)@[object as int].body->SetOf_0 + values_view(values@)),
        ),
{
    let ghost heap0 = heap@;
    let ghost members0 = heap0[object as int].body->SetOf_0;
    let ghost vv = values_view(values@);
    let mut i: usize = 0;
    assert(heap@ =~= with_body(heap0, object as int, BodyV::SetOf(members0 + vv.take(0))));
    while i < values.len()
        invariant
            i <= values.len(),
            object < heap0.len(),
            vv == values_view(values@),
            heap@ == with_body(heap0, object as int, BodyV::SetOf(members0 + vv.take(i as int))),
        decreases values.len() - i,
    {
        let _ = heap.add(object, values[i].duplicate());
        assert(vv[i as int] == values@[i as int]@);
        assert(members0 + vv.take(i + 1) =~= (members0 + vv.take(i as int)).push(vv[i as int]));
        assert(heap@ =~= with_body(
            heap0,
            object as int,
            BodyV::SetOf(members0 + vv.take(i + 1)),
        ));
        i += 1;
    }
    assert(vv.take(i as int) =~= vv);
}

/// Fills the set `object`: each member of the native set is marshalled
/// and added, in order.
pub fn marshal_set_into(
    peek: Peek<'_>,
    t: usize,
    heap: &mut Heap,
    object: usize,
    state: &mut MarshalState<'_>,
) -> (r: Result<(), Error>)
    ensures
        final(state).constructors == old(state).constructors,
        object >= old(heap)@.len() ==> r == Err::<(), Error>(Error::Exception) && final(heap)@
            == old(heap)@,
        object < old(heap)@.len() ==> populated(
            set_model(
                env_of(peek.schema, peek.memory, old(state)),
                peek.shape,
                t,
                peek.value@,
                old(heap)@[object as int].body,
                old(heap)@.len(),
                old(state).pointers@,
            ),
            r,
            object,
            old(heap)@,
            final(heap)@,
            old(state).pointers@,
            final(state).pointers@,
        ),
    decreases vacant(old(state).pointers@), 1nat, 0nat, peek.value, 1nat, 0nat,
{
    if object >= heap.len() {
        return Err(Error::Exception);
    }
    let sid = peek.shape;
    let items = match peek.value {
        Native::SetOf(items) => items,
        _ => {
            return Err(Error::was_not_a(sid));
        },
    };
    assert(peek.value@->SetOf_0 =~= natives_view(items@));
    match &heap.objects[object].body {
        Body::SetOf(_) => {},
        _ => {
            return Err(Error::failed(sid, Operation::ContainerMismatch));
        },
    }
    let kids = KidShapes::Uniform(t);
    let values = match marshal_fields(peek.schema, peek.memory, &kids, items, heap, state) {
        Ok(values) => values,
        Err(e) => {
            return Err(e);
        },
    };
    store_members(heap, object, &values);
    proof {
        let f = set_model(
            env_of(peek.schema, peek.memory, old(state)),
            peek.shape,
            t,
            peek.value@,
            old(heap)@[object as int].body,
            old(heap)@.len(),
            old(state).pointers@,
        )->Ok_0;
        assert(heap@ =~= with_body(old(heap)@, object as int, f.body) + f.objects);
    }
    Ok(())
}

/// Reads the native set of the shape `sid` that the object `h` stands
/// for: the object must be a set, and each of its members is read as a
/// value of the shape `t`.
pub fn unmarshal_set(schema: &Schema, sid: usize, t: usize, heap: &Heap, h: usize, depth: usize) -> (r:
    Result<Native, Error>)
    ensures
        same_result(r, set_from_model(*schema, sid, t, heap@, h, depth as nat)),
    decreases heap@.len() - depth, 0nat, 2nat, 0nat,
{
    let object = match heap.get(h) {
        Some(o) => o,
        None => {
            return Err(Error::Exception);
        },
    };
    if depth >= heap.len() {
        return Err(Error::failed(sid, Operation::CyclicValue));
    }
    match &object.body {
        Body::SetOf(items) => match unmarshal_array_object(schema, t, heap, items, depth) {
            Ok(members) => {
                let r = Native::SetOf(members);
                assert(r@->SetOf_0 =~= natives_view(members@));
                Ok(r)
            },
            Err(e) => Err(e),
        },
        _ => Err(Error::unexpected(sid, type_repr(heap, &Value::Object(h)))),
    }
}

} // verus!
