//! Smart pointers and plain pointers.

use crate::marshal::error::{Error, Operation};
use crate::marshal::heap::{Heap, ObjectV};
use crate::marshal::model::{
    create_model, flag, is_shared, is_weak, pointer_model, rank, shared_model, smart_pointer_model,
    vacant,
};
use crate::marshal::native::{Memory, Native, Scalar};
use crate::marshal::object::create_object_for_shape;
use crate::marshal::shape::{field_view, will_marshal_as_object, Def, Field, KnownPointer, PointerType, Schema};
use crate::marshal::reading::smart_pointer_from_model;
use crate::marshal::value::Value;
use crate::marshal::unmarshal_value;
use crate::marshal::{
    env_of, marshal_into_object, marshal_value, marshalled, same_result, MarshalState,
    Peek,
};
use std::collections::HashMap;
use vstd::prelude::*;

verus! {

/// The objects that stand for the cells of shared pointers, by the number
/// of the cell, for a memory of `cells` cells. A cell without an entry was
/// not met yet.
pub struct MarshalPointers {
    pub cells: usize,
    pub shared_pointers: HashMap<usize, usize>,
}

/// The table as a sequence: for each of the first `cells` cells the object
/// that `entries` holds for it, or `None` where it holds none.
pub open spec fn table_of(cells: usize, entries: Map<usize, usize>) -> Seq<Option<usize>> {
    Seq::new(
        cells as nat,
        |i: int|
            if entries.contains_key(i as usize) {
                Some(entries[i as usize])
            } else {
                None
            },
    )
}

impl View for MarshalPointers {
    type V = Seq<Option<usize>>;

    open spec fn view(&self) -> Seq<Option<usize>> {
        table_of(self.cells, self.shared_pointers@)
    }
}

/// The cells that stand for objects of the runtime, by the handle of the
/// object. Nothing is entered here: a shared pointer is read as a pointer
/// of its own.
pub struct UnmarshalPointers {
    pub objects: HashMap<usize, usize>,
}

/// A table of `cells` cells, in all of which no object stands.
pub open spec fn untouched(cells: nat) -> Seq<Option<usize>> {
    Seq::new(cells, |i: int| None::<usize>)
}

impl MarshalPointers {
    /// A table for a memory of `cells` cells, none of which was met.
    pub fn new(cells: usize) -> (r: MarshalPointers)
        ensures
            r@ == untouched(cells as nat),
    {
        let r = MarshalPointers { cells, shared_pointers: HashMap::new() };
        assert(r@ =~= untouched(cells as nat));
        r
    }

    /// The object that stands for the cell `cell`, if the cell is one of
    /// the table's and was met.
    pub fn get(&self, cell: usize) -> (r: Option<usize>)
        ensures
            r == (if cell < self@.len() {
                self@[cell as int]
            } else {
                None
            }),
    {
        if cell >= self.cells {
            return None;
        }
        match self.shared_pointers.get(&cell) {
            Some(h) => Some(*h),
            None => None,
        }
    }

    /// Enters the object `h` for the cell `cell`, in the place of what
    /// stood for it.
    pub fn insert(&mut self, cell: usize, h: usize)
        requires
            cell < old(self)@.len(),
        ensures
            final(self)@ == old(self)@.update(cell as int, Some(h)),
    {
        self.shared_pointers.insert(cell, h);
        assert(self@ =~= old(self)@.update(cell as int, Some(h)));
    }
}

impl UnmarshalPointers {
    /// A table without entries.
    pub fn new() -> (r: UnmarshalPointers)
        ensures
            r.objects@ == Map::<usize, usize>::empty(),
    {
        UnmarshalPointers { objects: HashMap::new() }
    }
}

/// Entering an object for a cell that had none leaves one cell fewer
/// without an object.
pub proof fn lemma_vacant_update(table: Seq<Option<usize>>, cell: int, h: usize)
    requires
        0 <= cell < table.len(),
        table[cell] is None,
    ensures
        vacant(table.update(cell, Some(h))) + 1 == vacant(table),
    decreases table.len(),
{
    let entered = table.update(cell, Some(h));
    if cell == table.len() - 1 {
        assert(entered.drop_last() =~= table.drop_last());
    } else {
        assert(entered.drop_last() =~= table.drop_last().update(cell, Some(h)));
        lemma_vacant_update(table.drop_last(), cell, h);
    }
}

/// Marshals a smart pointer.
///
/// A weak pointer fails. A pointer without a pointee becomes `null`. A
/// shared pointer whose pointee becomes an object gives the object that
/// the table holds for the cell; where it holds none, the container is
/// made, entered in the table, and only then filled, so that a pointer
/// back to the cell finds it. Any other pointer becomes what its pointee
/// becomes.
pub fn marshal_smart_pointer(
    peek: Peek<'_>,
    heap: &mut Heap,
    state: &mut MarshalState<'_>,
    field: Option<&Field>,
) -> (r: Result<Value, Error>)
    ensures
        final(state).constructors == old(state).constructors,
        marshalled(
            smart_pointer_model(
                env_of(peek.schema, peek.memory, old(state)),
                peek.shape,
                peek.value@,
                field_view(field),
                old(heap)@.len(),
                old(state).pointers@,
            ),
            r,
            old(heap)@,
            final(heap)@,
            old(state).pointers@,
            final(state).pointers@,
        ),
    decreases
            vacant(old(state).pointers@),
            flag(*peek.schema, peek.shape),
            rank(*peek.schema, peek.shape),
            peek.value,
            2nat,
            0nat,
{
    let sid = peek.shape;
    if sid >= peek.schema.shapes.len() {
        return Err(Error::failed(sid, Operation::MalformedShape));
    }
    let (known, pointee) = match peek.schema.shapes[sid].def {
        Def::Pointer { known, pointee } => (known, pointee),
        _ => {
            return Err(Error::was_not_a(sid));
        },
    };
    let (shared, weak) = match known {
        Some(KnownPointer::Arc) | Some(KnownPointer::Rc) => (true, false),
        Some(KnownPointer::ArcWeak) | Some(KnownPointer::RcWeak) => (true, true),
        _ => (false, false),
    };
    if weak {
        return Err(Error::failed(sid, Operation::WeakPointer));
    }
    assert(shared == is_shared(known));
    assert(heap@ =~= old(heap)@ + Seq::<ObjectV>::empty());
    match peek.value {
        Native::Owned(None) | Native::Shared(None) => {
            return Ok(Value::Null);
        },
        Native::Owned(Some(_)) | Native::Shared(Some(_)) => {},
        _ => {
            return Err(Error::was_not_a(sid));
        },
    }
    let p = match pointee {
        None => {
            return Ok(Value::Null);
        },
        Some(p) => p,
    };
    if p >= sid {
        return Err(Error::failed(sid, Operation::MalformedShape));
    }
    if shared && will_marshal_as_object(peek.schema, p) {
        match peek.value {
            Native::Shared(Some(cell)) => marshal_shared(
                peek.schema,
                peek.memory,
                sid,
                p,
                *cell,
                heap,
                state,
                field,
            ),
            _ => Err(Error::was_not_a(sid)),
        }
    } else {
        // No shared pointer, or the pointee is no object: the pointee is
        // marshalled as a value of its own.
        match peek.value {
            Native::Owned(Some(x)) => {
                let target = Peek {
                    schema: peek.schema,
                    memory: peek.memory,
                    shape: p,
                    value: &**x,
                };
                marshal_value(target, heap, state, field)
            },
            Native::Shared(Some(cell)) => {
                let cell = *cell;
                if !shared || cell >= peek.memory.cells.len() {
                    return Err(Error::was_not_a(sid));
                }
                let target = Peek {
                    schema: peek.schema,
                    memory: peek.memory,
                    shape: p,
                    value: &peek.memory.cells[cell],
                };
                assert(peek.memory@[cell as int] == target.value@);
                marshal_value(target, heap, state, field)
            },
            _ => Err(Error::was_not_a(sid)),
        }
    }
}

/// Marshals a shared pointer of the shape `sid` to the cell `cell`, whose
/// pointee has the shape `p` and becomes an object. Where the table holds
/// an object for the cell, that object is the result. Where it holds
/// none, the container is made, entered in the table, and only then
/// filled, so that a pointer back to the cell finds it.
pub fn marshal_shared(
    schema: &Schema,
    memory: &Memory,
    sid: usize,
    p: usize,
    cell: usize,
    heap: &mut Heap,
    state: &mut MarshalState<'_>,
    field: Option<&Field>,
) -> (r: Result<Value, Error>)
    ensures
        final(state).constructors == old(state).constructors,
        marshalled(
            shared_model(
                env_of(schema, memory, old(state)),
                sid,
                p,
                cell,
                field_view(field),
                old(heap)@.len(),
                old(state).pointers@,
            ),
            r,
            old(heap)@,
            final(heap)@,
            old(state).pointers@,
            final(state).pointers@,
        ),
    decreases vacant(old(state).pointers@), 0nat, 0nat, Native::Unset, 0nat, 0nat,
{
    let ghost env = env_of(schema, memory, state);
    let ghost table0 = state.pointers@;
    assert(heap@ =~= old(heap)@ + Seq::<ObjectV>::empty());
    if cell >= memory.cells.len() {
        return Err(Error::was_not_a(sid));
    }
    if cell >= state.pointers.cells {
        return Err(Error::failed(sid, Operation::UntrackedPointer));
    }
    if let Some(h) = state.pointers.get(cell) {
        // The cell was met before: its object stands for it.
        return Ok(Value::Object(h));
    }
    if p >= schema.shapes.len() {
        return Err(Error::failed(p, Operation::MalformedShape));
    }
    let target = Peek { schema, memory, shape: p, value: &memory.cells[cell] };
    assert(memory@[cell as int] == target.value@);
    let object = match create_object_for_shape(target, heap, state, field) {
        Ok(h) => h,
        Err(e) => {
            return Err(e);
        },
    };
    let ghost made = heap@;
    let ghost created = create_model(env, p, memory@[cell as int], field_view(field))->Ok_0;
    assert(made == old(heap)@.push(created));
    assert(made[object as int].body == created.body);
    // The object is entered before it is filled, in case the pointee
    // leads back to itself.
    proof {
        lemma_vacant_update(table0, cell as int, object);
    }
    state.pointers.insert(cell, object);
    assert(state.pointers@ == table0.update(cell as int, Some(object)));
    assert(env_of(schema, memory, state) == env);
    match marshal_into_object(target, heap, object, state) {
        Ok(()) => {},
        Err(e) => {
            return Err(e);
        },
    }
    proof {
        let o = shared_model(env, sid, p, cell, field_view(field), old(heap)@.len(), table0)->Ok_0;
        assert(heap@ =~= old(heap)@ + o.objects);
    }
    Ok(Value::Object(object))
}

/// Marshals a plain pointer: a reference to a string becomes the string,
/// and every other pointer fails.
pub fn marshal_pointer(peek: Peek<'_>, pointer_type: PointerType) -> (r: Result<Value, Error>)
    ensures
        same_result(r, pointer_model(peek.shape, pointer_type, peek.value@)),
{
    match pointer_type {
        PointerType::Reference => match peek.value {
            Native::Scalar(Scalar::Text(s)) => Ok(Value::Str(s.clone())),
            _ => Err(Error::failed(peek.shape, Operation::ReferenceToNonString)),
        },
        PointerType::Raw => Err(Error::failed(peek.shape, Operation::RawPointer)),
        PointerType::Function => Err(Error::failed(peek.shape, Operation::FunctionPointer)),
    }
}

/// Reads a smart pointer of the shape `sid`: a fresh pointer to the
/// pointee that the value is read as. A shared pointer is read as a
/// pointer that owns its pointee alone: which objects of the runtime are
/// one and the same does not say which native values share a cell. A
/// weak pointer fails.
pub fn unmarshal_smart_pointer(
    schema: &Schema,
    sid: usize,
    heap: &Heap,
    value: &Value,
    depth: usize,
) -> (r: Result<Native, Error>)
    ensures
        same_result(r, smart_pointer_from_model(*schema, sid, heap@, value@, depth as nat)),
    decreases heap@.len() - depth, sid, 1nat, 0nat,
{
    if sid >= schema.shapes.len() {
        return Err(Error::failed(sid, Operation::MalformedShape));
    }
    if depth > heap.len() {
        return Err(Error::failed(sid, Operation::CyclicValue));
    }
    let (known, pointee) = match schema.shapes[sid].def {
        Def::Pointer { known, pointee } => (known, pointee),
        _ => {
            return Err(Error::was_not_a(sid));
        },
    };
    let is_weak = match known {
        Some(KnownPointer::ArcWeak) | Some(KnownPointer::RcWeak) => true,
        _ => false,
    };
    if is_weak {
        return Err(Error::failed(sid, Operation::WeakPointer));
    }
    let p = match pointee {
        Some(p) => p,
        None => {
            return Err(Error::failed(sid, Operation::MalformedShape));
        },
    };
    if p >= sid {
        return Err(Error::failed(sid, Operation::MalformedShape));
    }
    match unmarshal_value(schema, p, heap, value, depth) {
        Ok(x) => Ok(Native::Owned(Some(Box::new(x)))),
        Err(e) => Err(e),
    }
}

/// Reads a plain pointer: it fails, for a pointer cannot be rebuilt from
/// a value of the runtime.
pub fn unmarshal_pointer(sid: usize) -> (r: Result<Native, Error>)
    ensures
        r is Err,
        r->Err_0 == Error::failed(sid, Operation::UnmarshalPointer),
{
    Err(Error::failed(sid, Operation::UnmarshalPointer))
}

} // verus!
