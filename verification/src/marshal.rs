//! The marshalling engine.

pub mod array;
pub mod bytes;
pub mod enum_;
pub mod error;
pub mod heap;
pub mod laws;
pub mod map;
pub mod model;
pub mod native;
pub mod object;
pub mod pointer;
pub mod reading;
pub mod roundtrip;
pub mod scalar;
pub mod set;
pub mod shape;
pub mod text;
pub mod value;

pub use error::{Error, Observed, Operation, ReflectError, VariantError};
use crate::marshal::heap::{with_body, Heap, ObjectV};
use crate::marshal::reading::{complete, from_model, object_from_model, unmarshal_model};
use crate::marshal::model::{
    asks_typed, create_model, flag, marshal_items, marshal_model, populate_model, rank, vacant,
    Env, Filled, Kids, Outcome,
};
use crate::marshal::native::{natives_view, Memory, Native, NativeV};
use crate::marshal::object::Constructors;
use crate::marshal::pointer::MarshalPointers;
use crate::marshal::shape::{
    field_view, owner_of, will_marshal_as_object, will_serialize_as_object, Def, Field, Schema,
    StructKind, Type, UserType,
};
use crate::marshal::text::str_eq;
use crate::marshal::value::{values_view, Value, ValueV};
use vstd::prelude::*;

verus! {

/// A native value together with what is needed to read it: the shapes of
/// the program, the cells its shared pointers name, and its own shape.
#[derive(Clone, Copy, Debug)]
pub struct Peek<'a> {
    pub schema: &'a Schema,
    pub memory: &'a Memory,
    /// The shape of the value, by its index in the schema.
    pub shape: usize,
    pub value: &'a Native,
}

/// What one marshalling carries from value to value: the table of the
/// shared pointers met so far, and the constructors registered for types.
pub struct MarshalState<'a> {
    pub pointers: MarshalPointers,
    pub constructors: &'a Constructors,
}

/// Whether a result is the one a model gives: the same error, or a value
/// with the view the model names.
pub open spec fn same_result<T: View>(r: Result<T, Error>, model: Result<T::V, Error>) -> bool {
    match r {
        Ok(v) => model == Ok::<T::V, Error>(v@),
        Err(e) => model == Err::<T::V, Error>(e),
    }
}

/// What a marshalling reads, for the model.
pub open spec fn env_of(schema: &Schema, memory: &Memory, state: &MarshalState<'_>) -> Env {
    Env { schema: *schema, memory: memory@, constructors: state.constructors@ }
}

/// Whether a heap still holds the objects that it held, as they were.
pub open spec fn kept(before: Seq<ObjectV>, after: Seq<ObjectV>) -> bool {
    &&& after.len() >= before.len()
    &&& forall|i: int| 0 <= i < before.len() ==> #[trigger] after[i] == before[i]
}

/// Whether a heap still holds the objects that it held, as they were,
/// but for the object `h`.
pub open spec fn kept_but(before: Seq<ObjectV>, after: Seq<ObjectV>, h: int) -> bool {
    &&& after.len() >= before.len()
    &&& forall|i: int| 0 <= i < before.len() && i != h ==> #[trigger] after[i] == before[i]
}

/// Whether a marshalling ended as its model says: with the value of the
/// model, its objects behind those of the heap and its table, in which
/// no more cells are without an object than before; or with the same
/// failure, and the objects that the heap held as they were.
pub open spec fn marshalled(
    model: Result<Outcome, Error>,
    r: Result<Value, Error>,
    heap0: Seq<ObjectV>,
    heap1: Seq<ObjectV>,
    table0: Seq<Option<usize>>,
    table1: Seq<Option<usize>>,
) -> bool {
    match model {
        Ok(o) => r is Ok && r->Ok_0@ == o.value && heap1 == heap0 + o.objects && table1 == o.table
            && vacant(table1) <= vacant(table0),
        Err(e) => r is Err && r->Err_0 == e && kept(heap0, heap1),
    }
}

/// Whether the filling of the object `object` ended as its model says:
/// with the body of the model in the place of the old one, its objects
/// behind those of the heap, and its table; or with the same failure,
/// and the other objects that the heap held as they were.
pub open spec fn populated(
    model: Result<Filled, Error>,
    r: Result<(), Error>,
    object: usize,
    heap0: Seq<ObjectV>,
    heap1: Seq<ObjectV>,
    table0: Seq<Option<usize>>,
    table1: Seq<Option<usize>>,
) -> bool {
    match model {
        Ok(f) => r is Ok && heap1 == with_body(heap0, object as int, f.body) + f.objects && table1
            == f.table && vacant(table1) <= vacant(table0),
        Err(e) => r is Err && r->Err_0 == e && kept_but(heap0, heap1, object as int),
    }
}

/// Whether the field that holds a value asks for a typed array.
pub fn field_is_typed(field: Option<&Field>) -> (r: bool)
    ensures
        r == asks_typed(field_view(field)),
{
    match field {
        None => false,
        Some(f) => {
            let ghost told = owner_of(*f).attributes;
            let mut i: usize = 0;
            while i < f.attributes.len()
                invariant
                    i <= f.attributes.len(),
                    field == Some(f),
                    told == owner_of(*f).attributes,
                    forall|j: int| 0 <= j < i ==> (#[trigger] told[j]) != "typed_array"@,
                decreases f.attributes.len() - i,
            {
                assert(told[i as int] == f.attributes@[i as int]@);
                if str_eq(f.attributes[i].as_str(), "typed_array") {
                    assert(field_view(field)->Some_0.attributes[i as int] == "typed_array"@);
                    return true;
                }
                i += 1;
            }
            assert(told.len() == f.attributes@.len());
            assert(field_view(field)->Some_0.attributes == told);
            false
        },
    }
}

/// How the values of a sequence are read: all with one shape, or each
/// with the shape of its field.
pub enum KidShapes<'a> {
    /// The elements of a list or of a set.
    Uniform(usize),
    /// The fields of a struct or of a tuple.
    Fields(&'a Vec<Field>),
    /// The fields of a variant of the enum `shape`, whose tag is `tag`.
    Payload { fields: &'a Vec<Field>, tag: &'a String, shape: usize },
}

impl<'a> View for KidShapes<'a> {
    type V = Kids;

    open spec fn view(&self) -> Kids {
        match self {
            KidShapes::Uniform(t) => Kids::Uniform(*t),
            KidShapes::Fields(fields) => Kids::Fields(fields@),
            KidShapes::Payload { fields, tag, shape } => Kids::Payload {
                fields: fields@,
                tag: tag@,
                shape: *shape,
            },
        }
    }
}

impl<'a> KidShapes<'a> {
    /// The shape of the value at position `i`.
    pub(crate) fn shape_of(&self, i: usize) -> (r: usize)
        requires
            match self@ {
                Kids::Fields(fields) => i < fields.len(),
                Kids::Payload { fields, .. } => i < fields.len(),
                _ => true,
            },
        ensures
            r == self@.shape_of(i as int),
    {
        match self {
            KidShapes::Uniform(t) => *t,
            KidShapes::Fields(fields) => fields[i].shape,
            KidShapes::Payload { fields, .. } => fields[i].shape,
        }
    }

    /// The field that holds the value at position `i`.
    pub(crate) fn field(&self, i: usize) -> (r: Option<&'a Field>)
        requires
            match self@ {
                Kids::Fields(fields) => i < fields.len(),
                Kids::Payload { fields, .. } => i < fields.len(),
                _ => true,
            },
        ensures
            field_view(r) == self@.owner(i as int),
    {
        match self {
            KidShapes::Uniform(_) => None,
            KidShapes::Fields(fields) => Some(&fields[i]),
            KidShapes::Payload { fields, .. } => Some(&fields[i]),
        }
    }

    /// Why the value at position `i` may not be written, if it may not.
    pub(crate) fn blocked(&self, i: usize) -> (r: Option<Error>)
        requires
            match self@ {
                Kids::Fields(fields) => i < fields.len(),
                Kids::Payload { fields, .. } => i < fields.len(),
                _ => true,
            },
        ensures
            r == self@.blocked(i as int),
    {
        match self {
            KidShapes::Payload { fields, tag, shape } => {
                if str_eq(fields[i].name.as_str(), tag.as_str()) {
                    Some(Error::ClobberedTypeTag(*shape))
                } else {
                    None
                }
            },
            _ => None,
        }
    }
}

/// Once the first values fail to marshal, marshalling more of them fails
/// in the same way.
pub proof fn lemma_items_failure_stays(
    env: Env,
    kids: Kids,
    vals: Seq<NativeV>,
    k: nat,
    n: nat,
    base: nat,
    table: Seq<Option<usize>>,
)
    requires
        1 <= k <= n <= vals.len(),
        marshal_items(env, kids, vals, k, base, table) is Err,
    ensures
        marshal_items(env, kids, vals, n, base, table) == marshal_items(
            env,
            kids,
            vals,
            k,
            base,
            table,
        ),
    decreases n - k,
{
    if k < n {
        lemma_items_failure_stays(env, kids, vals, k, (n - 1) as nat, base, table);
    }
}

/// Marshals the values `vals` in turn, each with the shape that `kids`
/// has for it, and returns what they became.
pub(crate) fn marshal_fields(
    schema: &Schema,
    memory: &Memory,
    kids: &KidShapes<'_>,
    vals: &Vec<Native>,
    heap: &mut Heap,
    state: &mut MarshalState<'_>,
) -> (r: Result<Vec<Value>, Error>)
    requires
        kids@.covers(vals.len() as nat),
    ensures
        final(state).constructors == old(state).constructors,
        match marshal_items(
            env_of(schema, memory, old(state)),
            kids@,
            natives_view(vals@),
            vals.len() as nat,
            old(heap)@.len(),
            old(state).pointers@,
        ) {
            Ok(m) => r is Ok && r->Ok_0@.len() == vals@.len() && values_view(r->Ok_0@) == m.values
                && final(heap)@ == old(heap)@ + m.objects && final(state).pointers@ == m.table
                && vacant(m.table) <= vacant(old(state).pointers@),
            Err(e) => r is Err && r->Err_0 == e && kept(old(heap)@, final(heap)@),
        },
    decreases vacant(old(state).pointers@), 1nat, 0nat, vals, 0nat, 0nat,
{
    let ghost env = env_of(schema, memory, state);
    let ghost heap0 = heap@;
    let ghost table0 = state.pointers@;
    let ghost views = natives_view(vals@);
    let ghost all = vals.len() as nat;
    let mut out: Vec<Value> = Vec::new();
    let mut i: usize = 0;
    assert(values_view(out@) =~= Seq::<ValueV>::empty());
    assert(heap@ =~= heap0 + Seq::<ObjectV>::empty());
    while i < vals.len()
        invariant
            i <= vals.len(),
            out@.len() == i,
            all == vals.len(),
            views == natives_view(vals@),
            kids@.covers(vals.len() as nat),
            env == env_of(schema, memory, state),
            state.constructors == old(state).constructors,
            table0 == old(state).pointers@,
            heap0 == old(heap)@,
            marshal_items(env, kids@, views, i as nat, heap0.len(), table0) is Ok,
            marshal_items(env, kids@, views, i as nat, heap0.len(), table0)->Ok_0.values
                == values_view(out@),
            heap@ == heap0 + marshal_items(
                env,
                kids@,
                views,
                i as nat,
                heap0.len(),
                table0,
            )->Ok_0.objects,
            marshal_items(env, kids@, views, i as nat, heap0.len(), table0)->Ok_0.table
                == state.pointers@,
            vacant(state.pointers@) <= vacant(table0),
        decreases vals.len() - i,
    {
        let ghost before = marshal_items(env, kids@, views, i as nat, heap0.len(), table0)->Ok_0;
        match kids.blocked(i) {
            Some(e) => {
                proof {
                    lemma_items_failure_stays(
                        env,
                        kids@,
                        views,
                        (i + 1) as nat,
                        all,
                        heap0.len(),
                        table0,
                    );
                }
                return Err(e);
            },
            None => {},
        }
        let kid = Peek { schema, memory, shape: kids.shape_of(i), value: &vals[i] };
        assert(views[i as int] == vals[i as int]@);
        assert(heap@.len() == heap0.len() + before.objects.len());
        match marshal_value(kid, heap, state, kids.field(i)) {
            Err(e) => {
                proof {
                    lemma_items_failure_stays(
                        env,
                        kids@,
                        views,
                        (i + 1) as nat,
                        all,
                        heap0.len(),
                        table0,
                    );
                }
                return Err(e);
            },
            Ok(value) => {
                let ghost prev = out@;
                out.push(value);
                proof {
                    let after = marshal_items(
                        env,
                        kids@,
                        views,
                        (i + 1) as nat,
                        heap0.len(),
                        table0,
                    )->Ok_0;
                    assert(values_view(out@) =~= values_view(prev).push(value@));
                    assert(heap@ =~= heap0 + after.objects);
                }
            },
        }
        i += 1;
    }
    Ok(out)
}

/// Marshals a native value to a value of the runtime.
///
/// A scalar is marshalled as such. An absent optional value becomes
/// `null`, a present one what it holds becomes. A smart pointer becomes
/// what its pointee becomes. A plain pointer is a string or a failure. An
/// enum without payload becomes its tag. Everything else becomes an
/// object: the container is made first and then filled.
pub fn marshal_value(
    peek: Peek<'_>,
    heap: &mut Heap,
    state: &mut MarshalState<'_>,
    field: Option<&Field>,
) -> (r: Result<Value, Error>)
    ensures
        final(state).constructors == old(state).constructors,
        marshalled(
            marshal_model(
                env_of(peek.schema, peek.memory, old(state)),
                peek.shape,
                peek.value@,
                field_view(field),
                old(heap)@.len(),
                old(state).pointers@,
            ),
            r,
            old(heap)@,
            final(heap)@,
            old(state).pointers@,
            final(state).pointers@,
        ),
    decreases
            vacant(old(state).pointers@),
            flag(*peek.schema, peek.shape),
            rank(*peek.schema, peek.shape),
            peek.value,
            3nat,
            0nat,
{
    let sid = peek.shape;
    if sid >= peek.schema.shapes.len() {
        return Err(Error::failed(sid, Operation::MalformedShape));
    }
    let shape = &peek.schema.shapes[sid];
    if shape.is_scalar() {
        let r = crate::marshal::scalar::scalar_to_v8(peek);
        assert(heap@ =~= old(heap)@ + Seq::<ObjectV>::empty());
        return r;
    }
    match shape.def {
        Def::Optional(t) => {
            if t >= sid {
                return Err(Error::failed(sid, Operation::MalformedShape));
            }
            match peek.value {
                Native::Optional(None) => {
                    assert(heap@ =~= old(heap)@ + Seq::<ObjectV>::empty());
                    Ok(Value::Null)
                },
                Native::Optional(Some(x)) => {
                    let inner = Peek {
                        schema: peek.schema,
                        memory: peek.memory,
                        shape: t,
                        value: &**x,
                    };
                    marshal_value(inner, heap, state, field)
                },
                _ => Err(Error::was_not_a(sid)),
            }
        },
        Def::Pointer { .. } => crate::marshal::pointer::marshal_smart_pointer(
            peek,
            heap,
            state,
            field,
        ),
        _ => match &shape.ty {
            Type::Pointer(pointer_type) => {
                let r = crate::marshal::pointer::marshal_pointer(peek, *pointer_type);
                assert(heap@ =~= old(heap)@ + Seq::<ObjectV>::empty());
                r
            },
            _ => {
                if let Type::User(UserType::Enum(e)) = &shape.ty {
                    if !will_serialize_as_object(e) {
                        let r = crate::marshal::enum_::marshal_enum_unit(peek, e);
                        assert(heap@ =~= old(heap)@ + Seq::<ObjectV>::empty());
                        return r;
                    }
                }
                if !will_marshal_as_object(peek.schema, sid) {
                    return Err(Error::failed(sid, Operation::UnsupportedType));
                }
                // From here on the value becomes an object, so the
                // constructors have a say.
                let object = match crate::marshal::object::create_object_for_shape(
                    peek,
                    heap,
                    state,
                    field,
                ) {
                    Ok(h) => h,
                    Err(e) => {
                        return Err(e);
                    },
                };
                let ghost made = heap@;
                let ghost created = create_model(
                    env_of(peek.schema, peek.memory, old(state)),
                    peek.shape,
                    peek.value@,
                    field_view(field),
                )->Ok_0;
                assert(made == old(heap)@.push(created));
                assert(made[object as int].body == created.body);
                match marshal_into_object(peek, heap, object, state) {
                    Ok(()) => {},
                    Err(e) => {
                        return Err(e);
                    },
                }
                proof {
                    let o = marshal_model(
                        env_of(peek.schema, peek.memory, old(state)),
                        peek.shape,
                        peek.value@,
                        field_view(field),
                        old(heap)@.len(),
                        old(state).pointers@,
                    )->Ok_0;
                    assert(heap@ =~= old(heap)@ + o.objects);
                }
                Ok(Value::Object(object))
            },
        },
    }
}

/// Fills the container `object` from a native value: a map, a set, a
/// sequence, a tuple, an enum with payload or a struct, each in its own
/// way. Fails where there is no such object.
pub fn marshal_into_object(
    peek: Peek<'_>,
    heap: &mut Heap,
    object: usize,
    state: &mut MarshalState<'_>,
) -> (r: Result<(), Error>)
    ensures
        final(state).constructors == old(state).constructors,
        object >= old(heap)@.len() ==> r == Err::<(), Error>(Error::Exception) && final(heap)@
            == old(heap)@,
        object < old(heap)@.len() ==> populated(
            populate_model(
                env_of(peek.schema, peek.memory, old(state)),
                peek.shape,
                peek.value@,
                old(heap)@[object as int].body,
                old(heap)@.len(),
                old(state).pointers@,
            ),
            r,
            object,
            old(heap)@,
            final(heap)@,
            old(state).pointers@,
            final(state).pointers@,
        ),
    decreases vacant(old(state).pointers@), 1nat, 0nat, peek.value, 2nat, 0nat,
{
    if object >= heap.len() {
        return Err(Error::Exception);
    }
    let sid = peek.shape;
    if sid >= peek.schema.shapes.len() {
        return Err(Error::failed(sid, Operation::MalformedShape));
    }
    let shape = &peek.schema.shapes[sid];
    match shape.def {
        Def::MapOf { key, value } => crate::marshal::map::marshal_map_into(
            peek,
            key,
            value,
            heap,
            object,
            state,
        ),
        Def::SetOf(t) => crate::marshal::set::marshal_set_into(peek, t, heap, object, state),
        Def::List(t) | Def::Array(t) | Def::Slice(t) => crate::marshal::array::marshal_list_object(
            peek,
            t,
            heap,
            object,
            state,
        ),
        _ => match &shape.ty {
            Type::User(UserType::Struct(s)) => {
                if let StructKind::Tuple = s.kind {
                    crate::marshal::array::marshal_tuple_object(
                        peek,
                        &s.fields,
                        heap,
                        object,
                        state,
                    )
                } else {
                    crate::marshal::object::marshal_struct(peek, &s.fields, heap, object, state)
                }
            },
            Type::User(UserType::Enum(e)) => crate::marshal::enum_::marshal_enum_object_into(
                peek,
                e,
                heap,
                object,
                state,
            ),
            _ => Err(Error::failed(sid, Operation::UnsupportedType)),
        },
    }
}

/// Marshals a native value to a value of the runtime, whose objects are
/// added to `heap`. No constructors are registered, so every container is
/// the runtime's own.
pub fn to_v8(heap: &mut Heap, peek: Peek<'_>) -> (r: Result<Value, Error>)
    ensures
        match marshal_model(
            Env {
                schema: *peek.schema,
                memory: peek.memory@,
                constructors: Map::<u64, crate::marshal::object::Constructor>::empty(),
            },
            peek.shape,
            peek.value@,
            None,
            old(heap)@.len(),
            crate::marshal::pointer::untouched(peek.memory@.len()),
        ) {
            Ok(o) => r is Ok && r->Ok_0@ == o.value && final(heap)@ == old(heap)@ + o.objects,
            Err(e) => r is Err && r->Err_0 == e,
        },
{
    let constructors = Constructors::new();
    to_v8_with_constructors(heap, peek, &constructors)
}

/// Marshals a native value to a value of the runtime, whose objects are
/// added to `heap`. The containers of a type for which a constructor is
/// registered are made by it.
pub fn to_v8_with_constructors(
    heap: &mut Heap,
    peek: Peek<'_>,
    constructors: &Constructors,
) -> (r: Result<Value, Error>)
    ensures
        match marshal_model(
            Env { schema: *peek.schema, memory: peek.memory@, constructors: constructors@ },
            peek.shape,
            peek.value@,
            None,
            old(heap)@.len(),
            crate::marshal::pointer::untouched(peek.memory@.len()),
        ) {
            Ok(o) => r is Ok && r->Ok_0@ == o.value && final(heap)@ == old(heap)@ + o.objects,
            Err(e) => r is Err && r->Err_0 == e,
        },
{
    let mut state = MarshalState {
        pointers: MarshalPointers::new(peek.memory.cells.len()),
        constructors,
    };
    marshal_value(peek, heap, &mut state, None)
}

/// A native value that is being built: its shape, and what it holds so
/// far.
#[derive(Debug, PartialEq, Eq)]
pub struct Partial {
    /// The shape of the value, by its index in the schema.
    pub shape: usize,
    /// The value, in which a place that was not set holds nothing.
    pub value: Native,
}

impl Partial {
    /// A value of the shape `shape` that holds nothing yet.
    pub fn alloc_shape(shape: usize) -> (r: Partial)
        ensures
            r.shape == shape,
            r.value@ == NativeV::Unset,
    {
        Partial { shape, value: Native::Unset }
    }

    /// The value, if it holds a value in every place.
    pub fn build(self) -> (r: Result<Native, Error>)
        ensures
            match r {
                Ok(v) => complete(self.value@) && v == self.value,
                Err(e) => !complete(self.value@) && e == Error::Reflect(
                    ReflectError::Uninitialized { shape: self.shape },
                ),
            },
    {
        if is_complete(&self.value) {
            Ok(self.value)
        } else {
            Err(Error::Reflect(ReflectError::Uninitialized { shape: self.shape }))
        }
    }
}

/// Whether every one of the values holds a value in every place.
fn all_complete(items: &Vec<Native>) -> (r: bool)
    ensures
        r == forall|i: int|
            0 <= i < items@.len() ==> complete(#[trigger] natives_view(items@)[i]),
    decreases items, 0nat,
{
    let ghost views = natives_view(items@);
    let mut i: usize = 0;
    while i < items.len()
        invariant
            i <= items.len(),
            views == natives_view(items@),
            forall|j: int| 0 <= j < i ==> complete(#[trigger] views[j]),
        decreases items.len() - i,
    {
        assert(views[i as int] == items@[i as int]@);
        if !is_complete(&items[i]) {
            return false;
        }
        i += 1;
    }
    true
}

/// Whether every one of the entries holds a value in every place.
fn all_pairs_complete(pairs: &Vec<(Native, Native)>) -> (r: bool)
    ensures
        r == forall|i: int|
            0 <= i < pairs@.len() ==> complete(
                (#[trigger] crate::marshal::map::native_pairs_view(pairs@)[i]).0,
            ) && complete(crate::marshal::map::native_pairs_view(pairs@)[i].1),
    decreases pairs, 0nat,
{
    let ghost views = crate::marshal::map::native_pairs_view(pairs@);
    let mut i: usize = 0;
    while i < pairs.len()
        invariant
            i <= pairs.len(),
            views == crate::marshal::map::native_pairs_view(pairs@),
            forall|j: int| 0 <= j < i ==> complete((#[trigger] views[j]).0) && complete(views[j].1),
        decreases pairs.len() - i,
    {
        assert(decreases_to!(*pairs => pairs[i as int]));
        assert(decreases_to!(pairs[i as int] => pairs[i as int].0));
        assert(decreases_to!(pairs[i as int] => pairs[i as int].1));
        assert(views[i as int] == (pairs@[i as int].0@, pairs@[i as int].1@));
        if !is_complete(&pairs[i].0) || !is_complete(&pairs[i].1) {
            return false;
        }
        i += 1;
    }
    true
}

/// Whether a native value holds a value in every place.
pub fn is_complete(v: &Native) -> (r: bool)
    ensures
        r == complete(v@),
    decreases v, 1nat,
{
    match v {
        Native::Unset => false,
        Native::Optional(Some(x)) => is_complete(x),
        Native::Owned(Some(x)) => is_complete(x),
        Native::List(items) => {
            let r = all_complete(items);
            assert(v@->List_0 =~= natives_view(items@));
            r
        },
        Native::SetOf(items) => {
            let r = all_complete(items);
            assert(v@->SetOf_0 =~= natives_view(items@));
            r
        },
        Native::Struct(items) => {
            let r = all_complete(items);
            assert(v@->Struct_0 =~= natives_view(items@));
            r
        },
        Native::Enum { variant, fields } => {
            let r = all_complete(fields);
            assert(v@->Enum_fields =~= natives_view(fields@));
            r
        },
        Native::MapOf(pairs) => {
            let r = all_pairs_complete(pairs);
            assert(v@->MapOf_0 =~= crate::marshal::map::native_pairs_view(pairs@));
            r
        },
        _ => true,
    }
}

/// Builds a native value of the shape `sid` from a value of the runtime.
/// Fails where the runtime value does not stand for such a value, or
/// leaves a place of it without a value.
pub fn from_v8(schema: &Schema, sid: usize, heap: &Heap, value: &Value) -> (r: Result<Native, Error>)
    ensures
        same_result(r, from_model(*schema, sid, heap@, value@)),
{
    let mut partial = Partial::alloc_shape(sid);
    match from_v8_partial(schema, heap, value, &mut partial) {
        Ok(()) => {},
        Err(e) => {
            return Err(e);
        },
    }
    partial.build()
}

/// Fills a value that is being built from a value of the runtime. Where
/// that fails, the value stays as it was.
pub fn from_v8_partial(schema: &Schema, heap: &Heap, value: &Value, partial: &mut Partial) -> (r:
    Result<(), Error>)
    ensures
        final(partial).shape == old(partial).shape,
        match unmarshal_model(*schema, old(partial).shape, heap@, value@, 0) {
            Ok(x) => r is Ok && final(partial).value@ == x,
            Err(e) => r is Err && r->Err_0 == e && final(partial).value == old(partial).value,
        },
{
    match unmarshal_value(schema, partial.shape, heap, value, 0) {
        Ok(v) => {
            partial.value = v;
            Ok(())
        },
        Err(e) => Err(e),
    }
}

/// Reads the native value of the shape `sid` that a runtime value stands
/// for, at the nesting depth `depth`.
///
/// A scalar is read as such. `null` and `undefined` are an absent
/// optional value, anything else a present one. A smart pointer is read
/// as a fresh pointer to its pointee; a weak one and a plain pointer
/// fail. An enum is read from its tag or from an object. Everything else
/// is read from an object.
pub fn unmarshal_value(schema: &Schema, sid: usize, heap: &Heap, value: &Value, depth: usize) -> (r:
    Result<Native, Error>)
    ensures
        same_result(r, unmarshal_model(*schema, sid, heap@, value@, depth as nat)),
    decreases heap@.len() - depth, sid + 1, 0nat, 0nat,
{
    if sid >= schema.shapes.len() {
        return Err(Error::failed(sid, Operation::MalformedShape));
    }
    if depth > heap.len() {
        return Err(Error::failed(sid, Operation::CyclicValue));
    }
    let shape = &schema.shapes[sid];
    if shape.is_scalar() {
        return crate::marshal::scalar::scalar_from_v8(schema, sid, heap, value);
    }
    match shape.def {
        Def::Optional(t) => {
            if t >= sid {
                return Err(Error::failed(sid, Operation::MalformedShape));
            }
            if value.is_null_or_undefined() {
                return Ok(Native::Optional(None));
            }
            match unmarshal_value(schema, t, heap, value, depth) {
                Ok(x) => Ok(Native::Optional(Some(Box::new(x)))),
                Err(e) => Err(e),
            }
        },
        Def::Pointer { .. } => crate::marshal::pointer::unmarshal_smart_pointer(
            schema,
            sid,
            heap,
            value,
            depth,
        ),
        _ => match &shape.ty {
            Type::Pointer(_) => crate::marshal::pointer::unmarshal_pointer(sid),
            Type::User(UserType::Enum(e)) => crate::marshal::enum_::unmarshal_enum(
                schema,
                sid,
                e,
                heap,
                value,
                depth,
            ),
            _ => match value {
                Value::Object(h) => unmarshal_object(schema, sid, heap, *h, depth),
                _ => Err(Error::unexpected(sid, crate::marshal::scalar::type_repr(heap, value))),
            },
        },
    }
}

/// Reads the native value of the shape `sid` that the object `h` stands
/// for: a map, a set, a sequence, a tuple or a struct.
pub fn unmarshal_object(schema: &Schema, sid: usize, heap: &Heap, h: usize, depth: usize) -> (r:
    Result<Native, Error>)
    ensures
        same_result(r, object_from_model(*schema, sid, heap@, h, depth as nat)),
    decreases heap@.len() - depth, 0nat, 3nat, 0nat,
{
    if sid >= schema.shapes.len() {
        return Err(Error::failed(sid, Operation::MalformedShape));
    }
    if h >= heap.len() {
        return Err(Error::Exception);
    }
    if depth >= heap.len() {
        return Err(Error::failed(sid, Operation::CyclicValue));
    }
    let shape = &schema.shapes[sid];
    match shape.def {
        Def::MapOf { key, value } => crate::marshal::map::unmarshal_map(
            schema,
            sid,
            key,
            value,
            heap,
            h,
            depth,
        ),
        Def::SetOf(t) => crate::marshal::set::unmarshal_set(schema, sid, t, heap, h, depth),
        Def::List(t) | Def::Array(t) | Def::Slice(t) => crate::marshal::array::unmarshal_list_object(
            schema,
            sid,
            t,
            heap,
            h,
            depth,
        ),
        _ => match &shape.ty {
            Type::User(UserType::Struct(s)) => {
                if let StructKind::Tuple = s.kind {
                    crate::marshal::array::unmarshal_tuple(schema, sid, &s.fields, heap, h, depth)
                } else {
                    crate::marshal::object::unmarshal_struct(
                        schema,
                        sid,
                        &s.fields,
                        heap,
                        h,
                        depth,
                    )
                }
            },
            _ => Err(Error::failed(sid, Operation::UnsupportedType)),
        },
    }
}

} // verus!
