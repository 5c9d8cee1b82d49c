//! Structs, and the constructors that make containers.

use crate::marshal::array::{array_of_holes, create_array_for_shape};
use crate::marshal::error::{Error, Operation};
use crate::marshal::heap::{with_body, Body, BodyV, Heap, Object, ObjectV, Origin};
use crate::marshal::model::{
    construct_model, create_model, default_body, set_fields, struct_model, vacant,
};
use crate::marshal::array::{fill_unset_fields_from_default, unset_places};
use crate::marshal::native::{natives_view, Native, NativeV};
use crate::marshal::reading::{field_position, struct_from_model, unmarshal_entries, Reading};
use crate::marshal::scalar::type_repr;
use crate::marshal::text::str_eq;
use crate::marshal::unmarshal_value;
use crate::marshal::shape::{
    field_view, marshals_as_object, Def, Field, Owner, Schema, StructKind, Type, UserType,
};
use crate::marshal::value::{entries_view, values_view, Key, KeyV, Value, ValueV};
use crate::marshal::{
    env_of, marshal_fields, populated, same_result, KidShapes, MarshalState, Peek,
};
use std::collections::HashMap;
use vstd::prelude::*;

verus! {

broadcast use vstd::std_specs::hash::group_hash_axioms;

/// How the containers of one type are made. What lives only in the runtime
/// (a prototype, a function, a template, a callback of the embedding) is
/// named by the number the embedding gave it.
#[derive(Clone, Copy, Debug, PartialEq, Eq, Structural)]
pub enum Constructor {
    /// An object that inherits from the prototype.
    Prototype(u64),
    /// An instance that the function constructs: from the number of
    /// elements for a sequence, from nothing otherwise.
    Function(u64),
    /// An instance of the template.
    ObjectTemplate(u64),
    /// What the callback returns.
    Custom(u64),
}

/// The constructors registered for types, by the identity of the type. A
/// type has at most one; a later registration replaces an earlier one.
pub struct Constructors {
    pub constructors: HashMap<u64, Constructor>,
}

impl View for Constructors {
    type V = Map<u64, Constructor>;

    open spec fn view(&self) -> Map<u64, Constructor> {
        self.constructors@
    }
}

/// The table after `constructor` is registered for the shape `sid`.
pub open spec fn registered(
    table: Map<u64, Constructor>,
    schema: Schema,
    sid: usize,
    constructor: Constructor,
) -> Map<u64, Constructor> {
    table.insert(schema.shapes[sid as int].id, constructor)
}

impl Constructors {
    /// A table without constructors.
    pub fn new() -> (r: Constructors)
        ensures
            r@ == Map::<u64, Constructor>::empty(),
    {
        Constructors { constructors: HashMap::new() }
    }

    /// The constructor registered for the type with the identity `id`.
    pub fn lookup(&self, id: u64) -> (r: Option<Constructor>)
        ensures
            r == (if self@.contains_key(id) {
                Some(self@[id])
            } else {
                None
            }),
    {
        match self.constructors.get(&id) {
            Some(c) => Some(*c),
            None => None,
        }
    }

    /// Registers `constructor` for the shape `sid`, in the place of what
    /// was registered for it before. The values of the shape must be such
    /// as become objects: for any other there is nothing to construct.
    pub fn register_constructor(&mut self, schema: &Schema, sid: usize, constructor: Constructor)
        requires
            marshals_as_object(*schema, sid),
        ensures
            final(self)@ == registered(old(self)@, *schema, sid, constructor),
    {
        let id = schema.shapes[sid].id;
        self.constructors.insert(id, constructor);
    }

    /// Makes the containers of the shape `sid`, whose values become
    /// objects, inherit from a prototype.
    pub fn with_prototype(&mut self, schema: &Schema, sid: usize, prototype: u64)
        requires
            marshals_as_object(*schema, sid),
        ensures
            final(self)@ == registered(old(self)@, *schema, sid, Constructor::Prototype(prototype)),
    {
        self.register_constructor(schema, sid, Constructor::Prototype(prototype))
    }

    /// Makes a function construct the containers of the shape `sid`, whose
    /// values become objects. For a tuple and a sequence the function is
    /// given the number of elements.
    pub fn with_constructor(&mut self, schema: &Schema, sid: usize, constructor: u64)
        requires
            marshals_as_object(*schema, sid),
        ensures
            final(self)@ == registered(old(self)@, *schema, sid, Constructor::Function(constructor)),
    {
        self.register_constructor(schema, sid, Constructor::Function(constructor))
    }

    /// Makes the containers of the shape `sid`, whose values become
    /// objects, instances of a template.
    pub fn with_object_template(&mut self, schema: &Schema, sid: usize, object_template: u64)
        requires
            marshals_as_object(*schema, sid),
        ensures
            final(self)@ == registered(
                old(self)@,
                *schema,
                sid,
                Constructor::ObjectTemplate(object_template),
            ),
    {
        self.register_constructor(schema, sid, Constructor::ObjectTemplate(object_template))
    }

    /// Makes a callback of the embedding return the containers of the
    /// shape `sid`, whose values become objects.
    pub fn with_custom_constructor(&mut self, schema: &Schema, sid: usize, custom_constructor: u64)
        requires
            marshals_as_object(*schema, sid),
        ensures
            final(self)@ == registered(
                old(self)@,
                *schema,
                sid,
                Constructor::Custom(custom_constructor),
            ),
    {
        self.register_constructor(schema, sid, Constructor::Custom(custom_constructor))
    }
}

/// The number of elements as the model counts it.
pub open spec fn len_model(len: Option<usize>) -> Option<nat> {
    match len {
        Some(n) => Some(n as nat),
        None => None,
    }
}

/// The empty container that the runtime makes for values of a shape where
/// nothing else is asked for.
fn default_container(def: Def, len: Option<usize>) -> (r: Body)
    ensures
        r@ == default_body(def, len_model(len)),
{
    match len {
        Some(n) => Body::Array(array_of_holes(n)),
        None => match def {
            Def::MapOf { .. } => {
                let pairs: Vec<(Value, Value)> = Vec::new();
                assert(crate::marshal::value::pairs_view(pairs@) =~= Seq::empty());
                Body::MapOf(pairs)
            },
            Def::SetOf(_) => {
                let items: Vec<Value> = Vec::new();
                assert(values_view(items@) =~= Seq::empty());
                Body::SetOf(items)
            },
            _ => {
                let entries: Vec<(Key, Value)> = Vec::new();
                assert(entries_view(entries@) =~= Seq::empty());
                Body::Plain(entries)
            },
        },
    }
}

/// An object without properties.
fn empty_plain(origin: Origin) -> (r: Object)
    ensures
        r@ == (ObjectV { origin: origin@, body: BodyV::Plain(Seq::empty()) }),
{
    let entries: Vec<(Key, Value)> = Vec::new();
    assert(entries_view(entries@) =~= Seq::empty());
    Object { origin, body: Body::Plain(entries) }
}

impl Constructor {
    /// Makes the container for the native value `value` of the shape
    /// `sid`, whose definition is `def`, which has `len` elements where it
    /// is a tuple or a sequence, and which `field` holds. A prototype and
    /// a template give plain objects, and a template gives none for a
    /// tuple or a sequence. A function is given the number of elements,
    /// and fails where that is more than a 32-bit number holds; a callback
    /// is given the value and what is told of the field. Function and
    /// callback are taken to give the class of container that the shape
    /// needs.
    pub fn construct(
        &self,
        sid: usize,
        def: Def,
        len: Option<usize>,
        value: &Native,
        field: Option<&Field>,
    ) -> (r: Result<Object, Error>)
        ensures
            same_result(
                r,
                construct_model(*self, sid, def, len_model(len), value@, field_view(field)),
            ),
    {
        match self {
            Constructor::Prototype(p) => Ok(empty_plain(Origin::Prototype(*p))),
            Constructor::Function(f) => {
                let count: Option<u32> = match len {
                    Some(n) => {
                        if n > 0xffff_ffff {
                            return Err(Error::failed(sid, Operation::CountRange));
                        }
                        Some(n as u32)
                    },
                    None => None,
                };
                Ok(
                    Object {
                        origin: Origin::Function { function: *f, len: count },
                        body: default_container(def, len),
                    },
                )
            },
            Constructor::ObjectTemplate(t) => {
                if len.is_some() {
                    Err(Error::failed(sid, Operation::TemplateForSequence))
                } else {
                    Ok(empty_plain(Origin::Template(*t)))
                }
            },
            Constructor::Custom(c) => {
                let told: Option<Owner> = match field {
                    Some(f) => Some(f.owner()),
                    None => None,
                };
                Ok(
                    Object {
                        origin: Origin::Custom {
                            callback: *c,
                            value: value.duplicate(),
                            field: told,
                        },
                        body: default_container(def, len),
                    },
                )
            },
        }
    }
}

/// Makes the empty container for a value and returns its handle. The
/// constructor registered for the type makes it, and is told the number
/// of elements of a tuple or a sequence. Where none is registered, a
/// tuple gets an array of its length, a sequence an array or a typed
/// array, a map a map, a set a set, and anything else a plain object.
pub fn create_object_for_shape(
    peek: Peek<'_>,
    heap: &mut Heap,
    state: &MarshalState<'_>,
    field: Option<&Field>,
) -> (r: Result<usize, Error>)
    ensures
        match create_model(
            env_of(peek.schema, peek.memory, state),
            peek.shape,
            peek.value@,
            field_view(field),
        ) {
            Ok(o) => r is Ok && r->Ok_0 == old(heap)@.len() && final(heap)@ == old(heap)@.push(o),
            Err(e) => r == Err::<usize, Error>(e) && final(heap)@ == old(heap)@,
        },
{
    let sid = peek.shape;
    if sid >= peek.schema.shapes.len() {
        return Err(Error::failed(sid, Operation::MalformedShape));
    }
    let shape = &peek.schema.shapes[sid];
    // A tuple and a sequence have a length, which a constructor may want
    // to know.
    let tuple: Option<usize> = match &shape.ty {
        Type::User(UserType::Struct(s)) => match s.kind {
            StructKind::Tuple => Some(s.fields.len()),
            _ => None,
        },
        _ => None,
    };
    let elem = shape.list_elem();
    let len: Option<usize> = match tuple {
        Some(n) => Some(n),
        None => match elem {
            Some(_) => match peek.value {
                Native::List(items) => Some(items.len()),
                Native::Contiguous(b) => Some(b.bits.len()),
                _ => {
                    return Err(Error::was_not_a(sid));
                },
            },
            None => None,
        },
    };
    match state.constructors.lookup(shape.id) {
        Some(c) => match c.construct(sid, shape.def, len, peek.value, field) {
            Ok(object) => Ok(heap.create(object)),
            Err(e) => Err(e),
        },
        None => match (tuple, elem, len) {
            (Some(n), _, _) => {
                // A tuple becomes an array of its length.
                let object = Object {
                    origin: Origin::Runtime,
                    body: Body::Array(array_of_holes(n)),
                };
                Ok(heap.create(object))
            },
            (None, Some(t), Some(n)) => create_array_for_shape(heap, peek.schema, n, t, field),
            (None, Some(_), None) => Err(Error::was_not_a(sid)),
            (None, None, _) => {
                let object = Object {
                    origin: Origin::Runtime,
                    body: default_container(shape.def, None),
                };
                Ok(heap.create(object))
            },
        },
    }
}

/// Sets the properties named by `fields` to `values`, in order.
pub(crate) fn store_fields(heap: &mut Heap, object: usize, fields: &Vec<Field>, values: &Vec<Value>)
    requires
        object < old(heap)@.len(),
        old(heap)@[object as int].body is Plain,
        fields.len() == values.len(),
    ensures
        final(heap)@ == with_body(
            old(heap)@,
            object as int,
            BodyV::Plain(
                set_fields(
                    old(heap)@[object as int].body->Plain_0,
                    fields@,
                    values_view(values@),
                    fields.len() as nat,
                ),
            ),
        ),
{
    let ghost heap0 = heap@;
    let ghost entries0 = heap0[object as int].body->Plain_0;
    let mut i: usize = 0;
    assert(heap@ =~= with_body(heap0, object as int, BodyV::Plain(entries0)));
    while i < fields.len()
        invariant
            i <= fields.len(),
            fields.len() == values.len(),
            object < heap0.len(),
            heap0[object as int].body == BodyV::Plain(entries0),
            heap@ == with_body(
                heap0,
                object as int,
                BodyV::Plain(set_fields(entries0, fields@, values_view(values@), i as nat)),
            ),
        decreases fields.len() - i,
    {
        let _ = heap.set(object, Key::Name(fields[i].name.clone()), values[i].duplicate());
        assert(values_view(values@)[i as int] == values@[i as int]@);
        assert(heap@ =~= with_body(
            heap0,
            object as int,
            BodyV::Plain(set_fields(entries0, fields@, values_view(values@), (i + 1) as nat)),
        ));
        i += 1;
    }
}

/// Fills the object of a struct: each field is marshalled and set under
/// its name, in declaration order.
pub fn marshal_struct(
    peek: Peek<'_>,
    fields: &Vec<Field>,
    heap: &mut Heap,
    obj: usize,
    state: &mut MarshalState<'_>,
) -> (r: Result<(), Error>)
    ensures
        final(state).constructors == old(state).constructors,
        obj >= old(heap)@.len() ==> r == Err::<(), Error>(Error::Exception) && final(heap)@
            == old(heap)@,
        obj < old(heap)@.len() ==> populated(
            struct_model(
                env_of(peek.schema, peek.memory, old(state)),
                peek.shape,
                fields@,
                peek.value@,
                old(heap)@[obj as int].body,
                old(heap)@.len(),
                old(state).pointers@,
            ),
            r,
            obj,
            old(heap)@,
            final(heap)@,
            old(state).pointers@,
            final(state).pointers@,
        ),
    decreases vacant(old(state).pointers@), 1nat, 0nat, peek.value, 1nat, 0nat,
{
    if obj >= heap.len() {
        return Err(Error::Exception);
    }
    let sid = peek.shape;
    let vals = match peek.value {
        Native::Struct(vals) => vals,
        _ => {
            return Err(Error::was_not_a(sid));
        },
    };
    assert(peek.value@->Struct_0 =~= natives_view(vals@));
    if vals.len() != fields.len() {
        return Err(Error::was_not_a(sid));
    }
    match &heap.objects[obj].body {
        Body::Plain(_) => {},
        _ => {
            return Err(Error::failed(sid, Operation::ContainerMismatch));
        },
    }
    let kids = KidShapes::Fields(fields);
    let values = match marshal_fields(peek.schema, peek.memory, &kids, vals, heap, state) {
        Ok(values) => values,
        Err(e) => {
            return Err(e);
        },
    };
    store_fields(heap, obj, fields, &values);
    proof {
        let f = struct_model(
            env_of(peek.schema, peek.memory, old(state)),
            peek.shape,
            fields@,
            peek.value@,
            old(heap)@[obj as int].body,
            old(heap)@.len(),
            old(state).pointers@,
        )->Ok_0;
        assert(heap@ =~= with_body(old(heap)@, obj as int, f.body) + f.objects);
    }
    Ok(())
}

/// How the properties of an object are read into fields.
pub enum ReadingMode<'a> {
    /// As the fields of a struct.
    Named,
    /// As the payload of a variant of an enum with this tag.
    Payload(&'a String),
}

impl<'a> View for ReadingMode<'a> {
    type V = Reading;

    open spec fn view(&self) -> Reading {
        match self {
            ReadingMode::Named => Reading::Named,
            ReadingMode::Payload(tag) => Reading::Payload(tag@),
        }
    }
}

/// The first position of a field with the name, or the number of fields
/// where none has it.
pub fn field_index(fields: &Vec<Field>, name: &str) -> (p: usize)
    ensures
        p == field_position(fields@, name@, 0),
        p <= fields@.len(),
{
    let mut i: usize = 0;
    while i < fields.len()
        invariant
            i <= fields.len(),
            field_position(fields@, name@, 0) == field_position(fields@, name@, i as int),
        decreases fields.len() - i,
    {
        if str_eq(fields[i].name.as_str(), name) {
            return i;
        }
        i += 1;
    }
    i
}

/// Once the first properties fail to be read, reading more of them fails
/// in the same way.
pub proof fn lemma_read_entries_failure_stays(
    schema: Schema,
    sid: usize,
    fields: Seq<Field>,
    reading: Reading,
    heap: Seq<ObjectV>,
    entries: Seq<(KeyV, ValueV)>,
    k: nat,
    n: nat,
    depth: nat,
)
    requires
        1 <= k <= n <= entries.len(),
        depth < heap.len(),
        unmarshal_entries(schema, sid, fields, reading, heap, entries, k, depth) is Err,
    ensures
        unmarshal_entries(schema, sid, fields, reading, heap, entries, n, depth)
            == unmarshal_entries(schema, sid, fields, reading, heap, entries, k, depth),
    decreases n - k,
{
    if k < n {
        lemma_read_entries_failure_stays(
            schema,
            sid,
            fields,
            reading,
            heap,
            entries,
            k,
            (n - 1) as nat,
            depth,
        );
    }
}

/// Reads the properties `entries`, which lie one level below `depth`,
/// into the places of the fields `fields`, in order. A property whose
/// name is that of a field is read into the first such field, with its
/// shape; one whose name is no field's is passed over.
pub(crate) fn unmarshal_properties(
    schema: &Schema,
    sid: usize,
    fields: &Vec<Field>,
    reading: &ReadingMode<'_>,
    heap: &Heap,
    entries: &Vec<(Key, Value)>,
    depth: usize,
) -> (r: Result<Vec<Native>, Error>)
    requires
        depth < heap@.len(),
    ensures
        match unmarshal_entries(
            *schema,
            sid,
            fields@,
            reading@,
            heap@,
            entries_view(entries@),
            entries@.len(),
            depth as nat,
        ) {
            Ok(slots) => r is Ok && natives_view(r->Ok_0@) == slots,
            Err(e) => r is Err && r->Err_0 == e,
        },
    decreases heap@.len() - depth, 0nat, 1nat, 0nat,
{
    let ghost ev = entries_view(entries@);
    let limit = heap.len();
    let mut slots = unset_places(fields.len());
    let mut i: usize = 0;
    while i < entries.len()
        invariant
            i <= entries.len(),
            depth < heap@.len() <= usize::MAX,
            ev == entries_view(entries@),
            slots@.len() == fields@.len(),
            unmarshal_entries(
                *schema,
                sid,
                fields@,
                reading@,
                heap@,
                ev,
                i as nat,
                depth as nat,
            ) == Ok::<Seq<NativeV>, Error>(natives_view(slots@)),
        decreases entries.len() - i,
    {
        assert(ev[i as int] == (entries@[i as int].0@, entries@[i as int].1@));
        let at: usize = match &entries[i].0 {
            Key::Index(index) => match reading {
                ReadingMode::Named => fields.len(),
                ReadingMode::Payload(_) => {
                    if (*index as usize) < fields.len() {
                        *index as usize
                    } else {
                        proof {
                            lemma_read_entries_failure_stays(
                                *schema,
                                sid,
                                fields@,
                                reading@,
                                heap@,
                                ev,
                                (i + 1) as nat,
                                entries@.len(),
                                depth as nat,
                            );
                        }
                        return Err(Error::failed(sid, Operation::FieldOutOfRange));
                    }
                },
            },
            Key::Name(name) => {
                let is_tag = match reading {
                    ReadingMode::Named => false,
                    ReadingMode::Payload(tag) => str_eq(name.as_str(), tag.as_str()),
                };
                if is_tag {
                    fields.len()
                } else {
                    field_index(fields, name.as_str())
                }
            },
            Key::Symbol(_) => match reading {
                ReadingMode::Named => fields.len(),
                ReadingMode::Payload(_) => {
                    proof {
                        lemma_read_entries_failure_stays(
                            *schema,
                            sid,
                            fields@,
                            reading@,
                            heap@,
                            ev,
                            (i + 1) as nat,
                            entries@.len(),
                            depth as nat,
                        );
                    }
                    return Err(Error::failed(sid, Operation::EnumKeyKind));
                },
            },
        };
        if at < fields.len() {
            match unmarshal_value(schema, fields[at].shape, heap, &entries[i].1, depth + 1) {
                Ok(x) => {
                    let ghost prev = slots@;
                    slots[at] = x;
                    assert(natives_view(slots@) =~= natives_view(prev).update(at as int, x@));
                },
                Err(e) => {
                    proof {
                        lemma_read_entries_failure_stays(
                            *schema,
                            sid,
                            fields@,
                            reading@,
                            heap@,
                            ev,
                            (i + 1) as nat,
                            entries@.len(),
                            depth as nat,
                        );
                    }
                    return Err(e);
                },
            }
        }
        i += 1;
    }
    Ok(slots)
}

/// Reads the native struct of the shape `sid` that the object `h` stands
/// for: the object must have properties; each property that names a
/// field is read into it, any other is passed over, and a field that was
/// not set takes its default, where it has one.
pub fn unmarshal_struct(
    schema: &Schema,
    sid: usize,
    fields: &Vec<Field>,
    heap: &Heap,
    h: usize,
    depth: usize,
) -> (r: Result<Native, Error>)
    ensures
        same_result(r, struct_from_model(*schema, sid, fields@, heap@, h, depth as nat)),
    decreases heap@.len() - depth, 0nat, 2nat, 0nat,
{
    let object = match heap.get(h) {
        Some(o) => o,
        None => {
            return Err(Error::Exception);
        },
    };
    if depth >= heap.len() {
        return Err(Error::failed(sid, Operation::CyclicValue));
    }
    let entries = match &object.body {
        Body::Plain(entries) => entries,
        _ => {
            return Err(Error::unexpected(sid, type_repr(heap, &Value::Object(h))));
        },
    };
    let reading = ReadingMode::Named;
    let mut slots = match unmarshal_properties(schema, sid, fields, &reading, heap, entries, depth) {
        Ok(slots) => slots,
        Err(e) => {
            return Err(e);
        },
    };
    fill_unset_fields_from_default(fields, &mut slots);
    let r = Native::Struct(slots);
    assert(r@->Struct_0 =~= natives_view(slots@));
    Ok(r)
}

} // verus!
