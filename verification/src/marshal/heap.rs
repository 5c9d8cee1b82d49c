//! The objects of the runtime and what can be done to them.

use crate::marshal::error::Error;
use crate::marshal::native::{Buffer, BufferV, Native, NativeV};
use crate::marshal::shape::{Owner, OwnerV};
use crate::marshal::value::{entries_view, pairs_view, values_view, Key, KeyV, Value, ValueV};
use vstd::prelude::*;

verus! {

/// How the runtime is to make a container before it is filled. A value
/// that lives only in the runtime (a prototype, a function, a template, a
/// callback) is named by the number the embedding gave it.
#[derive(Debug, PartialEq, Eq)]
pub enum Origin {
    /// The runtime's own empty object, array, map, set or typed array.
    Runtime,
    /// An object that inherits from this prototype.
    Prototype(u64),
    /// The instance that this function constructs, from the number of
    /// elements where the value is a tuple or a sequence and from nothing
    /// otherwise.
    Function { function: u64, len: Option<u32> },
    /// An instance of this template.
    Template(u64),
    /// What this callback of the embedding returns, which is given the
    /// native value that the container is for and what is told of the
    /// field that holds the value, if a field holds it.
    Custom { callback: u64, value: Native, field: Option<Owner> },
}

pub enum OriginV {
    Runtime,
    Prototype(u64),
    Function { function: u64, len: Option<u32> },
    Template(u64),
    Custom { callback: u64, value: NativeV, field: Option<OwnerV> },
}

impl View for Origin {
    type V = OriginV;

    open spec fn view(&self) -> OriginV {
        match self {
            Origin::Runtime => OriginV::Runtime,
            Origin::Prototype(p) => OriginV::Prototype(*p),
            Origin::Function { function, len } => OriginV::Function {
                function: *function,
                len: *len,
            },
            Origin::Template(t) => OriginV::Template(*t),
            Origin::Custom { callback, value, field } => OriginV::Custom {
                callback: *callback,
                value: value@,
                field: match field {
                    Some(o) => Some(o@),
                    None => None,
                },
            },
        }
    }
}

/// What a container holds.
#[derive(Debug, PartialEq, Eq)]
pub enum Body {
    /// Properties, in the order they were first set.
    Plain(Vec<(Key, Value)>),
    /// Elements by index.
    Array(Vec<Value>),
    /// The entries that were set, one for each time, in that order. Which
    /// keys are one key is the runtime's to say, by the numbers that the
    /// keys stand for: where a key is set again, both entries stand here,
    /// and the runtime keeps the later value.
    MapOf(Vec<(Value, Value)>),
    /// The members that were added, one for each time, in that order.
    /// Where a member is added again, it stands here twice, and the
    /// runtime holds it once.
    SetOf(Vec<Value>),
    /// A typed array.
    Typed(Buffer),
}

pub enum BodyV {
    Plain(Seq<(KeyV, ValueV)>),
    Array(Seq<ValueV>),
    MapOf(Seq<(ValueV, ValueV)>),
    SetOf(Seq<ValueV>),
    Typed(BufferV),
}

impl View for Body {
    type V = BodyV;

    open spec fn view(&self) -> BodyV {
        match self {
            Body::Plain(entries) => BodyV::Plain(entries_view(entries@)),
            Body::Array(items) => BodyV::Array(values_view(items@)),
            Body::MapOf(pairs) => BodyV::MapOf(pairs_view(pairs@)),
            Body::SetOf(items) => BodyV::SetOf(values_view(items@)),
            Body::Typed(b) => BodyV::Typed(b@),
        }
    }
}

/// A container of the runtime.
#[derive(Debug, PartialEq, Eq)]
pub struct Object {
    pub origin: Origin,
    pub body: Body,
}

pub struct ObjectV {
    pub origin: OriginV,
    pub body: BodyV,
}

impl View for Object {
    type V = ObjectV;

    open spec fn view(&self) -> ObjectV {
        ObjectV { origin: self.origin@, body: self.body@ }
    }
}

/// The objects of the runtime. The handle of an object is its index.
#[derive(Debug, PartialEq, Eq)]
pub struct Heap {
    pub objects: Vec<Object>,
}

impl View for Heap {
    type V = Seq<ObjectV>;

    open spec fn view(&self) -> Seq<ObjectV> {
        self.objects@.map_values(|o: Object| o@)
    }
}

/// The first position at or after `from` whose entry has the key, or the
/// length where none has.
pub open spec fn position(entries: Seq<(KeyV, ValueV)>, key: KeyV, from: int) -> int
    decreases entries.len() - from,
{
    if from >= entries.len() || from < 0 {
        entries.len() as int
    } else if entries[from].0 == key {
        from
    } else {
        position(entries, key, from + 1)
    }
}

/// The entries after `key` is set to `value`: the entry that has the key
/// takes the value, and where none has, a new entry is appended.
pub open spec fn with_property(entries: Seq<(KeyV, ValueV)>, key: KeyV, value: ValueV) -> Seq<
    (KeyV, ValueV),
> {
    let p = position(entries, key, 0);
    if p < entries.len() {
        entries.update(p, (key, value))
    } else {
        entries.push((key, value))
    }
}

/// The elements after the one at `index` is set: an array grows, with
/// `undefined` in the places between, where the index lies past its end.
pub open spec fn with_index(items: Seq<ValueV>, index: int, value: ValueV) -> Seq<ValueV> {
    if index < items.len() {
        items.update(index, value)
    } else {
        (items + Seq::new((index - items.len()) as nat, |i: int| ValueV::Undefined)).push(value)
    }
}

/// The body after the property `key` is set, where the container has
/// properties.
pub open spec fn body_set(body: BodyV, key: KeyV, value: ValueV) -> Option<BodyV> {
    match body {
        BodyV::Plain(entries) => Some(BodyV::Plain(with_property(entries, key, value))),
        _ => None,
    }
}

/// The body after the element at `index` is set, where the container is an
/// array or has properties.
pub open spec fn body_set_index(body: BodyV, index: u32, value: ValueV) -> Option<BodyV> {
    match body {
        BodyV::Plain(entries) => Some(
            BodyV::Plain(with_property(entries, KeyV::Index(index), value)),
        ),
        BodyV::Array(items) => Some(BodyV::Array(with_index(items, index as int, value))),
        _ => None,
    }
}

/// The body after an entry is set, where the container is a map: the
/// entry comes behind those that were set before.
pub open spec fn body_map_set(body: BodyV, key: ValueV, value: ValueV) -> Option<BodyV> {
    match body {
        BodyV::MapOf(pairs) => Some(BodyV::MapOf(pairs.push((key, value)))),
        _ => None,
    }
}

/// The body after a member is added, where the container is a set: the
/// member comes behind those that were added before.
pub open spec fn body_add(body: BodyV, value: ValueV) -> Option<BodyV> {
    match body {
        BodyV::SetOf(items) => Some(BodyV::SetOf(items.push(value))),
        _ => None,
    }
}

/// The heap whose object `h` has the body `body`.
pub open spec fn with_body(heap: Seq<ObjectV>, h: int, body: BodyV) -> Seq<ObjectV> {
    heap.update(h, ObjectV { origin: heap[h].origin, body })
}

/// What an operation on the body of the object `h` leaves: the heap with
/// the new body, or the failure the runtime signals where there is no such
/// object or its class has no such operation.
pub open spec fn applied(heap: Seq<ObjectV>, h: usize, body: Option<BodyV>) -> Result<
    Seq<ObjectV>,
    Error,
> {
    if h < heap.len() && body is Some {
        Ok(with_body(heap, h as int, body->Some_0))
    } else {
        Err(Error::Exception)
    }
}

/// The first position whose entry has the key, or the length where none
/// has.
pub fn find_key(entries: &Vec<(Key, Value)>, key: &Key) -> (p: usize)
    ensures
        p == position(entries_view(entries@), key@, 0),
{
    let mut i: usize = 0;
    while i < entries.len()
        invariant
            i <= entries.len(),
            position(entries_view(entries@), key@, 0) == position(
                entries_view(entries@),
                key@,
                i as int,
            ),
        decreases entries.len() - i,
    {
        if entries[i].0.same(key) {
            assert(entries_view(entries@)[i as int].0 == key@);
            return i;
        }
        assert(entries_view(entries@)[i as int].0 != key@);
        i += 1;
    }
    i
}

impl Body {
    /// Sets the property `key`. Fails where the container has no
    /// properties.
    pub fn set(&mut self, key: Key, value: Value) -> (r: Result<(), Error>)
        ensures
            match body_set(old(self)@, key@, value@) {
                Some(b) => r is Ok && final(self)@ == b,
                None => r == Err::<(), Error>(Error::Exception) && final(self)@ == old(self)@,
            },
    {
        match self {
            Body::Plain(entries) => {
                let ghost before = entries@;
                let p = find_key(entries, &key);
                if p < entries.len() {
                    entries[p] = (key, value);
                    assert(entries_view(entries@) =~= entries_view(before).update(
                        p as int,
                        (key@, value@),
                    ));
                } else {
                    entries.push((key, value));
                    assert(entries_view(entries@) =~= entries_view(before).push((key@, value@)));
                }
                Ok(())
            },
            _ => Err(Error::Exception),
        }
    }

    /// Sets the element at `index`. Fails where the container is neither an
    /// array nor has properties.
    pub fn set_index(&mut self, index: u32, value: Value) -> (r: Result<(), Error>)
        ensures
            match body_set_index(old(self)@, index, value@) {
                Some(b) => r is Ok && final(self)@ == b,
                None => r == Err::<(), Error>(Error::Exception) && final(self)@ == old(self)@,
            },
    {
        match self {
            Body::Array(items) => {
                let ghost before = items@;
                let at = index as usize;
                if at < items.len() {
                    items[at] = value;
                    assert(values_view(items@) =~= with_index(
                        values_view(before),
                        index as int,
                        value@,
                    ));
                } else {
                    while items.len() < at
                        invariant
                            before.len() <= items.len() <= at,
                            at == index,
                            values_view(items@) =~= values_view(before) + Seq::new(
                                (items.len() - before.len()) as nat,
                                |i: int| ValueV::Undefined,
                            ),
                        decreases at - items.len(),
                    {
                        let ghost prev = items@;
                        items.push(Value::Undefined);
                        assert(values_view(items@) =~= values_view(prev).push(ValueV::Undefined));
                    }
                    let ghost prev = items@;
                    items.push(value);
                    assert(values_view(items@) =~= values_view(prev).push(value@));
                    assert(values_view(items@) =~= with_index(
                        values_view(before),
                        index as int,
                        value@,
                    ));
                }
                Ok(())
            },
            Body::Plain(_) => self.set(Key::Index(index), value),
            _ => Err(Error::Exception),
        }
    }

    /// Sets an entry of a map, behind those that were set before. Fails
    /// where the container is no map.
    pub fn map_set(&mut self, key: Value, value: Value) -> (r: Result<(), Error>)
        ensures
            match body_map_set(old(self)@, key@, value@) {
                Some(b) => r is Ok && final(self)@ == b,
                None => r == Err::<(), Error>(Error::Exception) && final(self)@ == old(self)@,
            },
    {
        match self {
            Body::MapOf(pairs) => {
                let ghost before = pairs@;
                pairs.push((key, value));
                assert(pairs_view(pairs@) =~= pairs_view(before).push((key@, value@)));
                Ok(())
            },
            _ => Err(Error::Exception),
        }
    }

    /// Adds a member to a set, behind those that were added before. Fails
    /// where the container is no set.
    pub fn add(&mut self, value: Value) -> (r: Result<(), Error>)
        ensures
            match body_add(old(self)@, value@) {
                Some(b) => r is Ok && final(self)@ == b,
                None => r == Err::<(), Error>(Error::Exception) && final(self)@ == old(self)@,
            },
    {
        match self {
            Body::SetOf(items) => {
                let ghost before = items@;
                items.push(value);
                assert(values_view(items@) =~= values_view(before).push(value@));
                Ok(())
            },
            _ => Err(Error::Exception),
        }
    }
}

impl Heap {
    /// A heap without objects.
    pub fn new() -> (r: Heap)
        ensures
            r@ == Seq::<ObjectV>::empty(),
    {
        let r = Heap { objects: Vec::new() };
        assert(r@ =~= Seq::<ObjectV>::empty());
        r
    }

    /// The number of objects.
    pub fn len(&self) -> (r: usize)
        ensures
            r == self@.len(),
    {
        self.objects.len()
    }

    /// The object with the handle `h`.
    pub fn get(&self, h: usize) -> (r: Option<&Object>)
        ensures
            match r {
                Some(o) => h < self@.len() && o@ == self@[h as int],
                None => h >= self@.len(),
            },
    {
        if h < self.objects.len() {
            Some(&self.objects[h])
        } else {
            None
        }
    }

    /// Adds an object and returns its handle.
    pub fn create(&mut self, object: Object) -> (h: usize)
        ensures
            h == old(self)@.len(),
            final(self)@ == old(self)@.push(object@),
    {
        let h = self.objects.len();
        self.objects.push(object);
        assert(self@ =~= old(self)@.push(object@));
        h
    }

    /// Sets the property `key` of the object `h`.
    pub fn set(&mut self, h: usize, key: Key, value: Value) -> (r: Result<(), Error>)
        ensures
            match applied(old(self)@, h, body_set(old(self)@[h as int].body, key@, value@)) {
                Ok(heap) => r is Ok && final(self)@ == heap,
                Err(e) => r == Err::<(), Error>(e) && final(self)@ == old(self)@,
            },
    {
        if h >= self.objects.len() {
            return Err(Error::Exception);
        }
        let r = self.objects[h].body.set(key, value);
        proof {
            if r is Ok {
                assert(self@ =~= with_body(old(self)@, h as int, self.objects@[h as int].body@));
            } else {
                assert(self@ =~= old(self)@);
            }
        }
        r
    }

    /// Sets the element at `index` of the object `h`.
    pub fn set_index(&mut self, h: usize, index: u32, value: Value) -> (r: Result<(), Error>)
        ensures
            match applied(
                old(self)@,
                h,
                body_set_index(old(self)@[h as int].body, index, value@),
            ) {
                Ok(heap) => r is Ok && final(self)@ == heap,
                Err(e) => r == Err::<(), Error>(e) && final(self)@ == old(self)@,
            },
    {
        if h >= self.objects.len() {
            return Err(Error::Exception);
        }
        let r = self.objects[h].body.set_index(index, value);
        proof {
            if r is Ok {
                assert(self@ =~= with_body(old(self)@, h as int, self.objects@[h as int].body@));
            } else {
                assert(self@ =~= old(self)@);
            }
        }
        r
    }

    /// Sets an entry of the map `h`.
    pub fn map_set(&mut self, h: usize, key: Value, value: Value) -> (r: Result<(), Error>)
        ensures
            match applied(old(self)@, h, body_map_set(old(self)@[h as int].body, key@, value@)) {
                Ok(heap) => r is Ok && final(self)@ == heap,
                Err(e) => r == Err::<(), Error>(e) && final(self)@ == old(self)@,
            },
    {
        if h >= self.objects.len() {
            return Err(Error::Exception);
        }
        let r = self.objects[h].body.map_set(key, value);
        proof {
            if r is Ok {
                assert(self@ =~= with_body(old(self)@, h as int, self.objects@[h as int].body@));
            } else {
                assert(self@ =~= old(self)@);
            }
        }
        r
    }

    /// Adds a member to the set `h`.
    pub fn add(&mut self, h: usize, value: Value) -> (r: Result<(), Error>)
        ensures
            match applied(old(self)@, h, body_add(old(self)@[h as int].body, value@)) {
                Ok(heap) => r is Ok && final(self)@ == heap,
                Err(e) => r == Err::<(), Error>(e) && final(self)@ == old(self)@,
            },
    {
        if h >= self.objects.len() {
            return Err(Error::Exception);
        }
        let r = self.objects[h].body.add(value);
        proof {
            if r is Ok {
                assert(self@ =~= with_body(old(self)@, h as int, self.objects@[h as int].body@));
            } else {
                assert(self@ =~= old(self)@);
            }
        }
        r
    }

    /// Replaces the body of the object `h`.
    pub fn replace_body(&mut self, h: usize, body: Body) -> (r: Result<(), Error>)
        ensures
            match applied(old(self)@, h, Some(body@)) {
                Ok(heap) => r is Ok && final(self)@ == heap,
                Err(e) => r == Err::<(), Error>(e) && final(self)@ == old(self)@,
            },
    {
        if h >= self.objects.len() {
            return Err(Error::Exception);
        }
        self.objects[h].body = body;
        assert(self@ =~= with_body(old(self)@, h as int, body@));
        Ok(())
    }
}

} // verus!
