//! Enums: bare tags and tagged objects.

use crate::marshal::error::{Error, Operation, VariantError};
use crate::marshal::heap::{with_body, Body, BodyV, Heap, ObjectV};
use crate::marshal::model::{
    behavior, enum_model, enum_started, enum_unit_model, payload_key, positions_fit,
    set_payload, tag_model, vacant,
};
use crate::marshal::array::{fill_unset_fields_from_default, unset_places};
use crate::marshal::heap::find_key;
use crate::marshal::native::{natives_view, Native};
use crate::marshal::object::{unmarshal_properties, ReadingMode};
use crate::marshal::reading::{enum_from_model, selected, variant_named, variant_numbered};
use crate::marshal::scalar::type_repr;
use crate::marshal::shape::{EnumType, Field, Schema, StructKind, Variant};
use crate::marshal::text::str_eq;
use crate::marshal::value::{values_view, Key, Number, Value};
use crate::marshal::{env_of, marshal_fields, populated, same_result, KidShapes, MarshalState, Peek};
use vstd::prelude::*;
use vstd::string::StrSliceExecFns;

verus! {

/// How the tag of an enum is written.
#[derive(Clone, Copy, Debug, PartialEq, Eq, Structural)]
pub enum EnumTagRepr {
    /// The name of the variant, as a string.
    String,
    /// The discriminant of the variant, as a number.
    Number,
}

/// How the values of an enum map to values of the runtime.
#[derive(Debug, PartialEq, Eq)]
pub struct EnumBehavior {
    /// How the tag is written.
    pub js_enum_repr: EnumTagRepr,
    /// The name of the property that holds the tag.
    pub js_enum_tag: String,
}

pub struct EnumBehaviorV {
    pub js_enum_repr: EnumTagRepr,
    pub js_enum_tag: Seq<char>,
}

impl View for EnumBehavior {
    type V = EnumBehaviorV;

    open spec fn view(&self) -> EnumBehaviorV {
        EnumBehaviorV { js_enum_repr: self.js_enum_repr, js_enum_tag: self.js_enum_tag@ }
    }
}

/// Whether the character is ASCII white space: a space, a tab, a line
/// feed, a form feed or a carriage return.
pub open spec fn is_space(c: char) -> bool {
    c == ' ' || c == '\t' || c == '\n' || c == '\x0C' || c == '\r'
}

/// The first position at or after `from` that holds `c`, or the length.
pub open spec fn find_char(s: Seq<char>, c: char, from: int) -> int
    decreases s.len() - from,
{
    if from < 0 || from >= s.len() {
        s.len() as int
    } else if s[from] == c {
        from
    } else {
        find_char(s, c, from + 1)
    }
}

/// The first position at or after `from` that holds no white space, or
/// the length.
pub open spec fn skip_spaces(s: Seq<char>, from: int) -> int
    decreases s.len() - from,
{
    if from < 0 || from >= s.len() {
        s.len() as int
    } else if !is_space(s[from]) {
        from
    } else {
        skip_spaces(s, from + 1)
    }
}

/// The end of the text that is left of the first `to` characters once the
/// white space at their end is dropped, but no less than `floor`.
pub open spec fn drop_spaces(s: Seq<char>, floor: int, to: int) -> int
    decreases to,
{
    if to <= floor || to > s.len() || to <= 0 {
        to
    } else if !is_space(s[to - 1]) {
        to
    } else {
        drop_spaces(s, floor, to - 1)
    }
}

/// The part of `s` between `from` and `to` without the white space at
/// both ends.
pub open spec fn trimmed(s: Seq<char>, from: int, to: int) -> Seq<char> {
    let a = skip_spaces(s.subrange(0, to), from);
    let b = drop_spaces(s, a, to);
    s.subrange(a, b)
}

/// The text between the quote characters, where a text begins and ends
/// with one; any other text as it is.
pub open spec fn unquoted(s: Seq<char>) -> Seq<char> {
    if s.len() >= 2 && s[0] == '"' && s[s.len() - 1] == '"' {
        s.subrange(1, s.len() - 1)
    } else {
        s
    }
}

/// The behaviour after one attribute is read, or `None` where the
/// attribute gives the way of writing the tag a value that is neither
/// `"string"` nor `"number"`. An attribute is a key and a value around
/// the first `=`, each taken without the white space around it; one
/// without `=` or with another key changes nothing. The name of the tag
/// is the value without the quote characters around it.
pub open spec fn with_attribute(b: EnumBehaviorV, attr: Seq<char>) -> Option<EnumBehaviorV> {
    let p = find_char(attr, '=', 0);
    if p >= attr.len() {
        Some(b)
    } else {
        let key = trimmed(attr, 0, p);
        let value = trimmed(attr, p + 1, attr.len() as int);
        if key == "js_enum_tag"@ {
            Some(EnumBehaviorV { js_enum_repr: b.js_enum_repr, js_enum_tag: unquoted(value) })
        } else if key == "js_enum_repr"@ {
            if value == "\"string\""@ {
                Some(EnumBehaviorV { js_enum_repr: EnumTagRepr::String, js_enum_tag: b.js_enum_tag })
            } else if value == "\"number\""@ {
                Some(EnumBehaviorV { js_enum_repr: EnumTagRepr::Number, js_enum_tag: b.js_enum_tag })
            } else {
                None
            }
        } else {
            Some(b)
        }
    }
}

/// The behaviour that the first `k` attributes of a type declare: the tag
/// is the name of the variant under the property `type`, unless an
/// attribute says otherwise; a later attribute overrides an earlier one.
pub open spec fn behavior_of(attributes: Seq<String>, k: nat) -> Option<EnumBehaviorV>
    decreases k,
{
    if k == 0 || k > attributes.len() {
        Some(EnumBehaviorV { js_enum_repr: EnumTagRepr::String, js_enum_tag: "type"@ })
    } else {
        match behavior_of(attributes, (k - 1) as nat) {
            None => None,
            Some(b) => with_attribute(b, attributes[k - 1]@),
        }
    }
}

/// Whether the character is ASCII white space.
fn space(c: char) -> (r: bool)
    ensures
        r == is_space(c),
{
    c == ' ' || c == '\t' || c == '\n' || c == '\x0C' || c == '\r'
}

/// The part of `s` between `from` and `to` without the white space at
/// both ends.
fn trim_ascii(s: &str, from: usize, to: usize) -> (r: &str)
    requires
        from <= to <= s@.len(),
    ensures
        r@ == trimmed(s@, from as int, to as int),
{
    let ghost head = s@.subrange(0, to as int);
    let mut a: usize = from;
    while a < to && space(s.get_char(a))
        invariant
            from <= a <= to <= s@.len(),
            head == s@.subrange(0, to as int),
            skip_spaces(head, from as int) == skip_spaces(head, a as int),
        decreases to - a,
    {
        assert(head[a as int] == s@[a as int]);
        a += 1;
    }
    assert(a == skip_spaces(head, from as int)) by {
        if a < to {
            assert(head[a as int] == s@[a as int]);
        }
    }
    let mut b: usize = to;
    while b > a && space(s.get_char(b - 1))
        invariant
            a <= b <= to <= s@.len(),
            drop_spaces(s@, a as int, to as int) == drop_spaces(s@, a as int, b as int),
        decreases b,
    {
        b -= 1;
    }
    assert(b == drop_spaces(s@, a as int, to as int));
    s.substring_char(a, b)
}

/// The text between the quote characters, where a text begins and ends
/// with one; any other text as it is.
fn strip_quotes(s: &str) -> (r: &str)
    ensures
        r@ == unquoted(s@),
{
    let n = s.unicode_len();
    if n >= 2 && s.get_char(0) == '"' && s.get_char(n - 1) == '"' {
        s.substring_char(1, n - 1)
    } else {
        s
    }
}

/// The first position that holds `=`, or the length.
fn find_equals(s: &str) -> (p: usize)
    ensures
        p == find_char(s@, '=', 0),
        p <= s@.len(),
{
    let n = s.unicode_len();
    let mut i: usize = 0;
    while i < n
        invariant
            n == s@.len(),
            i <= n,
            find_char(s@, '=', 0) == find_char(s@, '=', i as int),
        decreases n - i,
    {
        if s.get_char(i) == '=' {
            return i;
        }
        i += 1;
    }
    i
}

/// Reads how the values of an enum are written from the attributes of its
/// type. `None` where an attribute names a way that does not exist.
pub fn enum_behavior_for_shape(attributes: &Vec<String>) -> (r: Option<EnumBehavior>)
    ensures
        match r {
            Some(b) => behavior_of(attributes@, attributes@.len()) == Some(b@),
            None => behavior_of(attributes@, attributes@.len()) is None,
        },
{
    let mut behavior = EnumBehavior {
        js_enum_repr: EnumTagRepr::String,
        js_enum_tag: "type".to_owned(),
    };
    let mut i: usize = 0;
    while i < attributes.len()
        invariant
            i <= attributes.len(),
            behavior_of(attributes@, i as nat) == Some(behavior@),
        decreases attributes.len() - i,
    {
        let attr = attributes[i].as_str();
        let n = attr.unicode_len();
        let p = find_equals(attr);
        if p < n {
            let k = trim_ascii(attr, 0, p);
            let v = trim_ascii(attr, p + 1, n);
            if str_eq(k, "js_enum_tag") {
                behavior.js_enum_tag = strip_quotes(v).to_owned();
            } else if str_eq(k, "js_enum_repr") {
                if str_eq(v, "\"string\"") {
                    behavior.js_enum_repr = EnumTagRepr::String;
                } else if str_eq(v, "\"number\"") {
                    behavior.js_enum_repr = EnumTagRepr::Number;
                } else {
                    proof {
                        assert(behavior_of(attributes@, (i + 1) as nat) is None);
                        lemma_behavior_stays_none(attributes@, (i + 1) as nat, attributes@.len());
                    }
                    return None;
                }
            }
        }
        i += 1;
    }
    Some(behavior)
}

/// Once the attributes read so far declare no behaviour, reading more
/// declares none either.
pub proof fn lemma_behavior_stays_none(attributes: Seq<String>, k: nat, n: nat)
    requires
        1 <= k <= n <= attributes.len(),
        behavior_of(attributes, k) is None,
    ensures
        behavior_of(attributes, n) is None,
    decreases n - k,
{
    if k < n {
        lemma_behavior_stays_none(attributes, k, (n - 1) as nat);
    }
}

/// Writes the tag of a variant of the enum `sid`: its name, or its
/// discriminant. Fails where the discriminant is no whole number of the
/// runtime; it is not cut to fit.
pub fn serialize_enum_tag(sid: usize, repr: EnumTagRepr, variant: &Variant) -> (r: Result<
    Value,
    Error,
>)
    ensures
        same_result(r, tag_model(sid, repr, *variant)),
{
    match repr {
        EnumTagRepr::String => Ok(Value::Str(variant.name.clone())),
        EnumTagRepr::Number => {
            let repr_value: i64 = match variant.discriminant {
                Some(d) => d,
                None => 0,
            };
            if repr_value < -0x8000_0000 || repr_value > 0xffff_ffff {
                Err(Error::failed(sid, Operation::DiscriminantRange))
            } else {
                Ok(Value::Number(Number::Integer(repr_value)))
            }
        },
    }
}

/// The behaviour of the enum with the shape `sid`.
pub fn behavior_for(schema: &Schema, sid: usize) -> (r: Result<EnumBehavior, Error>)
    ensures
        same_result(r, behavior(*schema, sid)),
{
    if sid >= schema.shapes.len() {
        return Err(Error::failed(sid, Operation::MalformedShape));
    }
    match enum_behavior_for_shape(&schema.shapes[sid].attributes) {
        Some(b) => Ok(b),
        None => Err(Error::failed(sid, Operation::InvalidEnumRepr)),
    }
}

/// Marshals an enum of which no variant carries a payload: it becomes
/// its tag, which is the name of the active variant or its discriminant,
/// as the attributes of the type say.
pub fn marshal_enum_unit(peek: Peek<'_>, enum_type: &EnumType) -> (r: Result<Value, Error>)
    ensures
        same_result(r, enum_unit_model(*peek.schema, peek.shape, *enum_type, peek.value@)),
{
    let sid = peek.shape;
    let enum_behavior = match behavior_for(peek.schema, sid) {
        Ok(b) => b,
        Err(e) => {
            return Err(e);
        },
    };
    match peek.value {
        Native::Enum { variant, fields } => {
            if *variant < enum_type.variants.len() {
                serialize_enum_tag(sid, enum_behavior.js_enum_repr, &enum_type.variants[*variant])
            } else {
                Err(Error::Variant(VariantError::OutOfRange))
            }
        },
        _ => Err(Error::was_not_a(sid)),
    }
}

/// The key under which the payload field at position `i` is written.
fn key_of_payload(kind: StructKind, fields: &Vec<Field>, i: usize) -> (r: Key)
    requires
        i < fields.len(),
        positions_fit(kind, fields@),
    ensures
        r@ == payload_key(kind, fields@, i as int),
{
    match kind {
        StructKind::Struct => Key::Name(fields[i].name.clone()),
        _ => Key::Index(i as u32),
    }
}

/// Sets the payload fields of a variant to `values`, in order.
pub(crate) fn store_payload(
    heap: &mut Heap,
    object: usize,
    kind: StructKind,
    fields: &Vec<Field>,
    values: &Vec<Value>,
)
    requires
        object < old(heap)@.len(),
        old(heap)@[object as int].body is Plain,
        fields.len() == values.len(),
        positions_fit(kind, fields@),
    ensures
        final(heap)@ == with_body(
            old(heap)@,
            object as int,
            BodyV::Plain(
                set_payload(
                    old(heap)@[object as int].body->Plain_0,
                    kind,
                    fields@,
                    values_view(values@),
                    fields.len() as nat,
                ),
            ),
        ),
{
    let ghost heap0 = heap@;
    let ghost entries0 = heap0[object as int].body->Plain_0;
    let mut i: usize = 0;
    assert(heap@ =~= with_body(heap0, object as int, BodyV::Plain(entries0)));
    while i < fields.len()
        invariant
            i <= fields.len(),
            fields.len() == values.len(),
            positions_fit(kind, fields@),
            object < heap0.len(),
            heap0[object as int].body == BodyV::Plain(entries0),
            heap@ == with_body(
                heap0,
                object as int,
                BodyV::Plain(set_payload(entries0, kind, fields@, values_view(values@), i as nat)),
            ),
        decreases fields.len() - i,
    {
        let _ = heap.set(object, key_of_payload(kind, fields, i), values[i].duplicate());
        assert(values_view(values@)[i as int] == values@[i as int]@);
        assert(heap@ =~= with_body(
            heap0,
            object as int,
            BodyV::Plain(
                set_payload(entries0, kind, fields@, values_view(values@), (i + 1) as nat),
            ),
        ));
        i += 1;
    }
}

/// Fills the object of an enum with a payload: the tag is set first, then
/// each field of the active variant, marshalled, in declaration order. A
/// field with named fields stands under its name, any other under its
/// position. A discriminant that is no whole number of the runtime
/// fails, and so do fields by position of which there are more than a
/// 32-bit number names, both before the tag is set. A field that is named
/// like the tag fails, and the tag stays as it was set: where the filling
/// fails after the tag is set, the object holds the tag and no field of
/// the payload.
pub fn marshal_enum_object_into(
    peek: Peek<'_>,
    enum_type: &EnumType,
    heap: &mut Heap,
    object: usize,
    state: &mut MarshalState<'_>,
) -> (r: Result<(), Error>)
    ensures
        final(state).constructors == old(state).constructors,
        object >= old(heap)@.len() ==> r == Err::<(), Error>(Error::Exception) && final(heap)@
            == old(heap)@,
        object < old(heap)@.len() ==> populated(
            enum_model(
                env_of(peek.schema, peek.memory, old(state)),
                peek.shape,
                *enum_type,
                peek.value@,
                old(heap)@[object as int].body,
                old(heap)@.len(),
                old(state).pointers@,
            ),
            r,
            object,
            old(heap)@,
            final(heap)@,
            old(state).pointers@,
            final(state).pointers@,
        ),
        object < old(heap)@.len() && r is Err ==> final(heap)@[object as int] == (match enum_started(
            *peek.schema,
            peek.shape,
            *enum_type,
            peek.value@,
            old(heap)@[object as int].body,
        ) {
            Some(body) => ObjectV { origin: old(heap)@[object as int].origin, body },
            None => old(heap)@[object as int],
        }),
    decreases vacant(old(state).pointers@), 1nat, 0nat, peek.value, 1nat, 0nat,
{
    if object >= heap.len() {
        return Err(Error::Exception);
    }
    let sid = peek.shape;
    let enum_behavior = match behavior_for(peek.schema, sid) {
        Ok(b) => b,
        Err(e) => {
            return Err(e);
        },
    };
    let (variant, vals) = match peek.value {
        Native::Enum { variant, fields } => (*variant, fields),
        _ => {
            return Err(Error::was_not_a(sid));
        },
    };
    assert(peek.value@->Enum_fields =~= natives_view(vals@));
    if variant >= enum_type.variants.len() {
        return Err(Error::Variant(VariantError::OutOfRange));
    }
    let active_variant = &enum_type.variants[variant];
    let tag = match serialize_enum_tag(sid, enum_behavior.js_enum_repr, active_variant) {
        Ok(tag) => tag,
        Err(e) => {
            return Err(e);
        },
    };
    let fields = &active_variant.data.fields;
    if vals.len() != fields.len() {
        return Err(Error::was_not_a(sid));
    }
    let named = match active_variant.data.kind {
        StructKind::Struct => true,
        _ => false,
    };
    if !named && fields.len() > 0xffff_ffff {
        return Err(Error::failed(sid, Operation::CountRange));
    }
    match &heap.objects[object].body {
        Body::Plain(_) => {},
        _ => {
            return Err(Error::failed(sid, Operation::ContainerMismatch));
        },
    }
    // The tag goes in before any field of the payload is looked at.
    let _ = heap.set(object, Key::Name(enum_behavior.js_enum_tag.clone()), tag);
    let ghost tagged = heap@;
    let kids = KidShapes::Payload { fields, tag: &enum_behavior.js_enum_tag, shape: sid };
    let values = match marshal_fields(peek.schema, peek.memory, &kids, vals, heap, state) {
        Ok(values) => values,
        Err(e) => {
            assert(heap@[object as int] == tagged[object as int]);
            return Err(e);
        },
    };
    store_payload(heap, object, active_variant.data.kind, fields, &values);
    proof {
        let f = enum_model(
            env_of(peek.schema, peek.memory, old(state)),
            peek.shape,
            *enum_type,
            peek.value@,
            old(heap)@[object as int].body,
            old(heap)@.len(),
            old(state).pointers@,
        )->Ok_0;
        assert(heap@ =~= with_body(old(heap)@, object as int, f.body) + f.objects);
    }
    Ok(())
}

/// Selects the variant that a tag names: the one with the name where the
/// tag is a string, the one with the discriminant where it is a whole
/// number.
pub fn unmarshal_enum_begin_with_tag(sid: usize, enum_type: &EnumType, value: &Value) -> (r: Result<
    usize,
    Error,
>)
    ensures
        r == selected(sid, *enum_type, value@),
        r is Ok ==> r->Ok_0 < enum_type.variants@.len(),
{
    let variants = &enum_type.variants;
    match value {
        Value::Str(name) => {
            let mut i: usize = 0;
            while i < variants.len()
                invariant
                    i <= variants.len(),
                    variants == &enum_type.variants,
                    value@ == crate::marshal::value::ValueV::Str(name@),
                    variant_named(variants@, name@, 0) == variant_named(variants@, name@, i as int),
                decreases variants.len() - i,
            {
                if str_eq(variants[i].name.as_str(), name.as_str()) {
                    return Ok(i);
                }
                i += 1;
            }
            Err(Error::Variant(VariantError::UnknownName))
        },
        Value::Number(Number::Integer(d)) => {
            let mut i: usize = 0;
            while i < variants.len()
                invariant
                    i <= variants.len(),
                    variants == &enum_type.variants,
                    value@ == crate::marshal::value::ValueV::Number(Number::Integer(*d)),
                    variant_numbered(variants@, *d, 0) == variant_numbered(variants@, *d, i as int),
                decreases variants.len() - i,
            {
                let found = match variants[i].discriminant {
                    Some(x) => x == *d,
                    None => false,
                };
                if found {
                    return Ok(i);
                }
                i += 1;
            }
            Err(Error::Variant(VariantError::UnknownDiscriminant))
        },
        _ => Err(Error::failed(sid, Operation::EnumTagKind)),
    }
}

/// Reads the native value of an enum with the shape `sid` from a value
/// of the runtime: from an object, or else from
/// a tag, which selects a variant none of whose fields is set. A field
/// that was not set takes its default, where it has one.
pub fn unmarshal_enum(
    schema: &Schema,
    sid: usize,
    enum_type: &EnumType,
    heap: &Heap,
    value: &Value,
    depth: usize,
) -> (r: Result<Native, Error>)
    ensures
        same_result(r, enum_from_model(*schema, sid, *enum_type, heap@, value@, depth as nat)),
    decreases heap@.len() - depth, 0nat, 3nat, 1nat,
{
    match value {
        Value::Object(h) => unmarshal_enum_from_object(schema, sid, enum_type, heap, *h, depth),
        _ => {
            match behavior_for(schema, sid) {
                Ok(_) => {},
                Err(e) => {
                    return Err(e);
                },
            }
            let variant = match unmarshal_enum_begin_with_tag(sid, enum_type, value) {
                Ok(variant) => variant,
                Err(e) => {
                    return Err(e);
                },
            };
            let fields = &enum_type.variants[variant].data.fields;
            let mut slots = unset_places(fields.len());
            fill_unset_fields_from_default(fields, &mut slots);
            let r = Native::Enum { variant, fields: slots };
            assert(r@->Enum_fields =~= natives_view(slots@));
            Ok(r)
        },
    }
}

/// Reads the native value of an enum with the shape `sid` from the
/// object `h`. The object holds the tag under the
/// name that the enum declares, and the fields of the variant the tag
/// selects: those of a variant with named fields under their names,
/// those of any other under their positions. Properties that name no
/// field are passed over. A field that was not set takes its default,
/// where it has one.
pub fn unmarshal_enum_from_object(
    schema: &Schema,
    sid: usize,
    enum_type: &EnumType,
    heap: &Heap,
    h: usize,
    depth: usize,
) -> (r: Result<Native, Error>)
    ensures
        same_result(
            r,
            enum_from_model(*schema, sid, *enum_type, heap@, crate::marshal::value::ValueV::Object(h), depth as nat),
        ),
    decreases heap@.len() - depth, 0nat, 3nat, 0nat,
{
    let enum_behavior = match behavior_for(schema, sid) {
        Ok(b) => b,
        Err(e) => {
            return Err(e);
        },
    };
    let object = match heap.get(h) {
        Some(o) => o,
        None => {
            return Err(Error::Exception);
        },
    };
    if depth >= heap.len() {
        return Err(Error::failed(sid, Operation::CyclicValue));
    }
    let entries = match &object.body {
        Body::Plain(entries) => entries,
        _ => {
            return Err(Error::unexpected(sid, type_repr(heap, &Value::Object(h))));
        },
    };
    let tag_field = Key::Name(enum_behavior.js_enum_tag.clone());
    let p = find_key(entries, &tag_field);
    if p >= entries.len() {
        return Err(Error::failed(sid, Operation::MissingEnumTag));
    }
    assert(crate::marshal::value::entries_view(entries@)[p as int].1 == entries@[p as int].1@);
    let variant = match unmarshal_enum_begin_with_tag(sid, enum_type, &entries[p].1) {
        Ok(variant) => variant,
        Err(e) => {
            return Err(e);
        },
    };
    let fields = &enum_type.variants[variant].data.fields;
    let reading = ReadingMode::Payload(&enum_behavior.js_enum_tag);
    let mut slots = match unmarshal_properties(schema, sid, fields, &reading, heap, entries, depth) {
        Ok(slots) => slots,
        Err(e) => {
            return Err(e);
        },
    };
    fill_unset_fields_from_default(fields, &mut slots);
    let r = Native::Enum { variant, fields: slots };
    assert(r@->Enum_fields =~= natives_view(slots@));
    Ok(r)
}

} // verus!
