use facet_v8::marshal::bytes::{
    buffer_from_bytes, buffer_to_bytes, element_to_bytes, elements_to_bytes,
};
use facet_v8::marshal::enum_::{enum_behavior_for_shape, EnumTagRepr};
use facet_v8::marshal::scalar::{
    bigint_to_i128, bigint_to_u128, i128_to_bigint, scalar_from_v8, scalar_to_v8, u128_to_bigint,
};
use facet_v8::marshal::set::PeekSet;
use facet_v8::marshal::shape::{will_marshal_as_object, will_serialize_as_object};
use facet_v8::marshal::enum_::marshal_enum_object_into;
use facet_v8::marshal::shape::Owner;
use facet_v8::{
    from_v8, from_v8_partial, to_v8, to_v8_with_constructors, BigInt, Body, Buffer, Constructor,
    Constructors, Def, ElemKind, EnumType, Error, Field, Heap, Key, KnownPointer, Memory, Native,
    Number, Object, Observed, Operation, Origin, Partial, Peek, PointerType, ReflectError, Scalar,
    ScalarType, Schema, Shape, StructKind, StructType, Type, UserType, Value, Variant,
    VariantError,
};

fn scalar_shape(id: u64, st: ScalarType) -> Shape {
    Shape { id, def: Def::Scalar, ty: Type::Primitive, scalar: Some(st), attributes: vec![] }
}

fn shape_with(id: u64, def: Def, ty: Type) -> Shape {
    Shape { id, def, ty, scalar: None, attributes: vec![] }
}

fn field(name: &str, shape: usize) -> Field {
    Field { name: name.to_string(), shape, attributes: vec![], default: None }
}

fn struct_shape(id: u64, kind: StructKind, fields: Vec<Field>) -> Shape {
    shape_with(id, Def::Undefined, Type::User(UserType::Struct(StructType { kind, fields })))
}

fn variant(name: &str, discriminant: i64, kind: StructKind, fields: Vec<Field>) -> Variant {
    Variant {
        name: name.to_string(),
        discriminant: Some(discriminant),
        data: StructType { kind, fields },
    }
}

fn enum_shape(id: u64, attributes: Vec<&str>, variants: Vec<Variant>) -> Shape {
    Shape {
        id,
        def: Def::Undefined,
        ty: Type::User(UserType::Enum(EnumType { variants })),
        scalar: None,
        attributes: attributes.into_iter().map(|a| a.to_string()).collect(),
    }
}

fn no_memory() -> Memory {
    Memory { cells: vec![] }
}

fn text(s: &str) -> Native {
    Native::Scalar(Scalar::Text(s.to_string()))
}

fn i32_of(x: i32) -> Native {
    Native::Scalar(Scalar::I32(x))
}

fn name(s: &str) -> Key {
    Key::Name(s.to_string())
}

fn integer(i: i64) -> Value {
    Value::Number(Number::Integer(i))
}

fn failed(shape: usize, operation: Operation) -> Error {
    Error::Reflect(ReflectError::OperationFailed { shape, operation })
}

fn marshal(schema: &Schema, memory: &Memory, heap: &mut Heap, shape: usize, value: &Native) -> Result<Value, Error> {
    to_v8(heap, Peek { schema, memory, shape, value })
}

fn round_trip(st: ScalarType, scalar: Scalar) {
    let schema = Schema { shapes: vec![scalar_shape(1, st)] };
    let memory = no_memory();
    let mut heap = Heap::new();
    let native = Native::Scalar(scalar);
    let value = marshal(&schema, &memory, &mut heap, 0, &native).unwrap();
    assert_eq!(heap.len(), 0);
    assert_eq!(from_v8(&schema, 0, &heap, &value).unwrap(), native);
}

#[test]
fn scalars_round_trip_at_their_extremes() {
    round_trip(ScalarType::Unit, Scalar::Unit);
    round_trip(ScalarType::Bool, Scalar::Bool(false));
    round_trip(ScalarType::U8, Scalar::U8(0));
    round_trip(ScalarType::U8, Scalar::U8(u8::MAX));
    round_trip(ScalarType::U16, Scalar::U16(u16::MAX));
    round_trip(ScalarType::U32, Scalar::U32(u32::MAX));
    round_trip(ScalarType::U64, Scalar::U64(0));
    round_trip(ScalarType::U64, Scalar::U64(u64::MAX));
    round_trip(ScalarType::U128, Scalar::U128(0));
    round_trip(ScalarType::U128, Scalar::U128(u128::MAX));
    round_trip(ScalarType::USize, Scalar::USize(usize::MAX));
    round_trip(ScalarType::I8, Scalar::I8(i8::MIN));
    round_trip(ScalarType::I16, Scalar::I16(-1));
    round_trip(ScalarType::I32, Scalar::I32(i32::MIN));
    round_trip(ScalarType::I64, Scalar::I64(-1));
    round_trip(ScalarType::I64, Scalar::I64(i64::MIN));
    round_trip(ScalarType::I64, Scalar::I64(i64::MAX));
    round_trip(ScalarType::I128, Scalar::I128(0));
    round_trip(ScalarType::I128, Scalar::I128(-1));
    round_trip(ScalarType::I128, Scalar::I128(i128::MIN));
    round_trip(ScalarType::I128, Scalar::I128(i128::MAX));
    round_trip(ScalarType::ISize, Scalar::ISize(isize::MIN));
    round_trip(ScalarType::String, Scalar::Text(String::new()));
    round_trip(ScalarType::CowStr, Scalar::Text("hello".to_string()));
    round_trip(ScalarType::Char, Scalar::Char('\u{20ac}'));
    round_trip(ScalarType::Char, Scalar::Char('a'));
    round_trip(ScalarType::F32, Scalar::Float(Number::Single(1.5f32.to_bits())));
    round_trip(ScalarType::F64, Scalar::Float(Number::Double(f64::MAX.to_bits())));
    round_trip(ScalarType::IpAddr, Scalar::Address("127.0.0.1".to_string()));
    round_trip(ScalarType::SocketAddr, Scalar::Address("[::1]:8080".to_string()));
    round_trip(ScalarType::Ipv4Addr, Scalar::Address("10.0.0.1".to_string()));
    round_trip(ScalarType::Ipv6Addr, Scalar::Address("::1".to_string()));
}

#[test]
fn scalars_become_the_documented_values() {
    let schema = Schema {
        shapes: vec![
            scalar_shape(1, ScalarType::U64),
            scalar_shape(2, ScalarType::Char),
            scalar_shape(3, ScalarType::Unit),
            scalar_shape(4, ScalarType::U8),
            scalar_shape(5, ScalarType::I64),
        ],
    };
    let memory = no_memory();
    let mut heap = Heap::new();
    // A 64-bit integer is a big integer, never a number.
    assert_eq!(
        marshal(&schema, &memory, &mut heap, 0, &Native::Scalar(Scalar::U64(5))).unwrap(),
        Value::BigInt(BigInt { negative: false, words: vec![5] })
    );
    assert_eq!(
        marshal(&schema, &memory, &mut heap, 4, &Native::Scalar(Scalar::I64(-5))).unwrap(),
        Value::BigInt(BigInt { negative: true, words: vec![5] })
    );
    assert_eq!(
        marshal(&schema, &memory, &mut heap, 1, &Native::Scalar(Scalar::Char('\u{20ac}'))).unwrap(),
        Value::Str("\u{20ac}".to_string())
    );
    assert_eq!(
        marshal(&schema, &memory, &mut heap, 2, &Native::Scalar(Scalar::Unit)).unwrap(),
        Value::Null
    );
    assert_eq!(
        marshal(&schema, &memory, &mut heap, 3, &Native::Scalar(Scalar::U8(200))).unwrap(),
        integer(200)
    );
    // A scalar of another type than its shape is refused.
    assert_eq!(
        marshal(&schema, &memory, &mut heap, 3, &Native::Scalar(Scalar::U16(200))),
        Err(Error::Reflect(ReflectError::WasNotA { shape: 3 }))
    );
    assert_eq!(
        scalar_to_v8(Peek { schema: &schema, memory: &memory, shape: 9, value: &i32_of(1) }),
        Err(failed(9, Operation::MalformedShape))
    );
}

#[test]
fn wide_integers_are_split_into_words() {
    let x: u128 = (7u128 << 64) | 9;
    assert_eq!(u128_to_bigint(x), BigInt { negative: false, words: vec![9, 7] });
    assert_eq!(u128_to_bigint(0), BigInt { negative: false, words: vec![0, 0] });
    assert_eq!(u128_to_bigint(u128::MAX), BigInt { negative: false, words: vec![u64::MAX, u64::MAX] });
    assert_eq!(i128_to_bigint(-1), BigInt { negative: true, words: vec![1, 0] });
    assert_eq!(i128_to_bigint(-(x as i128)), BigInt { negative: true, words: vec![9, 7] });
    assert_eq!(i128_to_bigint(i128::MAX), BigInt { negative: false, words: vec![u64::MAX, u64::MAX >> 1] });
    // The lowest one takes a third word.
    assert_eq!(i128_to_bigint(i128::MIN), BigInt { negative: true, words: vec![0, 0, 1] });

    assert_eq!(bigint_to_u128(&BigInt { negative: false, words: vec![9, 7] }), Some(x));
    assert_eq!(bigint_to_u128(&BigInt { negative: false, words: vec![] }), Some(0));
    assert_eq!(bigint_to_u128(&BigInt { negative: false, words: vec![3] }), Some(3));
    assert_eq!(bigint_to_u128(&BigInt { negative: false, words: vec![3, 0, 0, 0] }), Some(3));
    assert_eq!(bigint_to_u128(&BigInt { negative: true, words: vec![3] }), None);
    assert_eq!(bigint_to_u128(&BigInt { negative: false, words: vec![0, 0, 1] }), None);
    assert_eq!(bigint_to_i128(&BigInt { negative: true, words: vec![9, 7] }), Some(-(x as i128)));
    assert_eq!(bigint_to_i128(&BigInt { negative: true, words: vec![0, 0, 1] }), Some(i128::MIN));
    assert_eq!(bigint_to_i128(&BigInt { negative: true, words: vec![0, 1 << 63] }), Some(i128::MIN));
    assert_eq!(bigint_to_i128(&BigInt { negative: false, words: vec![0, 1 << 63] }), None);
    assert_eq!(bigint_to_i128(&BigInt { negative: false, words: vec![0, 0, 1] }), None);
    assert_eq!(bigint_to_i128(&BigInt { negative: true, words: vec![1, 0, 1] }), None);
    assert_eq!(bigint_to_i128(&BigInt { negative: false, words: vec![] }), Some(0));
}

fn unmarshal_scalar(st: ScalarType, value: Value) -> Result<Native, Error> {
    let schema = Schema { shapes: vec![scalar_shape(1, st)] };
    from_v8(&schema, 0, &Heap::new(), &value)
}

#[test]
fn integers_that_do_not_fit_are_refused() {
    // Two to the power 64 does not fit 64 unsigned bits.
    let two_64 = Value::BigInt(BigInt { negative: false, words: vec![0, 1] });
    assert_eq!(unmarshal_scalar(ScalarType::U64, two_64), Err(Error::IntOverflow(0)));
    assert_eq!(unmarshal_scalar(ScalarType::U8, integer(256)), Err(Error::IntOverflow(0)));
    assert_eq!(unmarshal_scalar(ScalarType::U8, integer(255)), Ok(Native::Scalar(Scalar::U8(255))));
    assert_eq!(unmarshal_scalar(ScalarType::U32, integer(-1)), Err(Error::IntOverflow(0)));
    assert_eq!(unmarshal_scalar(ScalarType::I8, integer(-129)), Err(Error::IntOverflow(0)));
    assert_eq!(unmarshal_scalar(ScalarType::I8, integer(-128)), Ok(Native::Scalar(Scalar::I8(-128))));
    assert_eq!(
        unmarshal_scalar(ScalarType::I64, Value::BigInt(BigInt { negative: false, words: vec![1 << 63] })),
        Err(Error::IntOverflow(0))
    );
    assert_eq!(
        unmarshal_scalar(ScalarType::I64, Value::BigInt(BigInt { negative: true, words: vec![1 << 63] })),
        Ok(Native::Scalar(Scalar::I64(i64::MIN)))
    );
    assert_eq!(
        unmarshal_scalar(ScalarType::I128, Value::BigInt(BigInt { negative: false, words: vec![0, 1 << 63] })),
        Err(Error::IntOverflow(0))
    );
    assert_eq!(
        unmarshal_scalar(ScalarType::U128, Value::BigInt(BigInt { negative: false, words: vec![0, 0, 1] })),
        Err(Error::IntOverflow(0))
    );
    assert_eq!(
        unmarshal_scalar(ScalarType::U128, Value::BigInt(BigInt { negative: true, words: vec![1] })),
        Err(Error::IntOverflow(0))
    );
    // A whole number and a big integer are both read for every width.
    assert_eq!(unmarshal_scalar(ScalarType::U64, integer(7)), Ok(Native::Scalar(Scalar::U64(7))));
    assert_eq!(unmarshal_scalar(ScalarType::I128, integer(-7)), Ok(Native::Scalar(Scalar::I128(-7))));
    assert_eq!(
        unmarshal_scalar(ScalarType::U8, Value::BigInt(BigInt { negative: false, words: vec![7] })),
        Ok(Native::Scalar(Scalar::U8(7)))
    );
}

#[test]
fn values_of_the_wrong_kind_are_refused() {
    let unexpected = |unexpected| Error::UnexpectedValue { shape: 0, unexpected };
    assert_eq!(unmarshal_scalar(ScalarType::Bool, integer(1)), Err(unexpected(Observed::Number)));
    assert_eq!(unmarshal_scalar(ScalarType::U8, Value::Bool(true)), Err(unexpected(Observed::Boolean)));
    assert_eq!(unmarshal_scalar(ScalarType::String, Value::Null), Err(unexpected(Observed::Null)));
    assert_eq!(unmarshal_scalar(ScalarType::Unit, Value::Str("x".to_string())), Err(unexpected(Observed::String)));
    assert_eq!(unmarshal_scalar(ScalarType::Unit, Value::Undefined), Ok(Native::Scalar(Scalar::Unit)));
    assert_eq!(
        unmarshal_scalar(ScalarType::F64, Value::BigInt(BigInt { negative: false, words: vec![1] })),
        Err(unexpected(Observed::BigInt))
    );
    assert_eq!(
        unmarshal_scalar(ScalarType::U32, Value::Number(Number::Double(1.5f64.to_bits()))),
        Err(unexpected(Observed::Number))
    );
    assert_eq!(
        unmarshal_scalar(ScalarType::IpAddr, Value::Undefined),
        Err(unexpected(Observed::Undefined))
    );
    // A character is a string of exactly one character.
    assert_eq!(
        unmarshal_scalar(ScalarType::Char, Value::Str(String::new())),
        Err(failed(0, Operation::ExpectedSingleChar))
    );
    assert_eq!(
        unmarshal_scalar(ScalarType::Char, Value::Str("ab".to_string())),
        Err(failed(0, Operation::ExpectedSingleChar))
    );
    // A string slice has no owner to be read into.
    assert_eq!(
        unmarshal_scalar(ScalarType::Str, Value::Str("ab".to_string())),
        Err(failed(0, Operation::UnmarshalStringSlice))
    );
    // An object where a scalar is expected is named by its class.
    let mut heap = Heap::new();
    let h = heap.create(Object { origin: Origin::Runtime, body: Body::MapOf(vec![]) });
    let schema = Schema { shapes: vec![scalar_shape(1, ScalarType::Bool)] };
    assert_eq!(
        scalar_from_v8(&schema, 0, &heap, &Value::Object(h)),
        Err(unexpected(Observed::MapObject))
    );
}

fn node_schema() -> Schema {
    // struct Node { value: i32, next: Option<Rc<Node>> }
    Schema {
        shapes: vec![
            scalar_shape(1, ScalarType::I32),
            struct_shape(2, StructKind::Struct, vec![field("value", 0), field("next", 3)]),
            shape_with(
                3,
                Def::Pointer { known: Some(KnownPointer::Rc), pointee: Some(1) },
                Type::User(UserType::Opaque),
            ),
            shape_with(4, Def::Optional(2), Type::User(UserType::Opaque)),
        ],
    }
}

#[test]
fn a_cycle_marshals_to_an_object_that_holds_itself() {
    let schema = node_schema();
    // The node in cell 0 points to itself.
    let memory = Memory {
        cells: vec![Native::Struct(vec![
            i32_of(1),
            Native::Optional(Some(Box::new(Native::Shared(Some(0))))),
        ])],
    };
    let mut heap = Heap::new();
    let root = Native::Shared(Some(0));
    let value = marshal(&schema, &memory, &mut heap, 2, &root).unwrap();
    assert_eq!(value, Value::Object(0));
    assert_eq!(heap.len(), 1);
    assert_eq!(
        heap.objects[0].body,
        Body::Plain(vec![(name("value"), integer(1)), (name("next"), Value::Object(0))])
    );
    // A value of the runtime that holds itself cannot be read back.
    let boxed = Schema {
        shapes: vec![
            scalar_shape(1, ScalarType::I32),
            struct_shape(2, StructKind::Struct, vec![field("value", 0), field("next", 3)]),
            shape_with(
                3,
                Def::Pointer { known: Some(KnownPointer::Box), pointee: Some(1) },
                Type::User(UserType::Opaque),
            ),
            shape_with(4, Def::Optional(2), Type::User(UserType::Opaque)),
        ],
    };
    assert_eq!(from_v8(&boxed, 1, &heap, &value), Err(failed(1, Operation::CyclicValue)));
}

#[test]
fn two_cells_that_point_at_each_other_marshal() {
    let schema = node_schema();
    let memory = Memory {
        cells: vec![
            Native::Struct(vec![i32_of(1), Native::Optional(Some(Box::new(Native::Shared(Some(1)))))]),
            Native::Struct(vec![i32_of(2), Native::Optional(Some(Box::new(Native::Shared(Some(0)))))]),
        ],
    };
    let mut heap = Heap::new();
    let value = marshal(&schema, &memory, &mut heap, 2, &Native::Shared(Some(0))).unwrap();
    assert_eq!(value, Value::Object(0));
    assert_eq!(heap.len(), 2);
    assert_eq!(
        heap.objects[0].body,
        Body::Plain(vec![(name("value"), integer(1)), (name("next"), Value::Object(1))])
    );
    assert_eq!(
        heap.objects[1].body,
        Body::Plain(vec![(name("value"), integer(2)), (name("next"), Value::Object(0))])
    );
}

#[test]
fn shared_scalars_are_marshalled_by_value() {
    // struct Pair { a: Arc<i32>, b: Arc<i32> }
    let schema = Schema {
        shapes: vec![
            scalar_shape(1, ScalarType::I32),
            shape_with(
                2,
                Def::Pointer { known: Some(KnownPointer::Arc), pointee: Some(0) },
                Type::User(UserType::Opaque),
            ),
            struct_shape(3, StructKind::Struct, vec![field("a", 1), field("b", 1)]),
        ],
    };
    let memory = Memory { cells: vec![i32_of(5)] };
    let mut heap = Heap::new();
    let native = Native::Struct(vec![Native::Shared(Some(0)), Native::Shared(Some(0))]);
    let value = marshal(&schema, &memory, &mut heap, 2, &native).unwrap();
    assert_eq!(heap.len(), 1);
    assert_eq!(
        heap.objects[0].body,
        Body::Plain(vec![(name("a"), integer(5)), (name("b"), integer(5))])
    );
    assert_eq!(value, Value::Object(0));
}

#[test]
fn pointers_that_are_not_supported_fail() {
    let pointer = |id, known| {
        shape_with(id, Def::Pointer { known, pointee: Some(0) }, Type::User(UserType::Opaque))
    };
    let schema = Schema {
        shapes: vec![
            scalar_shape(1, ScalarType::I32),
            pointer(2, Some(KnownPointer::RcWeak)),
            pointer(3, Some(KnownPointer::ArcWeak)),
            pointer(4, Some(KnownPointer::Rc)),
            pointer(5, Some(KnownPointer::Box)),
            shape_with(6, Def::Undefined, Type::Pointer(PointerType::Reference)),
            shape_with(7, Def::Undefined, Type::Pointer(PointerType::Raw)),
            shape_with(8, Def::Undefined, Type::Pointer(PointerType::Function)),
            pointer(9, None),
        ],
    };
    let memory = Memory { cells: vec![i32_of(5)] };
    let mut heap = Heap::new();
    let shared = Native::Shared(Some(0));
    assert_eq!(marshal(&schema, &memory, &mut heap, 1, &shared), Err(failed(1, Operation::WeakPointer)));
    assert_eq!(marshal(&schema, &memory, &mut heap, 2, &shared), Err(failed(2, Operation::WeakPointer)));
    assert_eq!(marshal(&schema, &memory, &mut heap, 3, &shared), Ok(integer(5)));
    let owned = Native::Owned(Some(Box::new(i32_of(6))));
    assert_eq!(marshal(&schema, &memory, &mut heap, 4, &owned), Ok(integer(6)));
    assert_eq!(marshal(&schema, &memory, &mut heap, 8, &owned), Ok(integer(6)));
    // A pointer whose pointee cannot be borrowed is null.
    assert_eq!(marshal(&schema, &memory, &mut heap, 4, &Native::Owned(None)), Ok(Value::Null));
    assert_eq!(marshal(&schema, &memory, &mut heap, 3, &Native::Shared(None)), Ok(Value::Null));
    // A pointer that owns its pointee alone does not name a cell.
    assert_eq!(
        marshal(&schema, &memory, &mut heap, 4, &shared),
        Err(Error::Reflect(ReflectError::WasNotA { shape: 4 }))
    );
    assert_eq!(marshal(&schema, &memory, &mut heap, 5, &text("foo")), Ok(Value::Str("foo".to_string())));
    assert_eq!(
        marshal(&schema, &memory, &mut heap, 5, &i32_of(1)),
        Err(failed(5, Operation::ReferenceToNonString))
    );
    assert_eq!(marshal(&schema, &memory, &mut heap, 6, &Native::Opaque), Err(failed(6, Operation::RawPointer)));
    assert_eq!(
        marshal(&schema, &memory, &mut heap, 7, &Native::Opaque),
        Err(failed(7, Operation::FunctionPointer))
    );
    assert_eq!(heap.len(), 0);

    let heap = Heap::new();
    assert_eq!(from_v8(&schema, 1, &heap, &integer(5)), Err(failed(1, Operation::WeakPointer)));
    // A shared pointer is read as a pointer of its own.
    assert_eq!(from_v8(&schema, 3, &heap, &integer(5)), Ok(Native::Owned(Some(Box::new(i32_of(5))))));
    assert_eq!(from_v8(&schema, 4, &heap, &integer(5)), Ok(Native::Owned(Some(Box::new(i32_of(5))))));
    assert_eq!(from_v8(&schema, 5, &heap, &integer(5)), Err(failed(5, Operation::UnmarshalPointer)));
    assert_eq!(from_v8(&schema, 6, &heap, &integer(5)), Err(failed(6, Operation::UnmarshalPointer)));
}

#[test]
fn an_optional_value_is_null_or_its_content() {
    let schema = Schema {
        shapes: vec![
            scalar_shape(1, ScalarType::I32),
            shape_with(2, Def::Optional(0), Type::User(UserType::Opaque)),
            // A shape that wraps a later one is not read.
            shape_with(3, Def::Optional(3), Type::User(UserType::Opaque)),
            enum_shape(4, vec![], vec![variant("A", 0, StructKind::Unit, vec![])]),
        ],
    };
    let memory = no_memory();
    let mut heap = Heap::new();
    assert_eq!(marshal(&schema, &memory, &mut heap, 1, &Native::Optional(None)), Ok(Value::Null));
    let some = Native::Optional(Some(Box::new(i32_of(3))));
    assert_eq!(marshal(&schema, &memory, &mut heap, 1, &some), Ok(integer(3)));
    assert_eq!(
        marshal(&schema, &memory, &mut heap, 1, &i32_of(3)),
        Err(Error::Reflect(ReflectError::WasNotA { shape: 1 }))
    );
    assert_eq!(
        marshal(&schema, &memory, &mut heap, 2, &Native::Optional(None)),
        Err(failed(2, Operation::MalformedShape))
    );
    assert_eq!(from_v8(&schema, 1, &heap, &Value::Null), Ok(Native::Optional(None)));
    assert_eq!(from_v8(&schema, 1, &heap, &Value::Undefined), Ok(Native::Optional(None)));
    assert_eq!(from_v8(&schema, 1, &heap, &integer(3)), Ok(some));
    assert!(!will_marshal_as_object(&schema, 0));
    assert!(!will_marshal_as_object(&schema, 1));
    assert!(!will_marshal_as_object(&schema, 3));
    assert!(!will_marshal_as_object(&schema, 17));
}

fn complex_schema(attributes: Vec<&str>) -> Schema {
    Schema {
        shapes: vec![
            scalar_shape(1, ScalarType::I32),
            scalar_shape(2, ScalarType::String),
            enum_shape(
                3,
                attributes,
                vec![
                    variant("Unit", 10, StructKind::Unit, vec![]),
                    variant("Tuple", 20, StructKind::Tuple, vec![field("0", 0), field("1", 1)]),
                    variant("Struct", 30, StructKind::Struct, vec![field("a", 0), field("b", 1)]),
                    variant("Clash", 40, StructKind::Struct, vec![field("a", 0), field("type", 1)]),
                ],
            ),
        ],
    }
}

#[test]
fn the_tag_of_an_enum_is_set_first() {
    let schema = complex_schema(vec![]);
    let memory = no_memory();
    let mut heap = Heap::new();
    let tuple = Native::Enum { variant: 1, fields: vec![i32_of(42), text("hello")] };
    let value = marshal(&schema, &memory, &mut heap, 2, &tuple).unwrap();
    assert_eq!(value, Value::Object(0));
    assert_eq!(heap.objects[0].origin, Origin::Runtime);
    assert_eq!(
        heap.objects[0].body,
        Body::Plain(vec![
            (name("type"), Value::Str("Tuple".to_string())),
            (Key::Index(0), integer(42)),
            (Key::Index(1), Value::Str("hello".to_string())),
        ])
    );
    let named = Native::Enum { variant: 2, fields: vec![i32_of(42), text("hello")] };
    let value = marshal(&schema, &memory, &mut heap, 2, &named).unwrap();
    assert_eq!(value, Value::Object(1));
    assert_eq!(
        heap.objects[1].body,
        Body::Plain(vec![
            (name("type"), Value::Str("Struct".to_string())),
            (name("a"), integer(42)),
            (name("b"), Value::Str("hello".to_string())),
        ])
    );
    assert!(will_marshal_as_object(&schema, 2));
}

#[test]
fn a_field_named_like_the_tag_is_refused() {
    let schema = complex_schema(vec![]);
    let memory = no_memory();
    let mut heap = Heap::new();
    let clash = Native::Enum { variant: 3, fields: vec![i32_of(42), text("hello")] };
    assert_eq!(marshal(&schema, &memory, &mut heap, 2, &clash), Err(Error::ClobberedTypeTag(2)));
    // Under another tag the same variant marshals, and `a` clashes.
    let schema = complex_schema(vec!["js_enum_tag = kind", " js_enum_repr=\"number\" "]);
    let mut heap = Heap::new();
    assert_eq!(marshal(&schema, &memory, &mut heap, 2, &clash), Ok(Value::Object(0)));
    assert_eq!(
        heap.objects[0].body,
        Body::Plain(vec![
            (name("kind"), integer(40)),
            (name("a"), integer(42)),
            (name("type"), Value::Str("hello".to_string())),
        ])
    );
    let schema = complex_schema(vec!["js_enum_tag = a"]);
    let mut heap = Heap::new();
    assert_eq!(marshal(&schema, &memory, &mut heap, 2, &clash), Err(Error::ClobberedTypeTag(2)));
}

#[test]
fn the_attributes_of_an_enum_say_how_its_tag_is_written() {
    let attrs = |v: Vec<&str>| -> Vec<String> { v.into_iter().map(|a| a.to_string()).collect() };
    let b = enum_behavior_for_shape(&attrs(vec![])).unwrap();
    assert_eq!((b.js_enum_repr, b.js_enum_tag.as_str()), (EnumTagRepr::String, "type"));
    let b = enum_behavior_for_shape(&attrs(vec!["js_enum_repr = \"number\""])).unwrap();
    assert_eq!((b.js_enum_repr, b.js_enum_tag.as_str()), (EnumTagRepr::Number, "type"));
    let b = enum_behavior_for_shape(&attrs(vec![" js_enum_tag\t=  kind \n", "other", "x = y"]))
        .unwrap();
    assert_eq!((b.js_enum_repr, b.js_enum_tag.as_str()), (EnumTagRepr::String, "kind"));
    // The name stands between quote characters, which are no part of it.
    let b = enum_behavior_for_shape(&attrs(vec!["js_enum_tag = \"kind\""])).unwrap();
    assert_eq!((b.js_enum_repr, b.js_enum_tag.as_str()), (EnumTagRepr::String, "kind"));
    let b = enum_behavior_for_shape(&attrs(vec!["js_enum_tag=\"\""])).unwrap();
    assert_eq!(b.js_enum_tag.as_str(), "");
    let b = enum_behavior_for_shape(&attrs(vec!["js_enum_tag = \"a b\" "])).unwrap();
    assert_eq!(b.js_enum_tag.as_str(), "a b");
    let b = enum_behavior_for_shape(&attrs(vec!["js_enum_tag = \""])).unwrap();
    assert_eq!(b.js_enum_tag.as_str(), "\"");
    // The value is all that follows the first `=`.
    let b = enum_behavior_for_shape(&attrs(vec!["js_enum_tag = a=b"])).unwrap();
    assert_eq!(b.js_enum_tag.as_str(), "a=b");
    let b = enum_behavior_for_shape(&attrs(vec!["js_enum_tag ="])).unwrap();
    assert_eq!(b.js_enum_tag.as_str(), "");
    // A later attribute overrides an earlier one.
    let b = enum_behavior_for_shape(&attrs(vec![
        "js_enum_repr = \"number\"",
        "js_enum_repr = \"string\"",
        "js_enum_tag = one",
        "js_enum_tag = two",
    ]))
    .unwrap();
    assert_eq!((b.js_enum_repr, b.js_enum_tag.as_str()), (EnumTagRepr::String, "two"));
    assert_eq!(enum_behavior_for_shape(&attrs(vec!["js_enum_repr = number"])), None);
    assert_eq!(
        enum_behavior_for_shape(&attrs(vec!["js_enum_repr = \"float\"", "js_enum_repr = \"string\""])),
        None
    );
}

#[test]
fn an_enum_is_read_from_a_tag_or_from_an_object() {
    let schema = complex_schema(vec![]);
    let mut heap = Heap::new();
    let entries = vec![
        (name("extra"), Value::Null),
        (Key::Index(1), Value::Str("hello".to_string())),
        (name("type"), Value::Str("Tuple".to_string())),
        (Key::Index(0), integer(42)),
    ];
    let h = heap.create(Object { origin: Origin::Runtime, body: Body::Plain(entries) });
    assert_eq!(
        from_v8(&schema, 2, &heap, &Value::Object(h)),
        Ok(Native::Enum { variant: 1, fields: vec![i32_of(42), text("hello")] })
    );
    assert_eq!(
        from_v8(&schema, 2, &heap, &Value::Str("Unit".to_string())),
        Ok(Native::Enum { variant: 0, fields: vec![] })
    );
    assert_eq!(from_v8(&schema, 2, &heap, &integer(10)), Ok(Native::Enum { variant: 0, fields: vec![] }));
    assert_eq!(
        from_v8(&schema, 2, &heap, &Value::Str("Nope".to_string())),
        Err(Error::Variant(VariantError::UnknownName))
    );
    assert_eq!(from_v8(&schema, 2, &heap, &integer(11)), Err(Error::Variant(VariantError::UnknownDiscriminant)));
    assert_eq!(from_v8(&schema, 2, &heap, &Value::Bool(true)), Err(failed(2, Operation::EnumTagKind)));
    // A variant whose fields were not given is not complete.
    assert_eq!(
        from_v8(&schema, 2, &heap, &Value::Str("Tuple".to_string())),
        Err(Error::Reflect(ReflectError::Uninitialized { shape: 2 }))
    );
    let h = heap.create(Object {
        origin: Origin::Runtime,
        body: Body::Plain(vec![(name("a"), integer(1))]),
    });
    assert_eq!(from_v8(&schema, 2, &heap, &Value::Object(h)), Err(failed(2, Operation::MissingEnumTag)));
    let h = heap.create(Object {
        origin: Origin::Runtime,
        body: Body::Plain(vec![
            (name("type"), Value::Str("Tuple".to_string())),
            (Key::Index(2), integer(1)),
        ]),
    });
    assert_eq!(from_v8(&schema, 2, &heap, &Value::Object(h)), Err(failed(2, Operation::FieldOutOfRange)));
    let h = heap.create(Object { origin: Origin::Runtime, body: Body::Array(vec![]) });
    assert_eq!(
        from_v8(&schema, 2, &heap, &Value::Object(h)),
        Err(Error::UnexpectedValue { shape: 2, unexpected: Observed::Array })
    );
    assert_eq!(from_v8(&schema, 2, &heap, &Value::Object(99)), Err(Error::Exception));
    // The variant named by the value must be one of the shape.
    let memory = no_memory();
    assert_eq!(
        marshal(&schema, &memory, &mut heap, 2, &Native::Enum { variant: 9, fields: vec![] }),
        Err(Error::Variant(VariantError::OutOfRange))
    );
    let bad = complex_schema(vec!["js_enum_repr = 7"]);
    assert_eq!(
        marshal(&bad, &memory, &mut heap, 2, &Native::Enum { variant: 0, fields: vec![] }),
        Err(failed(2, Operation::InvalidEnumRepr))
    );
}

#[test]
fn a_field_that_was_not_set_takes_its_default() {
    let mut with_default = field("b", 0);
    with_default.default = Some(i32_of(7));
    let schema = Schema {
        shapes: vec![
            scalar_shape(1, ScalarType::I32),
            struct_shape(2, StructKind::Struct, vec![field("a", 0), with_default]),
        ],
    };
    let mut heap = Heap::new();
    let h = heap.create(Object {
        origin: Origin::Runtime,
        body: Body::Plain(vec![(name("a"), integer(1)), (name("zzz"), Value::Null)]),
    });
    assert_eq!(from_v8(&schema, 1, &heap, &Value::Object(h)), Ok(Native::Struct(vec![i32_of(1), i32_of(7)])));
    let h = heap.create(Object {
        origin: Origin::Runtime,
        body: Body::Plain(vec![(name("b"), integer(2))]),
    });
    assert_eq!(
        from_v8(&schema, 1, &heap, &Value::Object(h)),
        Err(Error::Reflect(ReflectError::Uninitialized { shape: 1 }))
    );
    // Filling a value that is being built leaves the holes in it.
    let mut partial = Partial::alloc_shape(1);
    assert_eq!(from_v8_partial(&schema, &heap, &Value::Object(h), &mut partial), Ok(()));
    assert_eq!(partial.value, Native::Struct(vec![Native::Unset, i32_of(2)]));
    assert_eq!(partial.shape, 1);
    // Where that fails, the value stays as it was.
    assert_eq!(
        from_v8_partial(&schema, &heap, &integer(2), &mut partial),
        Err(Error::UnexpectedValue { shape: 1, unexpected: Observed::Number })
    );
    assert_eq!(partial.value, Native::Struct(vec![Native::Unset, i32_of(2)]));
}

fn typed_field(name: &str, shape: usize) -> Field {
    Field {
        name: name.to_string(),
        shape,
        attributes: vec!["other".to_string(), "typed_array".to_string()],
        default: None,
    }
}

#[test]
fn a_typed_array_is_the_same_from_a_contiguous_and_from_a_generic_sequence() {
    let schema = Schema {
        shapes: vec![
            scalar_shape(1, ScalarType::I16),
            shape_with(2, Def::List(0), Type::User(UserType::Opaque)),
            struct_shape(3, StructKind::Struct, vec![typed_field("data", 1)]),
            scalar_shape(4, ScalarType::U64),
            shape_with(5, Def::List(3), Type::User(UserType::Opaque)),
            struct_shape(6, StructKind::Struct, vec![typed_field("data", 4)]),
        ],
    };
    let memory = no_memory();
    let contiguous = Native::Struct(vec![Native::Contiguous(Buffer {
        kind: ElemKind::I16,
        bits: vec![1, 0xffff, 0x8000],
    })]);
    let generic = Native::Struct(vec![Native::List(vec![
        Native::Scalar(Scalar::I16(1)),
        Native::Scalar(Scalar::I16(-1)),
        Native::Scalar(Scalar::I16(i16::MIN)),
    ])]);
    let mut fast = Heap::new();
    let mut slow = Heap::new();
    assert_eq!(marshal(&schema, &memory, &mut fast, 2, &contiguous), Ok(Value::Object(0)));
    assert_eq!(marshal(&schema, &memory, &mut slow, 2, &generic), Ok(Value::Object(0)));
    assert_eq!(fast, slow);
    assert_eq!(
        fast.objects[1].body,
        Body::Typed(Buffer { kind: ElemKind::I16, bits: vec![1, 0xffff, 0x8000] })
    );
    assert_eq!(fast.objects[0].body, Body::Plain(vec![(name("data"), Value::Object(1))]));
    // Elements of another type than the array holds are refused.
    let wrong = Native::Struct(vec![Native::List(vec![Native::Scalar(Scalar::U16(1))])]);
    assert_eq!(
        marshal(&schema, &memory, &mut Heap::new(), 2, &wrong),
        Err(failed(1, Operation::BufferMismatch))
    );
    let wrong = Native::Struct(vec![Native::Contiguous(Buffer { kind: ElemKind::U16, bits: vec![1] })]);
    assert_eq!(
        marshal(&schema, &memory, &mut Heap::new(), 2, &wrong),
        Err(failed(1, Operation::BufferMismatch))
    );
    // Elements without a fixed width of at most 32 bits, or floats, have no typed array.
    let wide = Native::Struct(vec![Native::List(vec![Native::Scalar(Scalar::U64(1))])]);
    assert_eq!(
        marshal(&schema, &memory, &mut Heap::new(), 5, &wide),
        Err(failed(3, Operation::UnsupportedElement))
    );
    // Without the attribute the same sequence is a plain array.
    let mut plain = Heap::new();
    let list = Native::Contiguous(Buffer { kind: ElemKind::I16, bits: vec![1, 0xffff, 0x8000] });
    assert_eq!(marshal(&schema, &memory, &mut plain, 1, &list), Ok(Value::Object(0)));
    assert_eq!(plain.objects[0].body, Body::Array(vec![integer(1), integer(-1), integer(-32768)]));
    // A typed array is read by an array or a slice value by value.
    let array_schema = Schema {
        shapes: vec![
            scalar_shape(1, ScalarType::I16),
            shape_with(2, Def::Slice(0), Type::Sequence),
            shape_with(3, Def::List(0), Type::User(UserType::Opaque)),
            scalar_shape(4, ScalarType::U8),
            shape_with(5, Def::List(3), Type::User(UserType::Opaque)),
        ],
    };
    assert_eq!(
        from_v8(&array_schema, 1, &fast, &Value::Object(1)),
        Ok(Native::List(vec![
            Native::Scalar(Scalar::I16(1)),
            Native::Scalar(Scalar::I16(-1)),
            Native::Scalar(Scalar::I16(i16::MIN)),
        ]))
    );
    assert_eq!(
        from_v8(&array_schema, 2, &fast, &Value::Object(1)),
        Ok(Native::Contiguous(Buffer { kind: ElemKind::I16, bits: vec![1, 0xffff, 0x8000] }))
    );
    assert_eq!(
        from_v8(&array_schema, 4, &fast, &Value::Object(1)),
        Err(Error::Reflect(ReflectError::WasNotA { shape: 4 }))
    );
    assert_eq!(
        from_v8(&array_schema, 2, &fast, &Value::Object(0)),
        Err(Error::UnexpectedValue { shape: 2, unexpected: Observed::Object })
    );
}

#[test]
fn maps_sets_and_tuples_keep_their_order() {
    let schema = Schema {
        shapes: vec![
            scalar_shape(1, ScalarType::I32),
            scalar_shape(2, ScalarType::String),
            shape_with(3, Def::MapOf { key: 1, value: 0 }, Type::User(UserType::Opaque)),
            shape_with(4, Def::SetOf(0), Type::User(UserType::Opaque)),
            struct_shape(5, StructKind::Tuple, vec![field("0", 0), field("1", 1)]),
            shape_with(6, Def::List(4), Type::User(UserType::Opaque)),
            shape_with(7, Def::Undefined, Type::User(UserType::Union)),
        ],
    };
    let memory = no_memory();
    let mut heap = Heap::new();
    let map = Native::MapOf(vec![(text("one"), i32_of(1)), (text("two"), i32_of(2))]);
    assert_eq!(marshal(&schema, &memory, &mut heap, 2, &map), Ok(Value::Object(0)));
    assert_eq!(
        heap.objects[0].body,
        Body::MapOf(vec![
            (Value::Str("one".to_string()), integer(1)),
            (Value::Str("two".to_string()), integer(2)),
        ])
    );
    assert_eq!(from_v8(&schema, 2, &heap, &Value::Object(0)), Ok(map));
    let set = Native::SetOf(vec![i32_of(3), i32_of(1), i32_of(2)]);
    assert_eq!(marshal(&schema, &memory, &mut heap, 3, &set), Ok(Value::Object(1)));
    assert_eq!(heap.objects[1].body, Body::SetOf(vec![integer(3), integer(1), integer(2)]));
    assert_eq!(from_v8(&schema, 3, &heap, &Value::Object(1)), Ok(set));
    // A tuple is an array of its fields, by position. A function that is
    // registered for it makes the array, and is told the number of fields.
    let tuple = Native::Struct(vec![i32_of(4), text("four")]);
    let mut constructors = Constructors::new();
    constructors.with_constructor(&schema, 4, 1);
    assert_eq!(
        to_v8_with_constructors(
            &mut heap,
            Peek { schema: &schema, memory: &memory, shape: 4, value: &tuple },
            &constructors
        ),
        Ok(Value::Object(2))
    );
    assert_eq!(heap.objects[2].origin, Origin::Function { function: 1, len: Some(2) });
    assert_eq!(heap.objects[2].body, Body::Array(vec![integer(4), Value::Str("four".to_string())]));
    assert_eq!(from_v8(&schema, 4, &heap, &Value::Object(2)), Ok(tuple));
    // A prototype makes a plain object, which takes the fields by position;
    // a template makes no tuple.
    let tuple = Native::Struct(vec![i32_of(4), text("four")]);
    let mut by_prototype = Heap::new();
    constructors.with_prototype(&schema, 4, 9);
    assert_eq!(
        to_v8_with_constructors(
            &mut by_prototype,
            Peek { schema: &schema, memory: &memory, shape: 4, value: &tuple },
            &constructors
        ),
        Ok(Value::Object(0))
    );
    assert_eq!(by_prototype.objects[0].origin, Origin::Prototype(9));
    assert_eq!(
        by_prototype.objects[0].body,
        Body::Plain(vec![(Key::Index(0), integer(4)), (Key::Index(1), Value::Str("four".to_string()))])
    );
    constructors.with_object_template(&schema, 4, 9);
    assert_eq!(
        to_v8_with_constructors(
            &mut by_prototype,
            Peek { schema: &schema, memory: &memory, shape: 4, value: &tuple },
            &constructors
        ),
        Err(failed(4, Operation::TemplateForSequence))
    );
    // Without a constructor the tuple gets the array of the runtime.
    let mut plain_heap = Heap::new();
    assert_eq!(marshal(&schema, &memory, &mut plain_heap, 4, &tuple), Ok(Value::Object(0)));
    assert_eq!(plain_heap.objects[0].origin, Origin::Runtime);
    assert_eq!(
        plain_heap.objects[0].body,
        Body::Array(vec![integer(4), Value::Str("four".to_string())])
    );
    // Objects nest: the container comes before what it holds.
    let nested = Native::List(vec![Native::Struct(vec![i32_of(5), text("five")]), Native::Struct(vec![i32_of(6), text("six")])]);
    assert_eq!(marshal(&schema, &memory, &mut heap, 5, &nested), Ok(Value::Object(3)));
    assert_eq!(heap.objects[3].body, Body::Array(vec![Value::Object(4), Value::Object(5)]));
    assert_eq!(heap.objects[5].body, Body::Array(vec![integer(6), Value::Str("six".to_string())]));
    assert_eq!(from_v8(&schema, 5, &heap, &Value::Object(3)), Ok(nested));
    // A map is not read from a set, nor anything from a number.
    assert_eq!(
        from_v8(&schema, 2, &heap, &Value::Object(1)),
        Err(Error::UnexpectedValue { shape: 2, unexpected: Observed::SetObject })
    );
    assert_eq!(
        from_v8(&schema, 2, &heap, &integer(1)),
        Err(Error::UnexpectedValue { shape: 2, unexpected: Observed::Number })
    );
    assert_eq!(
        marshal(&schema, &memory, &mut heap, 6, &Native::Opaque),
        Err(failed(6, Operation::UnsupportedType))
    );
    assert_eq!(
        from_v8(&schema, 6, &heap, &Value::Object(0)),
        Err(failed(6, Operation::UnsupportedType))
    );
    assert_eq!(heap.len(), 6);
    // The members of a set can be asked for one by one.
    let set = Native::SetOf(vec![i32_of(3), i32_of(1)]);
    let members = PeekSet {
        value: Peek { schema: &schema, memory: &memory, shape: 3, value: &set },
        t: 0,
    }
    .iter();
    assert_eq!(members.len(), 2);
    assert_eq!((members[0].shape, members[0].value), (0, &i32_of(3)));
    assert_eq!((members[1].shape, members[1].value), (0, &i32_of(1)));
    assert!(will_marshal_as_object(&schema, 2));
    assert!(will_marshal_as_object(&schema, 3));
    assert!(will_marshal_as_object(&schema, 4));
    assert!(will_marshal_as_object(&schema, 5));
    assert!(!will_marshal_as_object(&schema, 6));
}

#[test]
fn constructors_make_the_containers_of_their_types() {
    let schema = Schema {
        shapes: vec![
            scalar_shape(1, ScalarType::I32),
            struct_shape(2, StructKind::Struct, vec![field("a", 0)]),
            shape_with(3, Def::List(0), Type::User(UserType::Opaque)),
            enum_shape(4, vec![], vec![variant("A", 0, StructKind::Unit, vec![])]),
            shape_with(5, Def::MapOf { key: 0, value: 0 }, Type::User(UserType::Opaque)),
        ],
    };
    let memory = no_memory();
    let mut constructors = Constructors::new();
    // Only a type whose values become objects is given a constructor.
    assert!(!will_marshal_as_object(&schema, 0));
    assert!(!will_marshal_as_object(&schema, 3));
    assert!(will_marshal_as_object(&schema, 1));
    assert_eq!(constructors.lookup(2), None);
    // A later registration replaces an earlier one.
    constructors.with_prototype(&schema, 1, 11);
    assert_eq!(constructors.lookup(2), Some(Constructor::Prototype(11)));
    constructors.with_custom_constructor(&schema, 1, 12);
    assert_eq!(constructors.lookup(2), Some(Constructor::Custom(12)));
    constructors.with_constructor(&schema, 2, 13);
    constructors.with_object_template(&schema, 4, 14);
    assert_eq!(constructors.lookup(5), Some(Constructor::ObjectTemplate(14)));

    let mut heap = Heap::new();
    let object = Native::Struct(vec![i32_of(1)]);
    let value = to_v8_with_constructors(
        &mut heap,
        Peek { schema: &schema, memory: &memory, shape: 1, value: &object },
        &constructors,
    );
    assert_eq!(value, Ok(Value::Object(0)));
    // The callback is given the value, and no field, for none holds it.
    assert_eq!(
        heap.objects[0].origin,
        Origin::Custom { callback: 12, value: Native::Struct(vec![i32_of(1)]), field: None }
    );
    assert_eq!(heap.objects[0].body, Body::Plain(vec![(name("a"), integer(1))]));
    // A function is given the number of elements of a sequence.
    let list = Native::List(vec![i32_of(1), i32_of(2)]);
    let value = to_v8_with_constructors(
        &mut heap,
        Peek { schema: &schema, memory: &memory, shape: 2, value: &list },
        &constructors,
    );
    assert_eq!(value, Ok(Value::Object(1)));
    assert_eq!(heap.objects[1].origin, Origin::Function { function: 13, len: Some(2) });
    assert_eq!(heap.objects[1].body, Body::Array(vec![integer(1), integer(2)]));
    let map = Native::MapOf(vec![(i32_of(1), i32_of(2))]);
    let value = to_v8_with_constructors(
        &mut heap,
        Peek { schema: &schema, memory: &memory, shape: 4, value: &map },
        &constructors,
    );
    assert_eq!(value, Err(failed(4, Operation::ContainerMismatch)));
    let nothing = Native::Opaque;
    assert_eq!(
        Constructor::ObjectTemplate(1).construct(2, Def::List(0), Some(3), &nothing, None),
        Err(failed(2, Operation::TemplateForSequence))
    );
    assert_eq!(
        Constructor::ObjectTemplate(1).construct(1, Def::Undefined, None, &nothing, None),
        Ok(Object { origin: Origin::Template(1), body: Body::Plain(vec![]) })
    );
    assert_eq!(
        Constructor::Prototype(5).construct(2, Def::List(0), Some(3), &nothing, None),
        Ok(Object { origin: Origin::Prototype(5), body: Body::Plain(vec![]) })
    );
    assert_eq!(
        Constructor::Function(6).construct(4, Def::SetOf(0), None, &nothing, None),
        Ok(Object { origin: Origin::Function { function: 6, len: None }, body: Body::SetOf(vec![]) })
    );
    assert_eq!(
        Constructor::Function(6).construct(2, Def::List(0), Some(2), &nothing, None),
        Ok(Object {
            origin: Origin::Function { function: 6, len: Some(2) },
            body: Body::Array(vec![Value::Undefined, Value::Undefined]),
        })
    );
    // A function is told no number of elements that it cannot be given.
    if let Some(many) = (u32::MAX as usize).checked_add(1) {
        assert_eq!(
            Constructor::Function(6).construct(2, Def::List(0), Some(many), &nothing, None),
            Err(failed(2, Operation::CountRange))
        );
    }
    assert_eq!(
        Constructor::Custom(6).construct(
            2,
            Def::List(0),
            Some(2),
            &Native::List(vec![i32_of(1), i32_of(2)]),
            Some(&typed_field("data", 2)),
        ),
        Ok(Object {
            origin: Origin::Custom {
                callback: 6,
                value: Native::List(vec![i32_of(1), i32_of(2)]),
                field: Some(Owner {
                    name: "data".to_string(),
                    shape: 2,
                    attributes: vec!["other".to_string(), "typed_array".to_string()],
                }),
            },
            body: Body::Array(vec![Value::Undefined, Value::Undefined]),
        })
    );
    assert!(will_serialize_as_object(&EnumType {
        variants: vec![
            variant("A", 0, StructKind::Unit, vec![]),
            variant("B", 1, StructKind::TupleStruct, vec![field("0", 0)]),
        ]
    }));
    assert!(!will_serialize_as_object(&EnumType { variants: vec![] }));
}

#[test]
fn the_heap_sets_properties_and_elements() {
    let mut heap = Heap::new();
    let h = heap.create(Object { origin: Origin::Runtime, body: Body::Plain(vec![]) });
    assert_eq!(heap.set(h, name("a"), integer(1)), Ok(()));
    assert_eq!(heap.set(h, name("b"), integer(2)), Ok(()));
    assert_eq!(heap.set(h, name("a"), integer(3)), Ok(()));
    assert_eq!(heap.set_index(h, 0, integer(4)), Ok(()));
    assert_eq!(
        heap.objects[h].body,
        Body::Plain(vec![(name("a"), integer(3)), (name("b"), integer(2)), (Key::Index(0), integer(4))])
    );
    let a = heap.create(Object { origin: Origin::Runtime, body: Body::Array(vec![integer(0)]) });
    assert_eq!(heap.set_index(a, 0, integer(1)), Ok(()));
    assert_eq!(heap.set_index(a, 3, integer(2)), Ok(()));
    assert_eq!(
        heap.objects[a].body,
        Body::Array(vec![integer(1), Value::Undefined, Value::Undefined, integer(2)])
    );
    assert_eq!(heap.set(a, name("a"), integer(1)), Err(Error::Exception));
    assert_eq!(heap.map_set(a, integer(1), integer(1)), Err(Error::Exception));
    assert_eq!(heap.add(h, integer(1)), Err(Error::Exception));
    assert_eq!(heap.set(9, name("a"), integer(1)), Err(Error::Exception));
    assert_eq!(heap.len(), 2);
}

#[test]
fn the_bytes_of_a_typed_array_are_its_elements_as_they_lie_in_memory() {
    let words = Buffer { kind: ElemKind::U16, bits: vec![0x0102, 0xfffe] };
    let mut expected = Vec::new();
    expected.extend_from_slice(&0x0102u16.to_ne_bytes());
    expected.extend_from_slice(&0xfffeu16.to_ne_bytes());
    assert_eq!(buffer_to_bytes(&words), expected);
    assert_eq!(elements_to_bytes(&words), expected);
    assert_eq!(buffer_from_bytes(ElemKind::U16, &expected), words);
    // Bytes behind the last whole element are passed over.
    expected.push(7);
    assert_eq!(buffer_from_bytes(ElemKind::U16, &expected), words);
    assert_eq!(buffer_from_bytes(ElemKind::U16, &[7]), Buffer { kind: ElemKind::U16, bits: vec![] });

    let signed = Buffer { kind: ElemKind::I32, bits: vec![(-2i32) as u32 as u64, 5] };
    let mut expected = Vec::new();
    expected.extend_from_slice(&(-2i32).to_ne_bytes());
    expected.extend_from_slice(&5i32.to_ne_bytes());
    assert_eq!(buffer_to_bytes(&signed), expected);
    assert_eq!(elements_to_bytes(&signed), expected);
    assert_eq!(buffer_from_bytes(ElemKind::I32, &expected), signed);

    let doubles = Buffer { kind: ElemKind::F64, bits: vec![1.5f64.to_bits(), (-0.0f64).to_bits()] };
    let mut expected = Vec::new();
    expected.extend_from_slice(&1.5f64.to_ne_bytes());
    expected.extend_from_slice(&(-0.0f64).to_ne_bytes());
    assert_eq!(buffer_to_bytes(&doubles), expected);
    assert_eq!(elements_to_bytes(&doubles), expected);
    assert_eq!(buffer_from_bytes(ElemKind::F64, &expected), doubles);

    let singles = Buffer { kind: ElemKind::F32, bits: vec![2.5f32.to_bits() as u64] };
    assert_eq!(buffer_to_bytes(&singles), 2.5f32.to_ne_bytes().to_vec());
    assert_eq!(buffer_from_bytes(ElemKind::F32, &2.5f32.to_ne_bytes()), singles);

    // What lies above the width of an element is cut off.
    let bytes = Buffer { kind: ElemKind::I8, bits: vec![0x1ff, 0x80, 1] };
    assert_eq!(buffer_to_bytes(&bytes), vec![0xff, 0x80, 1]);
    assert_eq!(elements_to_bytes(&bytes), vec![0xff, 0x80, 1]);
    assert_eq!(
        buffer_from_bytes(ElemKind::I8, &[0xff, 0x80, 1]),
        Buffer { kind: ElemKind::I8, bits: vec![0xff, 0x80, 1] }
    );
    assert_eq!(element_to_bytes(ElemKind::U32, 0x1_0000_0007), 7u32.to_ne_bytes().to_vec());
    assert_eq!(buffer_to_bytes(&Buffer { kind: ElemKind::U32, bits: vec![] }), Vec::<u8>::new());
}

#[test]
fn shapes_and_tables_that_do_not_fit_are_refused() {
    // A scalar of a kind that the runtime has no counterpart for.
    let schema = Schema {
        shapes: vec![
            Shape { id: 1, def: Def::Scalar, ty: Type::Primitive, scalar: None, attributes: vec![] },
            struct_shape(2, StructKind::Struct, vec![field("a", 0)]),
            shape_with(
                3,
                Def::Pointer { known: Some(KnownPointer::Rc), pointee: Some(1) },
                Type::User(UserType::Opaque),
            ),
        ],
    };
    let memory = Memory { cells: vec![Native::Struct(vec![i32_of(1)])] };
    let mut heap = Heap::new();
    assert_eq!(
        marshal(&schema, &memory, &mut heap, 0, &i32_of(1)),
        Err(failed(0, Operation::UnsupportedScalar))
    );
    assert_eq!(
        from_v8(&schema, 0, &heap, &integer(1)),
        Err(Error::UnexpectedValue { shape: 0, unexpected: Observed::Number })
    );
    // A table of shared pointers that is shorter than the memory.
    let constructors = Constructors::new();
    let mut state = facet_v8::MarshalState {
        pointers: facet_v8::MarshalPointers::new(0),
        constructors: &constructors,
    };
    let pointer = Native::Shared(Some(0));
    assert_eq!(
        facet_v8::marshal::pointer::marshal_smart_pointer(
            Peek { schema: &schema, memory: &memory, shape: 2, value: &pointer },
            &mut heap,
            &mut state,
            None,
        ),
        Err(failed(2, Operation::UntrackedPointer))
    );
    // A pointer to a cell that the memory does not have.
    assert_eq!(
        marshal(&schema, &memory, &mut heap, 2, &Native::Shared(Some(5))),
        Err(Error::Reflect(ReflectError::WasNotA { shape: 2 }))
    );
    let mut table = facet_v8::MarshalPointers::new(3);
    assert_eq!((table.get(0), table.get(1), table.get(2), table.get(3)), (None, None, None, None));
    table.insert(1, 7);
    assert_eq!((table.get(0), table.get(1), table.get(2), table.get(3)), (None, Some(7), None, None));
    table.insert(1, 4);
    assert_eq!(table.get(1), Some(4));
    assert!(facet_v8::UnmarshalPointers::new().objects.is_empty());
    // A value that is being built is built once every place holds a value.
    let partial = Partial { shape: 1, value: Native::Struct(vec![Native::Unset]) };
    assert_eq!(partial.build(), Err(Error::Reflect(ReflectError::Uninitialized { shape: 1 })));
    let partial = Partial { shape: 1, value: Native::Struct(vec![i32_of(1)]) };
    assert_eq!(partial.build(), Ok(Native::Struct(vec![i32_of(1)])));
    assert!(!facet_v8::marshal::is_complete(&Native::MapOf(vec![(i32_of(1), Native::Unset)])));
    assert!(facet_v8::marshal::is_complete(&Native::Optional(None)));
}

#[test]
fn a_failed_enum_keeps_the_tag_that_was_set() {
    let schema = complex_schema(vec!["js_enum_tag = \"type\""]);
    let memory = no_memory();
    let constructors = Constructors::new();
    let mut heap = Heap::new();
    let h = heap.create(Object {
        origin: Origin::Runtime,
        body: Body::Plain(vec![(name("seen"), Value::Bool(true))]),
    });
    let mut state = facet_v8::MarshalState {
        pointers: facet_v8::MarshalPointers::new(0),
        constructors: &constructors,
    };
    let enum_type = match &schema.shapes[2].ty {
        Type::User(UserType::Enum(e)) => e,
        _ => unreachable!(),
    };
    // The second field of the variant is named like the tag.
    let clash = Native::Enum { variant: 3, fields: vec![i32_of(42), text("hello")] };
    assert_eq!(
        marshal_enum_object_into(
            Peek { schema: &schema, memory: &memory, shape: 2, value: &clash },
            enum_type,
            &mut heap,
            h,
            &mut state,
        ),
        Err(Error::ClobberedTypeTag(2))
    );
    // The tag is there as it was set, and nothing was written over it.
    assert_eq!(
        heap.objects[h].body,
        Body::Plain(vec![
            (name("seen"), Value::Bool(true)),
            (name("type"), Value::Str("Clash".to_string())),
        ])
    );
    assert_eq!(heap.len(), 1);
    // Where the filling fails before the tag is set, the object stays as it was.
    let missing = Native::Enum { variant: 9, fields: vec![] };
    let g = heap.create(Object { origin: Origin::Runtime, body: Body::Plain(vec![]) });
    assert_eq!(
        marshal_enum_object_into(
            Peek { schema: &schema, memory: &memory, shape: 2, value: &missing },
            enum_type,
            &mut heap,
            g,
            &mut state,
        ),
        Err(Error::Variant(VariantError::OutOfRange))
    );
    assert_eq!(heap.objects[g].body, Body::Plain(vec![]));
}

#[test]
fn a_discriminant_that_is_no_whole_number_of_the_runtime_is_refused() {
    let schema = Schema {
        shapes: vec![enum_shape(
            1,
            vec!["js_enum_repr = \"number\""],
            vec![
                variant("Small", -0x8000_0000, StructKind::Unit, vec![]),
                variant("Large", 0xffff_ffff, StructKind::Unit, vec![]),
                variant("Huge", 0x1_0000_0000, StructKind::Unit, vec![]),
                variant("Deep", -0x8000_0001, StructKind::Unit, vec![]),
                Variant {
                    name: "Bare".to_string(),
                    discriminant: None,
                    data: StructType { kind: StructKind::Unit, fields: vec![] },
                },
            ],
        )],
    };
    let memory = no_memory();
    let mut heap = Heap::new();
    let unit = |index: usize| Native::Enum { variant: index, fields: vec![] };
    assert_eq!(marshal(&schema, &memory, &mut heap, 0, &unit(0)), Ok(integer(-0x8000_0000)));
    assert_eq!(marshal(&schema, &memory, &mut heap, 0, &unit(1)), Ok(integer(0xffff_ffff)));
    assert_eq!(
        marshal(&schema, &memory, &mut heap, 0, &unit(2)),
        Err(failed(0, Operation::DiscriminantRange))
    );
    assert_eq!(
        marshal(&schema, &memory, &mut heap, 0, &unit(3)),
        Err(failed(0, Operation::DiscriminantRange))
    );
    // A variant without a discriminant is written as zero.
    assert_eq!(marshal(&schema, &memory, &mut heap, 0, &unit(4)), Ok(integer(0)));
    assert_eq!(from_v8(&schema, 0, &heap, &integer(0xffff_ffff)), Ok(unit(1)));
}

#[test]
fn a_key_that_is_a_symbol_fails_an_enum_and_names_no_field() {
    let schema = complex_schema(vec![]);
    let mut heap = Heap::new();
    let h = heap.create(Object {
        origin: Origin::Runtime,
        body: Body::Plain(vec![
            (name("type"), Value::Str("Tuple".to_string())),
            (Key::Index(0), integer(42)),
            (Key::Symbol(3), Value::Null),
            (Key::Index(1), Value::Str("hello".to_string())),
        ]),
    });
    assert_eq!(from_v8(&schema, 2, &heap, &Value::Object(h)), Err(failed(2, Operation::EnumKeyKind)));
    // An earlier failure comes first.
    let h = heap.create(Object {
        origin: Origin::Runtime,
        body: Body::Plain(vec![
            (name("type"), Value::Str("Tuple".to_string())),
            (Key::Index(9), integer(42)),
            (Key::Symbol(3), Value::Null),
        ]),
    });
    assert_eq!(from_v8(&schema, 2, &heap, &Value::Object(h)), Err(failed(2, Operation::FieldOutOfRange)));

    // A struct is read by the names of its fields: a symbol is none.
    let schema = Schema {
        shapes: vec![
            scalar_shape(1, ScalarType::I32),
            struct_shape(2, StructKind::Struct, vec![field("a", 0)]),
        ],
    };
    let mut heap = Heap::new();
    let h = heap.create(Object {
        origin: Origin::Runtime,
        body: Body::Plain(vec![(Key::Symbol(3), integer(5)), (name("a"), integer(1))]),
    });
    assert_eq!(from_v8(&schema, 1, &heap, &Value::Object(h)), Ok(Native::Struct(vec![i32_of(1)])));
    assert_ne!(Key::Symbol(3), Key::Symbol(4));
    assert_ne!(Key::Symbol(3), Key::Index(3));
}

#[test]
fn a_table_of_shared_pointers_holds_one_object_for_a_cell() {
    let mut table = facet_v8::MarshalPointers::new(2);
    assert_eq!(table.cells, 2);
    assert!(table.shared_pointers.is_empty());
    table.insert(0, 5);
    table.insert(1, 6);
    assert_eq!((table.get(0), table.get(1)), (Some(5), Some(6)));
    assert_eq!(table.shared_pointers.len(), 2);
    // A cell that the table was not made for has no object.
    assert_eq!(table.get(2), None);
}
