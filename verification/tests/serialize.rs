use facet_v8::marshal::marshal_into_object;
use facet_v8::{
    from_v8, to_v8, to_v8_with_constructors, Body, Buffer, Constructors, Def, ElemKind, EnumType,
    Field, Heap, Key, KnownPointer, MarshalPointers, MarshalState, Memory, Native, Number, Object,
    Origin, Peek, Scalar, ScalarType, Schema, Shape, StructKind, StructType, Type, UserType, Value,
    Variant,
};

fn scalar_shape(id: u64, st: ScalarType) -> Shape {
    Shape { id, def: Def::Scalar, ty: Type::Primitive, scalar: Some(st), attributes: vec![] }
}

fn field(name: &str, shape: usize) -> Field {
    Field { name: name.to_string(), shape, attributes: vec![], default: None }
}

fn struct_shape(id: u64, kind: StructKind, fields: Vec<Field>) -> Shape {
    Shape {
        id,
        def: Def::Undefined,
        ty: Type::User(UserType::Struct(StructType { kind, fields })),
        scalar: None,
        attributes: vec![],
    }
}

fn variant(name: &str, discriminant: i64, kind: StructKind, fields: Vec<Field>) -> Variant {
    Variant {
        name: name.to_string(),
        discriminant: Some(discriminant),
        data: StructType { kind, fields },
    }
}

fn enum_shape(id: u64, attributes: Vec<&str>, variants: Vec<Variant>) -> Shape {
    Shape {
        id,
        def: Def::Undefined,
        ty: Type::User(UserType::Enum(EnumType { variants })),
        scalar: None,
        attributes: attributes.into_iter().map(|a| a.to_string()).collect(),
    }
}

fn no_memory() -> Memory {
    Memory { cells: vec![] }
}

fn text(s: &str) -> Native {
    Native::Scalar(Scalar::Text(s.to_string()))
}

fn number_of(value: &Value) -> f64 {
    match value {
        Value::Number(Number::Integer(i)) => *i as f64,
        Value::Number(Number::Single(bits)) => f32::from_bits(*bits) as f64,
        Value::Number(Number::Double(bits)) => f64::from_bits(*bits),
        other => panic!("expected number, got {:?}", other),
    }
}

fn string_of(value: &Value) -> String {
    match value {
        Value::Str(s) => s.clone(),
        other => panic!("expected string, got {:?}", other),
    }
}

fn handle_of(value: &Value) -> usize {
    match value {
        Value::Object(h) => *h,
        other => panic!("expected object, got {:?}", other),
    }
}

fn property<'a>(heap: &'a Heap, object: &Value, name: &str) -> &'a Value {
    match &heap.objects[handle_of(object)].body {
        Body::Plain(entries) => {
            for (key, value) in entries {
                if *key == Key::Name(name.to_string()) {
                    return value;
                }
            }
            panic!("no property {}", name)
        },
        other => panic!("expected a plain object, got {:?}", other),
    }
}

fn element<'a>(heap: &'a Heap, object: &Value, index: u32) -> &'a Value {
    match &heap.objects[handle_of(object)].body {
        Body::Array(items) => &items[index as usize],
        Body::Plain(entries) => {
            for (key, value) in entries {
                if *key == Key::Index(index) {
                    return value;
                }
            }
            panic!("no element {}", index)
        },
        other => panic!("expected an array, got {:?}", other),
    }
}

fn length_of(heap: &Heap, object: &Value) -> usize {
    match &heap.objects[handle_of(object)].body {
        Body::Array(items) => items.len(),
        other => panic!("expected an array, got {:?}", other),
    }
}

fn double(x: f64) -> Native {
    Native::Scalar(Scalar::Float(Number::Double(x.to_bits())))
}

#[test]
fn scalar() {
    let schema = Schema {
        shapes: vec![
            scalar_shape(1, ScalarType::U32),
            scalar_shape(2, ScalarType::I32),
            scalar_shape(3, ScalarType::F64),
            scalar_shape(4, ScalarType::Bool),
        ],
    };
    let memory = no_memory();
    let mut heap = Heap::new();

    let native = Native::Scalar(Scalar::U32(123));
    let uint = to_v8(&mut heap, Peek { schema: &schema, memory: &memory, shape: 0, value: &native })
        .unwrap();
    assert_eq!(number_of(&uint), 123.0);
    assert_eq!(from_v8(&schema, 0, &heap, &uint).unwrap(), Native::Scalar(Scalar::U32(123u32)));

    let native = Native::Scalar(Scalar::I32(-123));
    let int = to_v8(&mut heap, Peek { schema: &schema, memory: &memory, shape: 1, value: &native })
        .unwrap();
    assert_eq!(number_of(&int), -123.0);
    assert_eq!(from_v8(&schema, 1, &heap, &int).unwrap(), Native::Scalar(Scalar::I32(-123i32)));

    let native = double(123.456f64);
    let float = to_v8(&mut heap, Peek { schema: &schema, memory: &memory, shape: 2, value: &native })
        .unwrap();
    assert_eq!(number_of(&float), 123.456);
    assert_eq!(from_v8(&schema, 2, &heap, &float).unwrap(), double(123.456f64));

    let native = Native::Scalar(Scalar::Bool(true));
    let boolean =
        to_v8(&mut heap, Peek { schema: &schema, memory: &memory, shape: 3, value: &native })
            .unwrap();
    assert!(matches!(boolean, Value::Bool(true)));
    assert_eq!(from_v8(&schema, 3, &heap, &boolean).unwrap(), Native::Scalar(Scalar::Bool(true)));
}

#[test]
fn string() {
    let schema = Schema {
        shapes: vec![scalar_shape(1, ScalarType::String), scalar_shape(2, ScalarType::Str)],
    };
    let memory = no_memory();
    let mut heap = Heap::new();

    let hello = text("hello");
    let value = to_v8(&mut heap, Peek { schema: &schema, memory: &memory, shape: 0, value: &hello })
        .unwrap();
    assert_eq!(string_of(&value), "hello");
    assert_eq!(from_v8(&schema, 0, &heap, &value).unwrap(), hello);

    assert_eq!(
        string_of(
            &to_v8(
                &mut heap,
                Peek { schema: &schema, memory: &memory, shape: 0, value: &text("hello") }
            )
            .unwrap()
        ),
        "hello"
    );

    let foo = to_v8(
        &mut heap,
        Peek { schema: &schema, memory: &memory, shape: 1, value: &text("foo") },
    )
    .unwrap();
    assert_eq!(foo, Value::Str("foo".to_string()));
}

fn check_one_two_three(heap: &Heap, arr: &Value) {
    assert_eq!(length_of(heap, arr), 3);
    assert_eq!(number_of(element(heap, arr, 0)), 1.0);
    assert_eq!(number_of(element(heap, arr, 1)), 2.0);
    assert_eq!(number_of(element(heap, arr, 2)), 3.0);
}

#[test]
fn array() {
    let schema = Schema {
        shapes: vec![
            scalar_shape(1, ScalarType::I32),
            // [i32; 3]
            Shape {
                id: 2,
                def: Def::Array(0),
                ty: Type::Sequence,
                scalar: None,
                attributes: vec![],
            },
            // Vec<i32>
            Shape {
                id: 3,
                def: Def::List(0),
                ty: Type::User(UserType::Opaque),
                scalar: None,
                attributes: vec![],
            },
            // Box<[i32; 3]>
            Shape {
                id: 4,
                def: Def::Pointer { known: Some(KnownPointer::Box), pointee: Some(1) },
                ty: Type::User(UserType::Opaque),
                scalar: None,
                attributes: vec![],
            },
        ],
    };
    let memory = no_memory();
    let mut heap = Heap::new();
    let one_two_three = || {
        vec![
            Native::Scalar(Scalar::I32(1)),
            Native::Scalar(Scalar::I32(2)),
            Native::Scalar(Scalar::I32(3)),
        ]
    };

    let native = Native::List(one_two_three());
    let array = to_v8(&mut heap, Peek { schema: &schema, memory: &memory, shape: 1, value: &native })
        .unwrap();
    check_one_two_three(&heap, &array);
    assert_eq!(from_v8(&schema, 2, &heap, &array).unwrap(), Native::List(one_two_three()));

    let native = Native::Contiguous(Buffer { kind: ElemKind::I32, bits: vec![1, 2, 3] });
    let vec = to_v8(&mut heap, Peek { schema: &schema, memory: &memory, shape: 2, value: &native })
        .unwrap();
    check_one_two_three(&heap, &vec);

    let native = Native::Owned(Some(Box::new(Native::List(one_two_three()))));
    let boxed = to_v8(&mut heap, Peek { schema: &schema, memory: &memory, shape: 3, value: &native })
        .unwrap();
    check_one_two_three(&heap, &boxed);
}

fn plain_shapes() -> Vec<Shape> {
    vec![
        scalar_shape(1, ScalarType::I32),
        scalar_shape(2, ScalarType::String),
        scalar_shape(3, ScalarType::F64),
        struct_shape(10, StructKind::Struct, vec![field("a", 0), field("b", 1), field("c", 2)]),
    ]
}

fn plain() -> Native {
    Native::Struct(vec![Native::Scalar(Scalar::I32(42)), text("hello"), double(3.4)])
}

fn check_plain(heap: &Heap, obj: &Value) {
    assert!(matches!(heap.objects[handle_of(obj)].body, Body::Plain(_)));
    assert_eq!(number_of(property(heap, obj, "a")), 42.0);
    assert_eq!(string_of(property(heap, obj, "b")), "hello");
    assert_eq!(number_of(property(heap, obj, "c")), 3.4);
}

#[test]
fn object() {
    let schema = Schema { shapes: plain_shapes() };
    let memory = no_memory();
    let mut heap = Heap::new();

    let native = plain();
    let value = to_v8(&mut heap, Peek { schema: &schema, memory: &memory, shape: 3, value: &native })
        .unwrap();
    check_plain(&heap, &value);
    assert_eq!(from_v8(&schema, 3, &heap, &value).unwrap(), plain());

    // The function with the number 7 stands for
    // `function Foo() { this.x = 10; this.y = 20; }`.
    let mut constructors = Constructors::new();
    constructors.with_constructor(&schema, 3, 7);
    let plain_with_constructor = to_v8_with_constructors(
        &mut heap,
        Peek { schema: &schema, memory: &memory, shape: 3, value: &native },
        &constructors,
    )
    .unwrap();
    check_plain(&heap, &plain_with_constructor);
    let h = handle_of(&plain_with_constructor);
    assert_eq!(heap.objects[h].origin, Origin::Function { function: 7, len: None });
    assert_eq!(from_v8(&schema, 3, &heap, &plain_with_constructor).unwrap(), plain());

    // The object that the constructor returns holds `x` and `y` before any
    // field is set: the fields are set on it, and what it held stays.
    let made = Object {
        origin: Origin::Function { function: 7, len: None },
        body: Body::Plain(vec![
            (Key::Name("x".to_string()), Value::Number(Number::Integer(10))),
            (Key::Name("y".to_string()), Value::Number(Number::Integer(20))),
        ]),
    };
    let h = heap.create(made);
    let mut state =
        MarshalState { pointers: MarshalPointers::new(0), constructors: &constructors };
    marshal_into_object(
        Peek { schema: &schema, memory: &memory, shape: 3, value: &native },
        &mut heap,
        h,
        &mut state,
    )
    .unwrap();
    let filled = Value::Object(h);
    check_plain(&heap, &filled);
    assert_eq!(number_of(property(&heap, &filled, "x")), 10.0);
    assert_eq!(number_of(property(&heap, &filled, "y")), 20.0);
    match &heap.objects[h].body {
        Body::Plain(entries) => {
            let names: Vec<&Key> = entries.iter().map(|(k, _)| k).collect();
            assert_eq!(
                names,
                vec![
                    &Key::Name("x".to_string()),
                    &Key::Name("y".to_string()),
                    &Key::Name("a".to_string()),
                    &Key::Name("b".to_string()),
                    &Key::Name("c".to_string()),
                ]
            );
        }
        other => panic!("expected a plain object, got {:?}", other),
    }
    // This succeeds even though the constructor adds properties.
    assert_eq!(from_v8(&schema, 3, &heap, &filled).unwrap(), plain());
}

#[test]
fn smart_pointers() {
    let mut shapes = plain_shapes();
    // Rc<Plain>
    shapes.push(Shape {
        id: 11,
        def: Def::Pointer { known: Some(KnownPointer::Rc), pointee: Some(3) },
        ty: Type::User(UserType::Opaque),
        scalar: None,
        attributes: vec![],
    });
    // PlainRcs
    shapes.push(struct_shape(12, StructKind::Struct, vec![field("a", 4), field("b", 4)]));
    let schema = Schema { shapes };
    let memory = Memory { cells: vec![plain()] };
    let mut heap = Heap::new();

    let native = Native::Struct(vec![Native::Shared(Some(0)), Native::Shared(Some(0))]);
    let plain_rcs =
        to_v8(&mut heap, Peek { schema: &schema, memory: &memory, shape: 5, value: &native })
            .unwrap();
    // `a` and `b` are the same object.
    let a = property(&heap, &plain_rcs, "a");
    let b = property(&heap, &plain_rcs, "b");
    assert_eq!(handle_of(a), handle_of(b));
    check_plain(&heap, a);
}

fn simple_variants() -> Vec<Variant> {
    vec![
        variant("A", 1, StructKind::Unit, vec![]),
        variant("B", 2, StructKind::Unit, vec![]),
        variant("C", 3, StructKind::Unit, vec![]),
    ]
}

fn unit(index: usize) -> Native {
    Native::Enum { variant: index, fields: vec![] }
}

#[test]
fn simple_enums() {
    let schema = Schema {
        shapes: vec![
            enum_shape(1, vec!["js_enum_repr = \"string\""], simple_variants()),
            enum_shape(2, vec!["js_enum_repr = \"number\""], simple_variants()),
        ],
    };
    let memory = no_memory();
    let mut heap = Heap::new();
    let mut marshal = |shape: usize, index: usize| {
        to_v8(&mut heap, Peek { schema: &schema, memory: &memory, shape, value: &unit(index) })
            .unwrap()
    };

    let a = marshal(0, 0);
    let b = marshal(0, 1);
    let c = marshal(0, 2);
    assert_eq!(string_of(&a), "A");
    assert_eq!(string_of(&b), "B");
    assert_eq!(string_of(&c), "C");
    let heap2 = Heap::new();
    assert_eq!(from_v8(&schema, 0, &heap2, &a).unwrap(), unit(0));
    assert_eq!(from_v8(&schema, 0, &heap2, &b).unwrap(), unit(1));
    assert_eq!(from_v8(&schema, 0, &heap2, &c).unwrap(), unit(2));

    let a = marshal(1, 0);
    let b = marshal(1, 1);
    let c = marshal(1, 2);
    assert_eq!(number_of(&a), 1.0);
    assert_eq!(number_of(&b), 2.0);
    assert_eq!(number_of(&c), 3.0);
    assert_eq!(from_v8(&schema, 1, &heap2, &a).unwrap(), unit(0));
    assert_eq!(from_v8(&schema, 1, &heap2, &b).unwrap(), unit(1));
    assert_eq!(from_v8(&schema, 1, &heap2, &c).unwrap(), unit(2));
}

#[test]
fn complex_enum() {
    let schema = Schema {
        shapes: vec![
            scalar_shape(1, ScalarType::I32),
            scalar_shape(2, ScalarType::String),
            enum_shape(
                3,
                vec![],
                vec![
                    variant("Unit", 0, StructKind::Unit, vec![]),
                    variant("Tuple", 1, StructKind::Tuple, vec![field("0", 0), field("1", 1)]),
                    variant("Struct", 2, StructKind::Struct, vec![field("a", 0), field("b", 1)]),
                ],
            ),
        ],
    };
    let memory = no_memory();
    let mut heap = Heap::new();
    let unit_native = Native::Enum { variant: 0, fields: vec![] };
    let tuple_native =
        Native::Enum { variant: 1, fields: vec![Native::Scalar(Scalar::I32(42)), text("hello")] };
    let struct_native =
        Native::Enum { variant: 2, fields: vec![Native::Scalar(Scalar::I32(42)), text("hello")] };

    let unit =
        to_v8(&mut heap, Peek { schema: &schema, memory: &memory, shape: 2, value: &unit_native })
            .unwrap();
    let tuple =
        to_v8(&mut heap, Peek { schema: &schema, memory: &memory, shape: 2, value: &tuple_native })
            .unwrap();
    let struct_ =
        to_v8(&mut heap, Peek { schema: &schema, memory: &memory, shape: 2, value: &struct_native })
            .unwrap();

    assert_eq!(string_of(property(&heap, &unit, "type")), "Unit");
    assert_eq!(string_of(property(&heap, &tuple, "type")), "Tuple");
    assert_eq!(number_of(element(&heap, &tuple, 0)), 42.0);
    assert_eq!(string_of(element(&heap, &tuple, 1)), "hello");
    assert_eq!(string_of(property(&heap, &struct_, "type")), "Struct");
    assert_eq!(number_of(property(&heap, &struct_, "a")), 42.0);
    assert_eq!(string_of(property(&heap, &struct_, "b")), "hello");

    assert_eq!(from_v8(&schema, 2, &heap, &unit).unwrap(), unit_native);
    assert_eq!(from_v8(&schema, 2, &heap, &tuple).unwrap(), tuple_native);
    assert_eq!(from_v8(&schema, 2, &heap, &struct_).unwrap(), struct_native);
}

fn typed_array_schema(element: ScalarType) -> Schema {
    Schema {
        shapes: vec![
            scalar_shape(1, element),
            Shape {
                id: 2,
                def: Def::List(0),
                ty: Type::User(UserType::Opaque),
                scalar: None,
                attributes: vec![],
            },
            struct_shape(
                3,
                StructKind::Struct,
                vec![Field {
                    name: "data".to_string(),
                    shape: 1,
                    attributes: vec!["typed_array".to_string()],
                    default: None,
                }],
            ),
        ],
    }
}

fn typed_data<'a>(heap: &'a Heap, array: &Value) -> &'a Buffer {
    match &heap.objects[handle_of(property(heap, array, "data"))].body {
        Body::Typed(buffer) => buffer,
        other => panic!("expected a typed array, got {:?}", other),
    }
}

#[test]
fn typed_arrays_u8() {
    let schema = typed_array_schema(ScalarType::U8);
    let memory = no_memory();
    let mut heap = Heap::new();
    let array = Native::Struct(vec![Native::Contiguous(Buffer {
        kind: ElemKind::U8,
        bits: vec![1u8 as u64, 2, 3],
    })]);
    let v8_array =
        to_v8(&mut heap, Peek { schema: &schema, memory: &memory, shape: 2, value: &array })
            .unwrap();
    let data = typed_data(&heap, &v8_array);
    assert_eq!(data.kind, ElemKind::U8);
    assert_eq!(data.bits, vec![1, 2, 3]);
    assert_eq!(from_v8(&schema, 2, &heap, &v8_array).unwrap(), array);
}

#[test]
fn typed_arrays_i32() {
    let schema = typed_array_schema(ScalarType::I32);
    let memory = no_memory();
    let mut heap = Heap::new();
    let array = Native::Struct(vec![Native::Contiguous(Buffer {
        kind: ElemKind::I32,
        bits: vec![1i32 as u64, 2, 3],
    })]);
    let v8_array =
        to_v8(&mut heap, Peek { schema: &schema, memory: &memory, shape: 2, value: &array })
            .unwrap();
    let data = typed_data(&heap, &v8_array);
    assert_eq!(data.kind, ElemKind::I32);
    assert_eq!(data.bits, vec![1, 2, 3]);
    assert_eq!(from_v8(&schema, 2, &heap, &v8_array).unwrap(), array);
}

#[test]
fn typed_arrays_f64() {
    let schema = typed_array_schema(ScalarType::F64);
    let memory = no_memory();
    let mut heap = Heap::new();
    let array = Native::Struct(vec![Native::Contiguous(Buffer {
        kind: ElemKind::F64,
        bits: vec![1.0f64.to_bits(), 2.0f64.to_bits(), 3.0f64.to_bits()],
    })]);
    let v8_array =
        to_v8(&mut heap, Peek { schema: &schema, memory: &memory, shape: 2, value: &array })
            .unwrap();
    let data = typed_data(&heap, &v8_array);
    assert_eq!(data.kind, ElemKind::F64);
    let elements: Vec<f64> = data.bits.iter().map(|b| f64::from_bits(*b)).collect();
    assert_eq!(elements, vec![1.0, 2.0, 3.0]);
    assert_eq!(from_v8(&schema, 2, &heap, &v8_array).unwrap(), array);
}
