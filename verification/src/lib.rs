//! Marshalling between native values, described by shapes, and the value
//! model of a scripting runtime: objects, arrays, typed arrays, maps, sets,
//! tagged unions and scalars.
//!
//! Both sides are plain data. A native value is a tree whose shared pointers
//! name cells of a memory; a runtime value is a scalar or the handle of an
//! object in a heap. An embedding turns reflected data into the first and
//! replays the second against a live engine.

pub mod marshal;

pub use marshal::heap::{Body, Heap, Object, Origin};
pub use marshal::native::{Buffer, ElemKind, Memory, Native, Scalar};
pub use marshal::object::{Constructor, Constructors};
pub use marshal::pointer::{MarshalPointers, UnmarshalPointers};
pub use marshal::shape::{
    Def, EnumType, Field, KnownPointer, Owner, PointerType, ScalarType, Schema, Shape,
    StructKind, StructType, Type, UserType, Variant,
};
pub use marshal::value::{BigInt, Key, Number, Value};
pub use marshal::{
    from_v8, from_v8_partial, to_v8, to_v8_with_constructors, Error, MarshalState, Observed,
    Operation, Partial, Peek, ReflectError, VariantError,
};
