//! Why marshalling or unmarshalling fails.

use vstd::prelude::*;

verus! {

/// An operation that a shape does not support.
#[derive(Clone, Copy, Debug, PartialEq, Eq, Structural)]
pub enum Operation {
    /// The shape has no kind the marshaller knows.
    UnsupportedType,
    /// The scalar is of a kind that has no counterpart in the runtime.
    UnsupportedScalar,
    /// The shape is absent from the schema, or a wrapper shape does not
    /// refer to an earlier shape.
    MalformedShape,
    /// A shared pointer names a cell outside the pointer table.
    UntrackedPointer,
    /// A container was asked to hold what its class cannot hold.
    ContainerMismatch,
    /// A typed array was asked for elements that have no fixed width.
    UnsupportedElement,
    /// A typed array and the sequence written to it differ in length or
    /// element type.
    BufferMismatch,
    /// A template cannot make an array or a tuple.
    TemplateForSequence,
    /// A sequence has more elements than the number that a constructor
    /// function is given can hold.
    CountRange,
    /// A weak smart pointer.
    WeakPointer,
    /// A borrowed reference to anything but a string.
    ReferenceToNonString,
    /// A raw pointer.
    RawPointer,
    /// A function pointer.
    FunctionPointer,
    /// A pointer cannot be rebuilt from a runtime value.
    UnmarshalPointer,
    /// A string slice cannot be rebuilt: it has no owner.
    UnmarshalStringSlice,
    /// A character was expected and the string holds none or several.
    ExpectedSingleChar,
    /// A property names a position where the variant has no field.
    FieldOutOfRange,
    /// The object that stands for an enum lacks its tag.
    MissingEnumTag,
    /// The tag of an enum is neither a string nor a number.
    EnumTagKind,
    /// A property of the object of an enum has a key that is neither a
    /// string nor a number.
    EnumKeyKind,
    /// The attribute that chooses how a tag is written has an unknown value.
    InvalidEnumRepr,
    /// The discriminant that is to be the tag is no whole number of the
    /// runtime.
    DiscriminantRange,
    /// The runtime value refers to itself.
    CyclicValue,
}

/// A failure of the reflection layer.
#[derive(Clone, Copy, Debug, PartialEq, Eq, Structural)]
pub enum ReflectError {
    /// The native value is not of the kind its shape announces.
    WasNotA { shape: usize },
    /// A place of the value was never set and has no default.
    Uninitialized { shape: usize },
    /// The shape does not support the operation.
    OperationFailed { shape: usize, operation: Operation },
}

/// A failure to select the variant of an enum.
#[derive(Clone, Copy, Debug, PartialEq, Eq, Structural)]
pub enum VariantError {
    /// No variant has the name.
    UnknownName,
    /// No variant has the discriminant.
    UnknownDiscriminant,
    /// The value names a variant that its shape does not have.
    OutOfRange,
}

/// The kind of runtime value that was found where another was expected.
#[derive(Clone, Copy, Debug, PartialEq, Eq, Structural)]
pub enum Observed {
    Undefined,
    Null,
    Boolean,
    Number,
    BigInt,
    String,
    Object,
    Array,
    MapObject,
    SetObject,
    TypedArray,
}

/// Why a value could not be marshalled or unmarshalled. Shapes are named by
/// their index in the schema.
#[derive(Clone, Copy, Debug, PartialEq, Eq, Structural)]
pub enum Error {
    /// The runtime signalled a failure.
    Exception,
    /// The shape does not support what was asked of it.
    Reflect(ReflectError),
    /// No variant of an enum could be selected.
    Variant(VariantError),
    /// A payload field of an enum is named like its tag.
    ClobberedTypeTag(usize),
    /// The runtime value is not of the kind the shape requires.
    UnexpectedValue { shape: usize, unexpected: Observed },
    /// A number does not fit the integer type of the shape.
    IntOverflow(usize),
}

impl Error {
    /// The error for a runtime value of the wrong kind.
    pub open spec fn spec_unexpected(shape: usize, unexpected: Observed) -> Error {
        Error::UnexpectedValue { shape, unexpected }
    }

    /// The error for a runtime value of the wrong kind.
    #[verifier::when_used_as_spec(spec_unexpected)]
    pub fn unexpected(shape: usize, unexpected: Observed) -> (r: Error)
        ensures
            r == Error::spec_unexpected(shape, unexpected),
    {
        Error::UnexpectedValue { shape, unexpected }
    }

    /// The error for an operation that `shape` does not support.
    pub open spec fn spec_failed(shape: usize, operation: Operation) -> Error {
        Error::Reflect(ReflectError::OperationFailed { shape, operation })
    }

    /// The error for an operation that `shape` does not support.
    #[verifier::when_used_as_spec(spec_failed)]
    pub fn failed(shape: usize, operation: Operation) -> (r: Error)
        ensures
            r == Error::spec_failed(shape, operation),
    {
        Error::Reflect(ReflectError::OperationFailed { shape, operation })
    }

    /// The error for a native value that is not of the kind of `shape`.
    pub open spec fn spec_was_not_a(shape: usize) -> Error {
        Error::Reflect(ReflectError::WasNotA { shape })
    }

    /// The error for a native value that is not of the kind of `shape`.
    #[verifier::when_used_as_spec(spec_was_not_a)]
    pub fn was_not_a(shape: usize) -> (r: Error)
        ensures
            r == Error::spec_was_not_a(shape),
    {
        Error::Reflect(ReflectError::WasNotA { shape })
    }
}

} // verus!
