//! The traits that generated code implements for argument structs.
use vstd::prelude::*;

verus! {

/// A struct that the generated GPU wrapper rebuilds from its fields.
pub trait Arguments: Sized {
    /// The tuple of the struct's field types, in order.
    type Arguments;

    /// The struct whose fields are the tuple's elements, in order.
    fn from_arguments(arguments: Self::Arguments) -> Self;
}

/// A struct that a hand-written wrapper rebuilds from its fields.
pub trait FromArguments: Sized {
    /// The tuple of the struct's field types, in order.
    type Arguments;

    /// The struct whose fields are the tuple's elements, in order.
    fn from_arguments(arguments: Self::Arguments) -> Self;
}

} // verus!
