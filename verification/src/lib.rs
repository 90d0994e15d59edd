//! The verified core of a set of code generators for GPU entry points written
//! in Rust: it reads the attributes and types of a shader function or of an
//! argument struct and decides what is generated for them.

pub mod args;
pub mod arguments;
pub mod entry;
pub mod errors;
pub mod ident;
pub mod pipeline;
pub mod syntax;
pub mod text;
pub mod texture;
pub mod traits;
pub mod vertex;

pub use pipeline::{__const_max, __const_slice};
pub use traits::{Arguments, FromArguments};
