//! Type libraries: named types that refer to each other by name, the
//! libraries that they depend on, and the identifier of the whole.

pub mod builder;
pub mod id;
pub mod text;
pub mod type_lib;
