//! Strict types: a canonical, language-neutral schema of algebraic data types.
//!
//! The crate describes types (primitives, enums, unions, structs, arrays,
//! lists, sets, maps and unicode strings), gives every type a semantic
//! identifier that commits to its layout and names, and bundles named types
//! into libraries that carry an identifier of their own.

pub mod ast;
pub mod dtl;
pub mod ord_map;
pub mod render;
pub mod schema;
pub mod typelib;
pub mod util;

pub use ast::id::{SemId, TypeRef, LIB_ID_TAG};
pub use ast::path::{NestedRef, Path, PathError, Step};
pub use ast::sten::StenType;
pub use ast::ty::{Field, KeyTy, Ty, TyError, Variant};
pub use typelib::builder::LibBuilder;
pub use typelib::id::{TypeLibId, Urn};
pub use typelib::type_lib::{
    Dependency, InlineRef, InlineRef1, InlineRef2, LibAlias, LibName, LibRef, TranslateError,
    TypeLib,
};
pub use util::{FieldName, Ident, InvalidIdent, SemVer, Sizing, TypeName};
