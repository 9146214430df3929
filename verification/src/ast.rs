//! The type algebra: types, their semantic identifiers and paths into them.

pub mod id;
pub mod laws;
pub mod path;
pub mod sten;
pub mod text;
pub mod ty;
