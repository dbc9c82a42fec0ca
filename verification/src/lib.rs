//! Names of artifacts in a requirements-traceability tool.
//!
//! A name is written `TYPE-SEGMENT[-SEGMENT...]`, where `TYPE` is one of
//! `REQ`, `SPC` and `TST` and each segment is made of ASCII letters, digits
//! and underscores. Case carries no meaning: two spellings of one name are
//! equal, though each keeps the text it was written with.
//!
//! - [`text`] holds the characters of names and their folding to upper case;
//! - [`grammar`] says which texts are names and tells them from the rest;
//! - [`name`] holds the value that stands for a name;
//! - [`order`] compares canonical keys;
//! - [`cache`] makes names, once for each text;
//! - [`family`] derives the parent of a name and the name it links to;
//! - [`laws`] states what holds across these.

pub mod text;
pub mod grammar;
pub mod order;
pub mod name;
pub mod cache;
pub mod family;
pub mod laws;

pub use crate::cache::clear_cache;
pub use crate::cache::NameCache;
pub use crate::grammar::classify;
pub use crate::grammar::is_valid;
pub use crate::grammar::TYPE_SPLIT_LOC;
pub use crate::name::InternalName;
pub use crate::name::Name;
pub use crate::name::NameError;
pub use crate::name::Type;
