//! Lua language-server annotations derived from described Rust declarations.
//!
//! A declaration (a record or an enumeration, with its documentation and its
//! `anno(...)` metadata) is validated into a [`Class`] or an [`Enum`]
//! descriptor and rendered as LuaLS annotation text.

pub mod attrs;
pub mod data;
pub mod decl;
pub mod docs;
pub mod enums;
pub mod error;
pub mod laws;
pub mod model;
pub mod render;
pub mod structs;
pub mod text;
pub mod token;
pub mod unique;

pub use attrs::{parse_attrs, Attr, AttrMap, Kind};
pub use data::{Anno, AnnoEnum, Class, Discriminant, Enum, Field, Span, Type, Variant};
pub use docs::collect_docs;
pub use enums::EnumMeta;
pub use error::{combine, Error, Report};
pub use model::anno;
pub use render::{generate, generate_class, generate_enum, generate_type};
pub use structs::ClassMeta;
