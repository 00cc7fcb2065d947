//! KDL documents, KDL queries and KDL schema validation.
//!
//! A [`KdlDocument`] is read from text with [`KdlDocument::parse`] (see
//! [`parser`] for the grammar), searched with KDL queries ([`query`],
//! [`query_parser`]), validated against KDL schemas, in their first form
//! ([`schema`]) and in their second ([`schema_v2`]), and written back in a
//! uniform layout ([`format`]). [`config`] reads which schema applies to which
//! files of a workspace, and [`position`] turns character offsets into lines
//! and columns for an editor.

pub mod chars;
pub mod config;
pub mod diagnostic;
pub mod document;
pub mod format;
pub mod multiline;
pub mod number;
pub mod parser;
pub mod position;
pub mod query;
pub mod query_parser;
pub mod render;
pub mod schema;
pub mod schema_v2;
pub mod text;
pub mod tracking;
pub mod value;
pub mod workspace;

pub use diagnostic::{KdlDiagnostic, KdlError, Severity};
pub use document::{KdlDocument, KdlEntry, KdlIdentifier, KdlNode, SourceSpan};
pub use number::{KdlFloat, Number};
pub use text::{chars_of, str_eq};
pub use value::KdlValue;
