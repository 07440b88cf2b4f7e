//! Turns a Pug-like template syntax tree into HTML text, recording which
//! spans of the output were copied from which spans of the template.
mod bytes;
pub mod output;
pub mod render;
pub mod shape;
pub mod syntax;
pub mod void_elements;

pub use output::{Correspondence, Transpilation};
pub use render::{transpile, traverse_tree, StructureError};
pub use syntax::{find_named, NodeKind, Span, SyntaxNode};
pub use void_elements::{is_void_element, is_void_name};
