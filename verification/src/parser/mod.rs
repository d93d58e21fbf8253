//! Extraction of dependency directives from stylesheet source text.
//!
//! Three directives are recognised:
//!
//! ```scss
//! @use "path" as name with ($var: value);
//! @forward "path" as prefix-* show $var, mixin-name;
//! @import "path1", "path2";
//! ```
//!
//! Everything else, including other at-rules, is skipped.

pub mod directive;
pub mod error;
pub mod grammar;
pub mod lexer;

pub use directive::{
    Directive, DirectiveView, ForwardDirective, ForwardDirectiveView, ImportDirective,
    ImportDirectiveView, Location, Namespace, NamespaceView, UseDirective, UseDirectiveView,
    Visibility, VisibilityView,
};
pub use error::ParseError;
pub use lexer::Parser;
