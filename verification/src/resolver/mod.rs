//! Resolution of module references to files.
//!
//! For `@use "foo"` in `/project/src/main.scss` and the default
//! extensions, the candidates are tried in this order:
//!
//! 1. `/project/src/foo.scss`
//! 2. `/project/src/_foo.scss`
//! 3. `/project/src/foo.sass`
//! 4. `/project/src/_foo.sass`
//! 5. `/project/src/foo/index.scss`
//! 6. `/project/src/foo/_index.scss`
//! 7. `/project/src/foo/index.sass`
//! 8. `/project/src/foo/_index.sass`
//! 9. the same under each load path, in the configured order
//!
//! Files are looked up in a [`SourceTree`], a snapshot of the directories
//! and files that the analysis may see.

pub mod lexical;
pub mod path;
pub mod tree;

pub use path::{ResolveError, ResolveErrorView, Resolver, ResolverConfig};
pub use tree::{SourceFile, SourceTree};
