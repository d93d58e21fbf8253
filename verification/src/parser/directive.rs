//! Data structures for parsed directives.

use vstd::prelude::*;

verus! {

/// The view of a list of strings: the list of their character sequences.
pub open spec fn strings_view(v: Seq<String>) -> Seq<Seq<char>> {
    Seq::new(v.len(), |i: int| v[i]@)
}

/// Source location of a directive.
#[derive(Debug, Clone, Copy, PartialEq, Eq, Structural)]
pub struct Location {
    /// Line number (1-indexed).
    pub line: usize,
    /// Column number (1-indexed), counted in bytes of the UTF-8 text.
    pub column: usize,
}

impl Location {
    /// Creates a new location.
    pub fn new(line: usize, column: usize) -> (loc: Location)
        ensures
            loc.line == line,
            loc.column == column,
    {
        Location { line, column }
    }
}

impl Default for Location {
    fn default() -> (loc: Location)
        ensures
            loc.line == 0,
            loc.column == 0,
    {
        Location { line: 0, column: 0 }
    }
}

/// Namespace specification for a `@use` directive.
#[derive(Debug, Clone, PartialEq)]
pub enum Namespace {
    /// A named namespace (`@use "x" as name`).
    Named(String),
    /// Global namespace (`@use "x" as *`).
    Star,
    /// Default namespace derived from filename.
    Default,
}

/// Mathematical model of a [`Namespace`].
pub enum NamespaceView {
    Named(Seq<char>),
    Star,
    Default,
}

impl View for Namespace {
    type V = NamespaceView;

    open spec fn view(&self) -> NamespaceView {
        match *self {
            Namespace::Named(s) => NamespaceView::Named(s@),
            Namespace::Star => NamespaceView::Star,
            Namespace::Default => NamespaceView::Default,
        }
    }
}

impl NamespaceView {
    /// The text under which the namespace is recorded: the name, `*` for the
    /// global namespace, nothing for the default one.
    pub open spec fn text(self) -> Option<Seq<char>> {
        match self {
            NamespaceView::Named(s) => Some(s),
            NamespaceView::Star => Some(seq!['*']),
            NamespaceView::Default => None,
        }
    }
}

impl Namespace {
    /// Returns the namespace as a string, or `None` for the default namespace.
    pub fn as_str(&self) -> (r: Option<&str>)
        ensures
            r is Some == self@.text() is Some,
            r is Some ==> r->0@ == self@.text()->0,
    {
        match self {
            Namespace::Named(s) => Some(s.as_str()),
            Namespace::Star => {
                proof {
                    reveal_strlit("*");
                    assert("*"@ =~= seq!['*']);
                }
                Some("*")
            },
            Namespace::Default => None,
        }
    }
}

/// The view of an optional namespace.
pub open spec fn namespace_option_view(n: Option<Namespace>) -> Option<NamespaceView> {
    match n {
        Some(n) => Some(n@),
        None => None,
    }
}

/// The view of an optional string.
pub open spec fn string_option_view(s: Option<String>) -> Option<Seq<char>> {
    match s {
        Some(s) => Some(s@),
        None => None,
    }
}

/// A parsed `@use` directive.
///
/// ```scss
/// @use "variables";           // Default namespace: variables
/// @use "variables" as vars;   // Custom namespace: vars
/// @use "variables" as *;      // No namespace (global)
/// @use "variables" with ($x: 1);  // Configured
/// ```
#[derive(Debug, Clone, PartialEq)]
pub struct UseDirective {
    /// The path to the imported module.
    pub path: String,
    /// The namespace for accessing module members.
    pub namespace: Option<Namespace>,
    /// Whether the module is configured with `with (...)`.
    pub configured: bool,
    /// Source location of this directive.
    pub location: Location,
}

/// Mathematical model of a [`UseDirective`].
pub struct UseDirectiveView {
    pub path: Seq<char>,
    pub namespace: Option<NamespaceView>,
    pub configured: bool,
    pub location: Location,
}

impl View for UseDirective {
    type V = UseDirectiveView;

    open spec fn view(&self) -> UseDirectiveView {
        UseDirectiveView {
            path: self.path@,
            namespace: namespace_option_view(self.namespace),
            configured: self.configured,
            location: self.location,
        }
    }
}

/// Visibility specification for a `@forward` directive.
#[derive(Debug, Clone, PartialEq)]
pub enum Visibility {
    /// All members are forwarded.
    All,
    /// Only specified members are forwarded.
    Show(Vec<String>),
    /// All members except specified are forwarded.
    Hide(Vec<String>),
}

/// Mathematical model of a [`Visibility`].
pub enum VisibilityView {
    All,
    Show(Seq<Seq<char>>),
    Hide(Seq<Seq<char>>),
}

impl View for Visibility {
    type V = VisibilityView;

    open spec fn view(&self) -> VisibilityView {
        match *self {
            Visibility::All => VisibilityView::All,
            Visibility::Show(v) => VisibilityView::Show(strings_view(v@)),
            Visibility::Hide(v) => VisibilityView::Hide(strings_view(v@)),
        }
    }
}

/// A parsed `@forward` directive.
///
/// ```scss
/// @forward "functions";
/// @forward "functions" as fn-*;
/// @forward "functions" hide internal-fn;
/// @forward "functions" show public-fn, $public-var;
/// ```
#[derive(Debug, Clone, PartialEq)]
pub struct ForwardDirective {
    /// The path to the forwarded module.
    pub path: String,
    /// Optional prefix for forwarded members.
    pub prefix: Option<String>,
    /// Visibility rules for forwarded members.
    pub visibility: Visibility,
    /// Source location of this directive.
    pub location: Location,
}

/// Mathematical model of a [`ForwardDirective`].
pub struct ForwardDirectiveView {
    pub path: Seq<char>,
    pub prefix: Option<Seq<char>>,
    pub visibility: VisibilityView,
    pub location: Location,
}

impl View for ForwardDirective {
    type V = ForwardDirectiveView;

    open spec fn view(&self) -> ForwardDirectiveView {
        ForwardDirectiveView {
            path: self.path@,
            prefix: string_option_view(self.prefix),
            visibility: self.visibility@,
            location: self.location,
        }
    }
}

/// A parsed `@import` directive (legacy).
///
/// ```scss
/// @import "legacy";
/// @import "file1", "file2", "file3";
/// ```
#[derive(Debug, Clone, PartialEq)]
pub struct ImportDirective {
    /// The paths to import.
    pub paths: Vec<String>,
    /// Source location of this directive.
    pub location: Location,
}

/// Mathematical model of an [`ImportDirective`].
pub struct ImportDirectiveView {
    pub paths: Seq<Seq<char>>,
    pub location: Location,
}

impl View for ImportDirective {
    type V = ImportDirectiveView;

    open spec fn view(&self) -> ImportDirectiveView {
        ImportDirectiveView { paths: strings_view(self.paths@), location: self.location }
    }
}

/// A parsed directive that creates a dependency.
#[derive(Debug, Clone, PartialEq)]
pub enum Directive {
    /// A `@use` directive.
    Use(UseDirective),
    /// A `@forward` directive.
    Forward(ForwardDirective),
    /// A `@import` directive (legacy).
    Import(ImportDirective),
}

/// Mathematical model of a [`Directive`].
pub enum DirectiveView {
    Use(UseDirectiveView),
    Forward(ForwardDirectiveView),
    Import(ImportDirectiveView),
}

impl DirectiveView {
    /// The module paths that the directive references, in source order.
    pub open spec fn paths(self) -> Seq<Seq<char>> {
        match self {
            DirectiveView::Use(d) => seq![d.path],
            DirectiveView::Forward(d) => seq![d.path],
            DirectiveView::Import(d) => d.paths,
        }
    }

    /// Where the directive starts in its source text.
    pub open spec fn location(self) -> Location {
        match self {
            DirectiveView::Use(d) => d.location,
            DirectiveView::Forward(d) => d.location,
            DirectiveView::Import(d) => d.location,
        }
    }
}

impl View for Directive {
    type V = DirectiveView;

    open spec fn view(&self) -> DirectiveView {
        match *self {
            Directive::Use(d) => DirectiveView::Use(d@),
            Directive::Forward(d) => DirectiveView::Forward(d@),
            Directive::Import(d) => DirectiveView::Import(d@),
        }
    }
}

/// The view of a list of directives.
pub open spec fn directives_view(v: Seq<Directive>) -> Seq<DirectiveView> {
    Seq::new(v.len(), |i: int| v[i]@)
}

impl Directive {
    /// Returns the path(s) referenced by this directive.
    pub fn paths(&self) -> (r: Vec<&str>)
        ensures
            r@.len() == self@.paths().len(),
            forall|i: int| 0 <= i < r@.len() ==> (#[trigger] r@[i])@ == self@.paths()[i],
    {
        match self {
            Directive::Use(d) => {
                let mut v: Vec<&str> = Vec::new();
                v.push(d.path.as_str());
                v
            },
            Directive::Forward(d) => {
                let mut v: Vec<&str> = Vec::new();
                v.push(d.path.as_str());
                v
            },
            Directive::Import(d) => {
                let mut v: Vec<&str> = Vec::new();
                let mut i: usize = 0;
                while i < d.paths.len()
                    invariant
                        i <= d.paths.len(),
                        v@.len() == i,
                        forall|k: int| 0 <= k < i ==> (#[trigger] v@[k])@ == d.paths@[k]@,
                    decreases d.paths.len() - i,
                {
                    v.push(d.paths[i].as_str());
                    i += 1;
                }
                v
            },
        }
    }

    /// Returns the location of this directive in the source file.
    pub fn location(&self) -> (r: &Location)
        ensures
            *r == self@.location(),
    {
        match self {
            Directive::Use(d) => &d.location,
            Directive::Forward(d) => &d.location,
            Directive::Import(d) => &d.location,
        }
    }
}

} // verus!
