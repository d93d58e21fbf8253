//! The resolver: from a module reference to the file it names.

use vstd::prelude::*;
use vstd::string::StringExecFns;
use crate::parser::directive::{string_option_view, strings_view};
use crate::resolver::lexical::{
    absolute, is_absolute, join, join_paths, name_of, normalize, normalized, parent_of, split,
};
use crate::resolver::tree::SourceTree;

verus! {

/// Configuration for the path resolver.
#[derive(Debug, Clone)]
pub struct ResolverConfig {
    /// Additional directories to search, in order, after the directory of
    /// the referencing file. A relative load path is taken from that
    /// directory.
    pub load_paths: Vec<String>,
    /// File extensions to try, in order.
    pub extensions: Vec<String>,
}

impl Default for ResolverConfig {
    /// No load paths, and the extensions `scss` and `sass`, in this order.
    fn default() -> (config: ResolverConfig)
        ensures
            config.load_paths@.len() == 0,
            strings_view(config.extensions@) == seq!["scss"@, "sass"@],
    {
        let mut extensions: Vec<String> = Vec::new();
        extensions.push(String::from_str("scss"));
        extensions.push(String::from_str("sass"));
        assert(strings_view(extensions@) =~= seq!["scss"@, "sass"@]);
        ResolverConfig { load_paths: Vec::new(), extensions }
    }
}

/// Errors that can occur during path resolution.
#[derive(Debug)]
pub enum ResolveError {
    /// The target file could not be found.
    NotFound {
        /// The directory from which resolution was attempted.
        base: String,
        /// The target that could not be resolved.
        target: String,
    },
    /// The base path is neither a file nor a directory.
    InvalidBasePath(String),
    /// The tree could not be consulted; holds the reason.
    Io(String),
}

/// Mathematical model of a [`ResolveError`].
pub enum ResolveErrorView {
    NotFound { base: Seq<char>, target: Seq<char> },
    InvalidBasePath(Seq<char>),
    Io(Seq<char>),
}

impl View for ResolveError {
    type V = ResolveErrorView;

    open spec fn view(&self) -> ResolveErrorView {
        match *self {
            ResolveError::NotFound { base, target } => ResolveErrorView::NotFound {
                base: base@,
                target: target@,
            },
            ResolveError::InvalidBasePath(path) => ResolveErrorView::InvalidBasePath(path@),
            ResolveError::Io(reason) => ResolveErrorView::Io(reason@),
        }
    }
}

impl ResolveErrorView {
    /// The message that describes the error.
    pub open spec fn message(self) -> Seq<char> {
        match self {
            ResolveErrorView::NotFound { base, target } => "Could not resolve '"@ + target
                + "' from '"@ + base + "'"@,
            ResolveErrorView::InvalidBasePath(path) => "Invalid base path: "@ + path,
            ResolveErrorView::Io(reason) => "IO error: "@ + reason,
        }
    }
}

impl ResolveError {
    /// Renders the error as a message for the user.
    pub fn to_string(&self) -> (r: String)
        ensures
            r@ == self@.message(),
    {
        match self {
            ResolveError::NotFound { base, target } => {
                let mut r = String::from_str("Could not resolve '");
                r.append(target.as_str());
                r.append("' from '");
                r.append(base.as_str());
                r.append("'");
                r
            },
            ResolveError::InvalidBasePath(path) => {
                let mut r = String::from_str("Invalid base path: ");
                r.append(path.as_str());
                r
            },
            ResolveError::Io(reason) => {
                let mut r = String::from_str("IO error: ");
                r.append(reason.as_str());
                r
            },
        }
    }
}

/// The file name tried for a module name and an extension: the name, a dot
/// and the extension, with `_` in front for the partial form.
pub open spec fn file_name(name: Seq<char>, ext: Seq<char>, partial: bool) -> Seq<char> {
    if partial {
        seq!['_'] + name + seq!['.'] + ext
    } else {
        name + seq!['.'] + ext
    }
}

/// The path tried in `dir` for a module name and an extension, in normal
/// form.
pub open spec fn candidate(dir: Seq<char>, name: Seq<char>, ext: Seq<char>, partial: bool) -> Seq<
    char,
> {
    normalized(join(dir, file_name(name, ext, partial)))
}

/// The rank of the first candidate for `name` in `dir` that is a file,
/// with the extensions from rank `k` on: the position of its extension
/// and whether it is the partial form. For each extension, in order, the
/// plain form is tried before the partial form.
pub open spec fn first_rank(
    tree: SourceTree,
    dir: Seq<char>,
    name: Seq<char>,
    exts: Seq<Seq<char>>,
    k: int,
) -> Option<(int, bool)>
    decreases exts.len() - k,
{
    if k < 0 || k >= exts.len() {
        None
    } else if tree.holds_file(candidate(dir, name, exts[k], false)) {
        Some((k, false))
    } else if tree.holds_file(candidate(dir, name, exts[k], true)) {
        Some((k, true))
    } else {
        first_rank(tree, dir, name, exts, k + 1)
    }
}

/// The first candidate for `name` in `dir` that is a file.
pub open spec fn first_file(
    tree: SourceTree,
    dir: Seq<char>,
    name: Seq<char>,
    exts: Seq<Seq<char>>,
) -> Option<Seq<char>> {
    match first_rank(tree, dir, name, exts, 0) {
        Some((j, partial)) => Some(candidate(dir, name, exts[j], partial)),
        None => None,
    }
}

/// The word `index`, the name of the file that stands for a directory.
pub open spec fn index_name() -> Seq<char> {
    seq!['i', 'n', 'd', 'e', 'x']
}

/// The file that `target` names when searched from `dir`.
///
/// The target is split into a directory part and a name. The files with
/// that name in the directory part are tried first; where none exists and
/// the name is a directory, its index files are tried.
pub open spec fn found_in_dir(
    tree: SourceTree,
    exts: Seq<Seq<char>>,
    dir: Seq<char>,
    target: Seq<char>,
) -> Option<Seq<char>> {
    let search = join(dir, parent_of(target));
    let name = name_of(target);
    match first_file(tree, search, name, exts) {
        Some(p) => Some(p),
        None => {
            let index_dir = normalized(join(search, name));
            if tree.holds_dir(index_dir) {
                first_file(tree, index_dir, index_name(), exts)
            } else {
                None
            }
        },
    }
}

/// The directory that a load path stands for: itself where it is
/// absolute, else the load path taken from the base directory.
pub open spec fn load_dir(base_dir: Seq<char>, load_path: Seq<char>) -> Seq<char> {
    if is_absolute(load_path) {
        load_path
    } else {
        join(base_dir, load_path)
    }
}

/// The file that `target` names in the first load path, from rank `k` on,
/// that has one.
pub open spec fn found_in_load_paths(
    tree: SourceTree,
    exts: Seq<Seq<char>>,
    load_paths: Seq<Seq<char>>,
    k: int,
    base_dir: Seq<char>,
    target: Seq<char>,
) -> Option<Seq<char>>
    decreases load_paths.len() - k,
{
    if k < 0 || k >= load_paths.len() {
        None
    } else {
        match found_in_dir(tree, exts, load_dir(base_dir, load_paths[k]), target) {
            Some(p) => Some(p),
            None => found_in_load_paths(tree, exts, load_paths, k + 1, base_dir, target),
        }
    }
}

/// The directory from which a reference in `base` is resolved: the
/// directory that holds `base` where it is a file, `base` itself where it
/// is a directory.
pub open spec fn base_dir_of(tree: SourceTree, base: Seq<char>) -> Option<Seq<char>> {
    let b = normalized(base);
    if tree.holds_file(b) {
        Some(parent_of(b))
    } else if tree.holds_dir(b) {
        Some(b)
    } else {
        None
    }
}

/// The outcome of resolving `target` from `base`: the file found from the
/// base directory, else the file found in the first load path that has
/// one, else `NotFound`; `InvalidBasePath` where `base` is neither a file
/// nor a directory.
pub open spec fn resolution(
    tree: SourceTree,
    load_paths: Seq<Seq<char>>,
    exts: Seq<Seq<char>>,
    base: Seq<char>,
    target: Seq<char>,
) -> Result<Seq<char>, ResolveErrorView> {
    match base_dir_of(tree, base) {
        None => Err(ResolveErrorView::InvalidBasePath(base)),
        Some(dir) => match found_in_dir(tree, exts, dir, target) {
            Some(p) => Ok(p),
            None => match found_in_load_paths(tree, exts, load_paths, 0, dir, target) {
                Some(p) => Ok(p),
                None => Err(ResolveErrorView::NotFound { base: dir, target }),
            },
        },
    }
}

/// The view of the outcome of a resolution.
pub open spec fn outcome_view(r: Result<String, ResolveError>) -> Result<
    Seq<char>,
    ResolveErrorView,
> {
    match r {
        Ok(p) => Ok(p@),
        Err(e) => Err(e@),
    }
}

/// The plain form wins over the partial form: where the plain file of the
/// first extension exists, it is the file found, whatever else exists.
pub proof fn lemma_plain_before_partial(
    tree: SourceTree,
    dir: Seq<char>,
    name: Seq<char>,
    exts: Seq<Seq<char>>,
)
    requires
        exts.len() > 0,
        tree.holds_file(candidate(dir, name, exts[0], false)),
    ensures
        first_file(tree, dir, name, exts) == Some(candidate(dir, name, exts[0], false)),
{
}

/// An earlier extension wins over a later one, and at one extension the
/// plain form wins over the partial form: the candidate found is a file,
/// no candidate of an earlier extension is one, in either form, and where
/// the partial form was found the plain form of the same extension is no
/// file. Where nothing is found, no candidate is a file.
pub proof fn lemma_first_rank_is_first(
    tree: SourceTree,
    dir: Seq<char>,
    name: Seq<char>,
    exts: Seq<Seq<char>>,
    k: int,
)
    requires
        0 <= k <= exts.len(),
    ensures
        first_rank(tree, dir, name, exts, k) matches Some((j, partial)) ==> {
            &&& k <= j < exts.len()
            &&& tree.holds_file(candidate(dir, name, exts[j], partial))
            &&& partial ==> !tree.holds_file(candidate(dir, name, exts[j], false))
            &&& forall|i: int, form: bool|
                k <= i < j ==> !tree.holds_file(#[trigger] candidate(dir, name, exts[i], form))
        },
        first_rank(tree, dir, name, exts, k) is None ==> forall|i: int, form: bool|
            k <= i < exts.len() ==> !tree.holds_file(
                #[trigger] candidate(dir, name, exts[i], form),
            ),
    decreases exts.len() - k,
{
    if k < exts.len() {
        let plain = candidate(dir, name, exts[k], false);
        let partial = candidate(dir, name, exts[k], true);
        if !tree.holds_file(plain) && !tree.holds_file(partial) {
            lemma_first_rank_is_first(tree, dir, name, exts, k + 1);
            assert forall|i: int, form: bool| k <= i < k + 1 implies !tree.holds_file(
                #[trigger] candidate(dir, name, exts[i], form),
            ) by {
                if form {
                    assert(candidate(dir, name, exts[i], form) == partial);
                } else {
                    assert(candidate(dir, name, exts[i], form) == plain);
                }
            }
        }
    }
}

/// The plain file of the first extension beside the referencing file is
/// what a reference resolves to, whatever else exists: a partial file of
/// the same name, a file with a later extension, a directory of that name,
/// or a match in a load path.
pub proof fn lemma_resolves_to_plain_file(
    tree: SourceTree,
    load_paths: Seq<Seq<char>>,
    exts: Seq<Seq<char>>,
    base: Seq<char>,
    target: Seq<char>,
)
    requires
        exts.len() > 0,
        base_dir_of(tree, base) is Some,
        tree.holds_file(
            candidate(
                join(base_dir_of(tree, base)->Some_0, parent_of(target)),
                name_of(target),
                exts[0],
                false,
            ),
        ),
    ensures
        resolution(tree, load_paths, exts, base, target) == Ok::<Seq<char>, ResolveErrorView>(
            candidate(
                join(base_dir_of(tree, base)->Some_0, parent_of(target)),
                name_of(target),
                exts[0],
                false,
            ),
        ),
{
}

/// The directory of the referencing file wins over every load path: what
/// is found from the base directory is the outcome of the resolution.
pub proof fn lemma_relative_before_load_paths(
    tree: SourceTree,
    load_paths: Seq<Seq<char>>,
    exts: Seq<Seq<char>>,
    base: Seq<char>,
    target: Seq<char>,
)
    requires
        base_dir_of(tree, base) is Some,
        found_in_dir(tree, exts, base_dir_of(tree, base)->Some_0, target) is Some,
    ensures
        resolution(tree, load_paths, exts, base, target) == Ok::<Seq<char>, ResolveErrorView>(
            found_in_dir(tree, exts, base_dir_of(tree, base)->Some_0, target)->Some_0,
        ),
{
}

/// What is found from a directory is a file of the tree.
pub proof fn lemma_found_in_dir_is_file(
    tree: SourceTree,
    exts: Seq<Seq<char>>,
    dir: Seq<char>,
    target: Seq<char>,
)
    ensures
        found_in_dir(tree, exts, dir, target) matches Some(p) ==> tree.holds_file(p),
{
    let search = join(dir, parent_of(target));
    lemma_first_rank_is_first(tree, search, name_of(target), exts, 0);
    lemma_first_rank_is_first(
        tree,
        normalized(join(search, name_of(target))),
        index_name(),
        exts,
        0,
    );
}

/// What is found in the load paths is a file of the tree.
pub proof fn lemma_found_in_load_paths_is_file(
    tree: SourceTree,
    exts: Seq<Seq<char>>,
    load_paths: Seq<Seq<char>>,
    k: int,
    base_dir: Seq<char>,
    target: Seq<char>,
)
    ensures
        found_in_load_paths(tree, exts, load_paths, k, base_dir, target) matches Some(p)
            ==> tree.holds_file(p),
    decreases load_paths.len() - k,
{
    if 0 <= k < load_paths.len() {
        lemma_found_in_dir_is_file(tree, exts, load_dir(base_dir, load_paths[k]), target);
        lemma_found_in_load_paths_is_file(tree, exts, load_paths, k + 1, base_dir, target);
    }
}

/// A reference resolves to a file of the tree only.
pub proof fn lemma_resolution_is_file(
    tree: SourceTree,
    load_paths: Seq<Seq<char>>,
    exts: Seq<Seq<char>>,
    base: Seq<char>,
    target: Seq<char>,
)
    ensures
        resolution(tree, load_paths, exts, base, target) matches Ok(p) ==> tree.holds_file(p),
{
    if base_dir_of(tree, base) is Some {
        let dir = base_dir_of(tree, base)->Some_0;
        lemma_found_in_dir_is_file(tree, exts, dir, target);
        lemma_found_in_load_paths_is_file(tree, exts, load_paths, 0, dir, target);
    }
}

/// Resolver of module references.
#[derive(Debug, Clone)]
pub struct Resolver {
    config: ResolverConfig,
}

fn candidate_path(dir: &str, name: &str, ext: &str, partial: bool) -> (r: String)
    ensures
        r@ == candidate(dir@, name@, ext@, partial),
{
    let mut file = String::new();
    if partial {
        file.push('_');
    }
    file.append(name);
    file.push('.');
    file.append(ext);
    assert(file@ =~= file_name(name@, ext@, partial));
    let joined = join_paths(dir, file.as_str());
    normalize(joined.as_str())
}

fn try_files(tree: &SourceTree, dir: &str, name: &str, exts: &Vec<String>) -> (r: Option<String>)
    ensures
        string_option_view(r) == first_file(*tree, dir@, name@, strings_view(exts@)),
{
    let mut k: usize = 0;
    while k < exts.len()
        invariant
            k <= exts@.len(),
            first_rank(*tree, dir@, name@, strings_view(exts@), 0) == first_rank(
                *tree,
                dir@,
                name@,
                strings_view(exts@),
                k as int,
            ),
        decreases exts@.len() - k,
    {
        let plain = candidate_path(dir, name, exts[k].as_str(), false);
        if tree.is_file(plain.as_str()) {
            return Some(plain);
        }
        let partial = candidate_path(dir, name, exts[k].as_str(), true);
        if tree.is_file(partial.as_str()) {
            return Some(partial);
        }
        k += 1;
    }
    None
}

impl Resolver {
    /// The configuration that the resolver was made with.
    pub closed spec fn settings(&self) -> ResolverConfig {
        self.config
    }

    /// The load paths of the resolver, as text.
    pub open spec fn load_paths_view(&self) -> Seq<Seq<char>> {
        strings_view(self.settings().load_paths@)
    }

    /// The extensions of the resolver, as text.
    pub open spec fn extensions_view(&self) -> Seq<Seq<char>> {
        strings_view(self.settings().extensions@)
    }

    /// Creates a new resolver with the given configuration.
    pub fn new(config: ResolverConfig) -> (resolver: Resolver)
        ensures
            resolver.settings() == config,
    {
        Resolver { config }
    }

    /// Returns the configured load paths.
    pub fn load_paths(&self) -> (r: &Vec<String>)
        ensures
            *r == self.settings().load_paths,
    {
        &self.config.load_paths
    }

    /// Returns the configured extensions.
    pub fn extensions(&self) -> (r: &Vec<String>)
        ensures
            *r == self.settings().extensions,
    {
        &self.config.extensions
    }

    /// Searches for `target` from the directory `dir` alone.
    pub fn try_resolve_in_dir(&self, dir: &str, target: &str, tree: &SourceTree) -> (r: Option<
        String,
    >)
        ensures
            string_option_view(r) == found_in_dir(*tree, self.extensions_view(), dir@, target@),
    {
        let (sub, name) = split(target);
        let search = join_paths(dir, sub.as_str());
        match try_files(tree, search.as_str(), name.as_str(), &self.config.extensions) {
            Some(p) => Some(p),
            None => {
                let inner = join_paths(search.as_str(), name.as_str());
                let index_dir = normalize(inner.as_str());
                if tree.is_dir(index_dir.as_str()) {
                    proof {
                        reveal_strlit("index");
                        assert("index"@ =~= index_name());
                    }
                    try_files(tree, index_dir.as_str(), "index", &self.config.extensions)
                } else {
                    None
                }
            },
        }
    }

    /// Resolves a module reference to the path of the file that it names.
    ///
    /// `base` is the file that holds the reference, or a directory;
    /// `target` is the text of the reference.
    pub fn resolve(&self, base: &str, target: &str, tree: &SourceTree) -> (r: Result<
        String,
        ResolveError,
    >)
        ensures
            outcome_view(r) == resolution(
                *tree,
                self.load_paths_view(),
                self.extensions_view(),
                base@,
                target@,
            ),
    {
        let b = normalize(base);
        let dir = if tree.is_file(b.as_str()) {
            crate::resolver::lexical::parent(b.as_str())
        } else if tree.is_dir(b.as_str()) {
            b
        } else {
            return Err(ResolveError::InvalidBasePath(String::from_str(base)));
        };
        match self.try_resolve_in_dir(dir.as_str(), target, tree) {
            Some(p) => {
                return Ok(p);
            },
            None => {},
        }
        let mut k: usize = 0;
        while k < self.config.load_paths.len()
            invariant
                k <= self.config.load_paths@.len(),
                base_dir_of(*tree, base@) == Some(dir@),
                found_in_dir(*tree, self.extensions_view(), dir@, target@) is None,
                found_in_load_paths(
                    *tree,
                    self.extensions_view(),
                    self.load_paths_view(),
                    0,
                    dir@,
                    target@,
                ) == found_in_load_paths(
                    *tree,
                    self.extensions_view(),
                    self.load_paths_view(),
                    k as int,
                    dir@,
                    target@,
                ),
            decreases self.config.load_paths@.len() - k,
        {
            let load_path = self.config.load_paths[k].as_str();
            let from = if absolute(load_path) {
                String::from_str(load_path)
            } else {
                join_paths(dir.as_str(), load_path)
            };
            match self.try_resolve_in_dir(from.as_str(), target, tree) {
                Some(p) => {
                    return Ok(p);
                },
                None => {},
            }
            k += 1;
        }
        Err(ResolveError::NotFound { base: dir, target: String::from_str(target) })
    }
}

impl Default for Resolver {
    /// A resolver with the default configuration.
    fn default() -> (resolver: Resolver)
        ensures
            resolver.load_paths_view().len() == 0,
            resolver.extensions_view() == seq!["scss"@, "sass"@],
    {
        Resolver::new(ResolverConfig::default())
    }
}

} // verus!
