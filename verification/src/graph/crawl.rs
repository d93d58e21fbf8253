//! Construction of the graph from entry files.
//!
//! A build walks the files that an entry file references, directly or
//! indirectly, depth first and in source order. Every file is processed at
//! most once per build: a list of marks, one per node and separate from
//! the flags and metrics of the nodes, records which files the build has
//! begun to process. The walk keeps its pending work on an explicit stack.

use vstd::prelude::*;
use vstd::string::StringExecFns;
use crate::graph::builder::{DependencyGraph, GraphView, Warning, WarningView};
use crate::graph::node::{
    DependencyEdge, DependencyEdgeView, DirectiveType, EdgeMeta, EdgeMetaView, FileNode,
    FileNodeView, NodeFlag,
};
use crate::parser::directive::{
    directives_view, Directive, DirectiveView, Namespace, NamespaceView,
};
use crate::parser::lexer::{scan, Parser};
use crate::resolver::lexical::{
    file_id, is_stylesheet, is_under, get_file_id, normalize, normalized, stylesheet,
};
use crate::resolver::path::{lemma_resolution_is_file, resolution, Resolver};
use crate::resolver::tree::SourceTree;
use crate::text::{chars_of, first_index, lemma_first_index, lemma_first_index_push};

verus! {

/// One reference of a directive: the text of the reference and the edge
/// that it gives rise to.
pub struct Target {
    pub text: String,
    pub edge: DependencyEdge,
}

/// Mathematical model of a [`Target`].
pub struct TargetView {
    pub text: Seq<char>,
    pub edge: DependencyEdgeView,
}

impl View for Target {
    type V = TargetView;

    open spec fn view(&self) -> TargetView {
        TargetView { text: self.text@, edge: self.edge@ }
    }
}

/// The views of a list of targets.
pub open spec fn targets_view(v: Seq<Target>) -> Seq<TargetView> {
    Seq::new(v.len(), |i: int| v[i]@)
}

/// The namespace that an edge records for a `@use`: the name, `*` for the
/// global namespace, nothing where the directive names none or the default.
pub open spec fn recorded_namespace(n: Option<NamespaceView>) -> Option<Seq<char>> {
    match n {
        Some(n) => n.text(),
        None => None,
    }
}

/// The edge that a directive gives rise to: its type and location, and
/// for a `@use` its namespace and whether it is configured.
pub open spec fn edge_of(d: DirectiveView) -> DependencyEdgeView {
    match d {
        DirectiveView::Use(u) => DependencyEdgeView {
            directive_type: DirectiveType::Use,
            location: u.location,
            meta: EdgeMetaView {
                namespace: recorded_namespace(u.namespace),
                configured: u.configured,
            },
        },
        DirectiveView::Forward(f) => DependencyEdgeView {
            directive_type: DirectiveType::Forward,
            location: f.location,
            meta: EdgeMetaView::plain(),
        },
        DirectiveView::Import(i) => DependencyEdgeView {
            directive_type: DirectiveType::Import,
            location: i.location,
            meta: EdgeMetaView::plain(),
        },
    }
}

/// The references of one directive, in source order.
pub open spec fn targets_of_directive(d: DirectiveView) -> Seq<TargetView> {
    Seq::new(d.paths().len(), |k: int| TargetView { text: d.paths()[k], edge: edge_of(d) })
}

/// The references of a list of directives, in source order.
pub open spec fn targets_of(ds: Seq<DirectiveView>) -> Seq<TargetView>
    decreases ds.len(),
{
    if ds.len() == 0 {
        Seq::empty()
    } else {
        targets_of(ds.drop_last()) + targets_of_directive(ds.last())
    }
}

/// Whether the reference names a module that the Sass compiler provides:
/// its text starts with `sass:`.
pub open spec fn is_builtin(target: Seq<char>) -> bool {
    target.len() >= 5 && target.subrange(0, 5) == seq!['s', 'a', 's', 's', ':']
}

/// What a build works with: the source tree, the settings of the resolver
/// and the project root.
pub struct Setting {
    pub tree: SourceTree,
    pub load_paths: Seq<Seq<char>>,
    pub exts: Seq<Seq<char>>,
    pub root: Seq<char>,
}

/// The setting of a build with the given tree, resolver and root.
pub open spec fn setting_of(tree: SourceTree, resolver: Resolver, root: Seq<char>) -> Setting {
    Setting {
        tree,
        load_paths: resolver.load_paths_view(),
        exts: resolver.extensions_view(),
        root,
    }
}

/// A file whose references are being followed.
pub struct Frame {
    /// The node of the file.
    pub node: usize,
    /// The path of the file.
    pub path: String,
    /// The references of the file.
    pub targets: Vec<Target>,
    /// The number of the next reference to follow.
    pub next: usize,
}

/// Mathematical model of a [`Frame`].
pub struct FrameView {
    pub node: usize,
    pub path: Seq<char>,
    pub targets: Seq<TargetView>,
    pub next: usize,
}

impl View for Frame {
    type V = FrameView;

    open spec fn view(&self) -> FrameView {
        FrameView {
            node: self.node,
            path: self.path@,
            targets: targets_view(self.targets@),
            next: self.next,
        }
    }
}

/// The views of a stack of frames.
pub open spec fn frames_view(v: Seq<Frame>) -> Seq<FrameView> {
    Seq::new(v.len(), |i: int| v[i]@)
}

/// The state of a build: the graph so far, the marks of the files that
/// the build has begun to process, the files whose references are being
/// followed, innermost last, and the file that could not be read, if the
/// build met one.
pub struct Crawl {
    pub graph: GraphView,
    pub visited: Seq<bool>,
    pub stack: Seq<FrameView>,
    pub failed: Option<Seq<char>>,
}

/// The graph with a node for the file at `path`: a node with the file's
/// identifier stays, else a fresh node is added.
pub open spec fn with_file(g: GraphView, path: Seq<char>, root: Seq<char>) -> GraphView {
    if g.index_of(file_id(path, root)) >= 0 {
        g
    } else {
        g.with_node(FileNodeView::fresh(file_id(path, root), path))
    }
}

/// The graph with an edge from `from` to `to`: an edge between the two
/// stays as it is, else one with the given data is added.
pub open spec fn with_link(g: GraphView, from: usize, to: usize, data: DependencyEdgeView) -> GraphView {
    if g.links().contains((from, to)) {
        g
    } else {
        g.with_edge(from, to, data)
    }
}

/// The marks extended to the nodes of the graph: a new node is unmarked.
pub open spec fn marks_for(visited: Seq<bool>, g: GraphView) -> Seq<bool> {
    if visited.len() < g.nodes.len() {
        visited.push(false)
    } else {
        visited
    }
}

/// The build begins to process the file at `path`, whose node is `node`:
/// the file is marked and its references are put on the stack. A file
/// that cannot be read ends the build.
pub open spec fn visit(s: Setting, c: Crawl, node: usize, path: Seq<char>) -> Crawl {
    match s.tree.text_of(path) {
        None => Crawl { failed: Some(path), stack: Seq::empty(), ..c },
        Some(text) => Crawl {
            visited: c.visited.update(node as int, true),
            stack: c.stack.push(
                FrameView { node, path, targets: targets_of(scan(text)), next: 0 },
            ),
            ..c
        },
    }
}

/// One step of a build, on a state with a non-empty stack.
///
/// A file without further references leaves the stack. Else its next
/// reference is followed: a module of the compiler is skipped; a reference
/// that does not resolve is recorded as a warning; for one that resolves,
/// the graph gets a node for the file and an edge to it, unless it has
/// them, and the file is processed unless the build has marked it.
#[verifier::opaque]
pub open spec fn step(s: Setting, c: Crawl) -> Crawl {
    let f = c.stack.last();
    if f.next >= f.targets.len() {
        Crawl { stack: c.stack.drop_last(), ..c }
    } else {
        let t = f.targets[f.next as int];
        let moved = FrameView { next: (f.next + 1) as usize, ..f };
        let c1 = Crawl { stack: c.stack.drop_last().push(moved), ..c };
        if is_builtin(t.text) {
            c1
        } else {
            match resolution(s.tree, s.load_paths, s.exts, f.path, t.text) {
                Err(e) => Crawl {
                    graph: c.graph.with_warning(
                        WarningView { target: t.text, from: f.path, reason: e.message() },
                    ),
                    ..c1
                },
                Ok(p) => {
                    let g1 = with_file(c.graph, p, s.root);
                    let to = g1.index_of(file_id(p, s.root)) as usize;
                    let g2 = with_link(g1, f.node, to, t.edge);
                    let c2 = Crawl { graph: g2, visited: marks_for(c.visited, g1), ..c1 };
                    if c2.visited[to as int] {
                        c2
                    } else {
                        visit(s, c2, to, p)
                    }
                },
            }
        }
    }
}

/// The state after at most `fuel` steps: the build stops when its stack
/// is empty.
pub open spec fn crawl(s: Setting, c: Crawl, fuel: nat) -> Crawl
    decreases fuel,
{
    if fuel == 0 || c.stack.len() == 0 {
        c
    } else {
        crawl(s, step(s, c), (fuel - 1) as nat)
    }
}

/// The state in which the build that starts in `c` ends.
pub open spec fn outcome(s: Setting, c: Crawl) -> Crawl {
    crawl(s, c, choose|fuel: nat| crawl(s, c, fuel).stack.len() == 0)
}

/// Errors that end a build.
#[derive(Debug)]
pub enum BuildError {
    /// The entry path names no file.
    EntryNotFound(String),
    /// The file at the path cannot be read.
    Unreadable(String),
}

/// Mathematical model of a [`BuildError`].
pub enum BuildErrorView {
    EntryNotFound(Seq<char>),
    Unreadable(Seq<char>),
}

impl View for BuildError {
    type V = BuildErrorView;

    open spec fn view(&self) -> BuildErrorView {
        match *self {
            BuildError::EntryNotFound(p) => BuildErrorView::EntryNotFound(p@),
            BuildError::Unreadable(p) => BuildErrorView::Unreadable(p@),
        }
    }
}

impl BuildErrorView {
    /// The message that describes the error.
    pub open spec fn message(self) -> Seq<char> {
        match self {
            BuildErrorView::EntryNotFound(p) => "Failed to canonicalize entry path: "@ + p,
            BuildErrorView::Unreadable(p) => "Failed to parse: "@ + p,
        }
    }
}

impl BuildError {
    /// Renders the error as a message for the user.
    pub fn to_string(&self) -> (r: String)
        ensures
            r@ == self@.message(),
    {
        match self {
            BuildError::EntryNotFound(p) => {
                let mut r = String::from_str("Failed to canonicalize entry path: ");
                r.append(p.as_str());
                r
            },
            BuildError::Unreadable(p) => {
                let mut r = String::from_str("Failed to parse: ");
                r.append(p.as_str());
                r
            },
        }
    }
}

/// The state in which a build from `entry` starts: the entry file has a
/// node, is among the entry points, carries the entry flag and is being
/// processed. An entry that is no file of the tree is an error.
pub open spec fn begin(s: Setting, g: GraphView, entry: Seq<char>) -> Result<Crawl, BuildErrorView> {
    let e = normalized(entry);
    if !s.tree.holds_file(e) {
        Err(BuildErrorView::EntryNotFound(entry))
    } else {
        let id = file_id(e, s.root);
        let g1 = with_file(g, e, s.root);
        let n = g1.index_of(id);
        let g2 = g1.with_entry(id).with_node_at(n, g1.nodes[n].with_flag(NodeFlag::EntryPoint));
        Ok(
            visit(
                s,
                Crawl {
                    graph: g2,
                    visited: Seq::new(g2.nodes.len(), |i: int| false),
                    stack: Seq::empty(),
                    failed: None,
                },
                n as usize,
                e,
            ),
        )
    }
}

/// The number of the node of the entry file of a build from `entry`.
pub open spec fn entry_node(s: Setting, g: GraphView, entry: Seq<char>) -> usize {
    let e = normalized(entry);
    with_file(g, e, s.root).index_of(file_id(e, s.root)) as usize
}

/// The graph after a build from `entry`, and what the build returns: the
/// number of the entry node, or the error that ended it.
pub open spec fn built(s: Setting, g: GraphView, entry: Seq<char>) -> (
    GraphView,
    Result<usize, BuildErrorView>,
) {
    match begin(s, g, entry) {
        Err(e) => (g, Err(e)),
        Ok(c) => {
            let last = outcome(s, c);
            match last.failed {
                Some(p) => (last.graph, Err(BuildErrorView::Unreadable(p))),
                None => (last.graph, Ok(entry_node(s, g, entry))),
            }
        },
    }
}

/// The view of what a build returns.
pub open spec fn build_result_view(r: Result<usize, BuildError>) -> Result<usize, BuildErrorView> {
    match r {
        Ok(n) => Ok(n),
        Err(e) => Err(e@),
    }
}

/// The graph after the first `n` files of `paths` were looked at for
/// orphans: each stylesheet under the root that has no node yet gets one,
/// flagged as orphan.
pub open spec fn with_orphans(g: GraphView, paths: Seq<Seq<char>>, root: Seq<char>, n: int) -> GraphView
    decreases n,
{
    if n <= 0 || n > paths.len() {
        g
    } else {
        let before = with_orphans(g, paths, root, n - 1);
        let p = paths[n - 1];
        if is_under(p, root) && is_stylesheet(p) && before.index_of(file_id(p, root)) < 0 {
            before.with_node(
                FileNodeView::fresh(file_id(p, root), p).with_flag(NodeFlag::Orphan),
            )
        } else {
            before
        }
    }
}

/// Whether the node carries no flag but those that the builder assigns:
/// `EntryPoint` and `Orphan`.
pub open spec fn only_builder_flags(node: FileNodeView) -> bool {
    forall|k: int|
        0 <= k < node.flags.len() ==> #[trigger] node.flags[k] == NodeFlag::EntryPoint
            || node.flags[k] == NodeFlag::Orphan
}

/// Whether no node of the graph carries a flag that only the analysis
/// assigns.
pub open spec fn unanalyzed(g: GraphView) -> bool {
    forall|i: int| 0 <= i < g.nodes.len() ==> only_builder_flags(#[trigger] g.nodes[i])
}

proof fn lemma_with_file_unanalyzed(g: GraphView, path: Seq<char>, root: Seq<char>)
    requires
        unanalyzed(g),
    ensures
        unanalyzed(with_file(g, path, root)),
{
    let after = with_file(g, path, root);
    assert forall|i: int| 0 <= i < after.nodes.len() implies only_builder_flags(
        #[trigger] after.nodes[i],
    ) by {
        if i < g.nodes.len() {
            assert(after.nodes[i] == g.nodes[i]);
        }
    }
}

/// The graph with a node for a file has that node.
pub proof fn lemma_with_file_index(g: GraphView, path: Seq<char>, root: Seq<char>)
    ensures
        0 <= with_file(g, path, root).index_of(file_id(path, root)) < with_file(
            g,
            path,
            root,
        ).nodes.len(),
{
    let id = file_id(path, root);
    lemma_first_index(g.ids(), id);
    if g.index_of(id) < 0 {
        let after = with_file(g, path, root);
        assert(after.ids() =~= g.ids().push(id));
        lemma_first_index_push(g.ids(), id, id);
    }
}

proof fn lemma_step_unanalyzed(s: Setting, c: Crawl)
    requires
        unanalyzed(c.graph),
    ensures
        unanalyzed(step(s, c).graph),
{
    reveal(step);
    let f = c.stack.last();
    if f.next < f.targets.len() {
        let t = f.targets[f.next as int];
        if !is_builtin(t.text) {
            match resolution(s.tree, s.load_paths, s.exts, f.path, t.text) {
                Err(e) => {},
                Ok(p) => {
                    lemma_with_file_unanalyzed(c.graph, p, s.root);
                },
            }
        }
    }
}

proof fn lemma_crawl_unanalyzed(s: Setting, c: Crawl, fuel: nat)
    requires
        unanalyzed(c.graph),
    ensures
        unanalyzed(crawl(s, c, fuel).graph),
    decreases fuel,
{
    if fuel > 0 && c.stack.len() > 0 {
        lemma_step_unanalyzed(s, c);
        lemma_crawl_unanalyzed(s, step(s, c), (fuel - 1) as nat);
    }
}

/// A build assigns no flag but `EntryPoint`: a graph without flags of the
/// analysis has none after the build.
pub proof fn lemma_built_unanalyzed(s: Setting, g: GraphView, entry: Seq<char>)
    requires
        unanalyzed(g),
    ensures
        unanalyzed(built(s, g, entry).0),
{
    let e = normalized(entry);
    if s.tree.holds_file(e) {
        let id = file_id(e, s.root);
        let g1 = with_file(g, e, s.root);
        lemma_with_file_unanalyzed(g, e, s.root);
        lemma_with_file_index(g, e, s.root);
        let n = g1.index_of(id);
        let g2 = g1.with_entry(id).with_node_at(n, g1.nodes[n].with_flag(NodeFlag::EntryPoint));
        assert forall|i: int| 0 <= i < g2.nodes.len() implies only_builder_flags(
            #[trigger] g2.nodes[i],
        ) by {
            assert(only_builder_flags(g1.nodes[i]));
            if i != n {
                assert(g2.nodes[i] == g1.nodes[i]);
            }
        }
        let c = begin(s, g, entry)->Ok_0;
        assert(c.graph == g2);
        lemma_crawl_unanalyzed(s, c, choose|fuel: nat| crawl(s, c, fuel).stack.len() == 0);
    }
}

/// The discovery of orphans assigns no flag but `Orphan`.
pub proof fn lemma_orphans_unanalyzed(g: GraphView, paths: Seq<Seq<char>>, root: Seq<char>, n: int)
    requires
        unanalyzed(g),
    ensures
        unanalyzed(with_orphans(g, paths, root, n)),
    decreases n,
{
    if 0 < n <= paths.len() {
        lemma_orphans_unanalyzed(g, paths, root, n - 1);
        let before = with_orphans(g, paths, root, n - 1);
        let after = with_orphans(g, paths, root, n);
        assert forall|i: int| 0 <= i < after.nodes.len() implies only_builder_flags(
            #[trigger] after.nodes[i],
        ) by {
            if i < before.nodes.len() {
                assert(after.nodes[i] == before.nodes[i]);
            }
        }
    }
}

/// Whether the build has not marked the file with the identifier.
pub open spec fn is_unvisited(ids: Seq<Seq<char>>, visited: Seq<bool>, id: Seq<char>) -> bool {
    let n = first_index(ids, id);
    n < 0 || n >= visited.len() || !visited[n]
}

/// The number of files among `paths` that the build has not marked.
pub open spec fn unvisited_count(
    paths: Seq<Seq<char>>,
    root: Seq<char>,
    ids: Seq<Seq<char>>,
    visited: Seq<bool>,
) -> nat
    decreases paths.len(),
{
    if paths.len() == 0 {
        0
    } else {
        unvisited_count(paths.drop_last(), root, ids, visited) + if is_unvisited(
            ids,
            visited,
            file_id(paths.last(), root),
        ) {
            1nat
        } else {
            0nat
        }
    }
}

/// The work that one frame stands for: its references still to follow,
/// and its removal.
pub open spec fn frame_work(f: FrameView) -> nat {
    if f.next <= f.targets.len() {
        (f.targets.len() - f.next + 1) as nat
    } else {
        1
    }
}

/// The work that the stack stands for.
pub open spec fn pending(stack: Seq<FrameView>) -> nat
    decreases stack.len(),
{
    if stack.len() == 0 {
        0
    } else {
        pending(stack.drop_last()) + frame_work(stack.last())
    }
}

/// The number of files of the tree that the build has not marked.
pub open spec fn unvisited_files(s: Setting, c: Crawl) -> nat {
    unvisited_count(s.tree.file_paths(), s.root, c.graph.ids(), c.visited)
}

/// Whether a step made progress: it marked a file of the tree, or it
/// marked none and reduced the pending work.
pub open spec fn progressed(s: Setting, before: Crawl, after: Crawl) -> bool {
    unvisited_files(s, after) < unvisited_files(s, before) || (unvisited_files(s, after)
        == unvisited_files(s, before) && pending(after.stack) < pending(before.stack))
}

/// Whether the state of a build is consistent: the graph is well formed,
/// every node has a mark, and every frame names a node of the graph and a
/// position in its references.
pub open spec fn consistent(c: Crawl) -> bool {
    &&& c.graph.well_formed()
    &&& c.visited.len() == c.graph.nodes.len()
    &&& forall|i: int|
        0 <= i < c.stack.len() ==> (#[trigger] c.stack[i]).node < c.graph.nodes.len()
            && c.stack[i].next <= c.stack[i].targets.len()
}

proof fn lemma_unvisited_new_node(
    paths: Seq<Seq<char>>,
    root: Seq<char>,
    ids: Seq<Seq<char>>,
    visited: Seq<bool>,
    id: Seq<char>,
)
    requires
        visited.len() == ids.len(),
    ensures
        unvisited_count(paths, root, ids.push(id), visited.push(false)) == unvisited_count(
            paths,
            root,
            ids,
            visited,
        ),
    decreases paths.len(),
{
    if paths.len() > 0 {
        lemma_unvisited_new_node(paths.drop_last(), root, ids, visited, id);
        let x = file_id(paths.last(), root);
        lemma_first_index_push(ids, id, x);
        lemma_first_index(ids, x);
    }
}

proof fn lemma_unvisited_mark(
    paths: Seq<Seq<char>>,
    root: Seq<char>,
    ids: Seq<Seq<char>>,
    visited: Seq<bool>,
    to: int,
)
    requires
        ids.no_duplicates(),
        visited.len() == ids.len(),
        0 <= to < ids.len(),
        !visited[to],
    ensures
        unvisited_count(paths, root, ids, visited.update(to, true)) <= unvisited_count(
            paths,
            root,
            ids,
            visited,
        ),
        (exists|k: int| 0 <= k < paths.len() && file_id(paths[k], root) == ids[to])
            ==> unvisited_count(paths, root, ids, visited.update(to, true)) < unvisited_count(
            paths,
            root,
            ids,
            visited,
        ),
    decreases paths.len(),
{
    if paths.len() > 0 {
        let rest = paths.drop_last();
        lemma_unvisited_mark(rest, root, ids, visited, to);
        let x = file_id(paths.last(), root);
        lemma_first_index(ids, x);
        lemma_first_index(ids, ids[to]);
        if x == ids[to] {
            let f = first_index(ids, x);
            if f != to {
                assert(ids[f] != ids[to]);
            }
        }
        if exists|k: int| 0 <= k < paths.len() && file_id(paths[k], root) == ids[to] {
            let k = choose|k: int| 0 <= k < paths.len() && file_id(paths[k], root) == ids[to];
            if k < paths.len() - 1 {
                assert(file_id(rest[k], root) == ids[to]);
            }
        }
    }
}

proof fn lemma_pending_push(stack: Seq<FrameView>, f: FrameView)
    ensures
        pending(stack.push(f)) == pending(stack) + frame_work(f),
{
    assert(stack.push(f).drop_last() =~= stack);
}

/// One more unit of fuel is one more step, unless the build has ended.
pub proof fn lemma_crawl_next(s: Setting, c: Crawl, n: nat)
    ensures
        crawl(s, c, n + 1) == if crawl(s, c, n).stack.len() == 0 {
            crawl(s, c, n)
        } else {
            step(s, crawl(s, c, n))
        },
{
    lemma_crawl_add(s, c, n, 1);
    let x = crawl(s, c, n);
    if x.stack.len() > 0 {
        assert(crawl(s, step(s, x), 0) == step(s, x));
    }
}

/// Running on from the state after `a` steps is running `a + b` steps.
pub proof fn lemma_crawl_add(s: Setting, c: Crawl, a: nat, b: nat)
    ensures
        crawl(s, c, a + b) == crawl(s, crawl(s, c, a), b),
    decreases a,
{
    if a == 0 {
    } else if c.stack.len() == 0 {
        lemma_crawl_rest(s, c, b);
        lemma_crawl_rest(s, c, a + b);
    } else {
        lemma_crawl_add(s, step(s, c), (a - 1) as nat, b);
    }
}

/// A build whose stack is empty stays as it is.
pub proof fn lemma_crawl_rest(s: Setting, c: Crawl, fuel: nat)
    requires
        c.stack.len() == 0,
    ensures
        crawl(s, c, fuel) == c,
{
}

/// A build that has ended after `a` steps is in the same state after
/// any larger number of steps.
pub proof fn lemma_crawl_stable(s: Setting, c: Crawl, a: nat, b: nat)
    requires
        a <= b,
        crawl(s, c, a).stack.len() == 0,
    ensures
        crawl(s, c, b) == crawl(s, c, a),
    decreases a,
{
    if a > 0 && c.stack.len() > 0 {
        lemma_crawl_stable(s, step(s, c), (a - 1) as nat, (b - 1) as nat);
    }
}

/// A build is deterministic: two runs from the same state that both come
/// to an end, after whatever numbers of steps, end in the same state, and
/// that state is the outcome.
pub proof fn lemma_crawl_deterministic(s: Setting, c: Crawl, a: nat, b: nat)
    requires
        crawl(s, c, a).stack.len() == 0,
        crawl(s, c, b).stack.len() == 0,
    ensures
        crawl(s, c, a) == crawl(s, c, b),
        crawl(s, c, a) == outcome(s, c),
{
    if a <= b {
        lemma_crawl_stable(s, c, a, b);
    } else {
        lemma_crawl_stable(s, c, b, a);
    }
    let f = choose|fuel: nat| crawl(s, c, fuel).stack.len() == 0;
    if a <= f {
        lemma_crawl_stable(s, c, a, f);
    } else {
        lemma_crawl_stable(s, c, f, a);
    }
}

/// Building the same entry on the same graph, tree and settings gives the
/// same graph and the same result: node order, edges, entry points and
/// warnings are functions of the inputs alone.
pub proof fn lemma_build_deterministic(
    s: Setting,
    g: GraphView,
    entry: Seq<char>,
    first: (GraphView, Result<usize, BuildErrorView>),
    second: (GraphView, Result<usize, BuildErrorView>),
)
    requires
        first == built(s, g, entry),
        second == built(s, g, entry),
    ensures
        first.0.nodes == second.0.nodes,
        first.0.edges == second.0.edges,
        first == second,
{
}

/// The marks and the stack of a build in progress.
pub struct Traversal {
    /// Which nodes the build has begun to process.
    pub visited: Vec<bool>,
    /// The files whose references are being followed, innermost last.
    pub stack: Vec<Frame>,
    /// The file that could not be read, if the build met one.
    pub failed: Option<String>,
}

/// The state of a build with the given graph and traversal.
pub open spec fn state_of(g: GraphView, t: Traversal) -> Crawl {
    Crawl {
        graph: g,
        visited: t.visited@,
        stack: frames_view(t.stack@),
        failed: match t.failed {
            Some(p) => Some(p@),
            None => None,
        },
    }
}

/// Whether the reference names a module of the compiler.
pub fn is_builtin_module(text: &str) -> (r: bool)
    ensures
        r == is_builtin(text@),
{
    let c = chars_of(text);
    if c.len() >= 5 {
        let r = c[0] == 's' && c[1] == 'a' && c[2] == 's' && c[3] == 's' && c[4] == ':';
        proof {
            let head = text@.subrange(0, 5);
            if r {
                assert(head =~= seq!['s', 'a', 's', 's', ':']);
            } else if head == seq!['s', 'a', 's', 's', ':'] {
                assert(head[0] == 's' && head[1] == 'a' && head[2] == 's' && head[3] == 's'
                    && head[4] == ':');
            }
        }
        r
    } else {
        false
    }
}

/// The edge that a directive gives rise to.
pub fn edge_for(d: &Directive) -> (edge: DependencyEdge)
    ensures
        edge@ == edge_of(d@),
{
    match d {
        Directive::Use(u) => {
            let namespace = match &u.namespace {
                Some(Namespace::Named(n)) => Some(n.clone()),
                Some(Namespace::Star) => {
                    proof {
                        reveal_strlit("*");
                        assert("*"@ =~= seq!['*']);
                    }
                    Some(String::from_str("*"))
                },
                Some(Namespace::Default) => None,
                None => None,
            };
            DependencyEdge::with_meta(
                DirectiveType::Use,
                u.location,
                EdgeMeta { namespace, configured: u.configured },
            )
        },
        Directive::Forward(f) => DependencyEdge::new(DirectiveType::Forward, f.location),
        Directive::Import(i) => DependencyEdge::new(DirectiveType::Import, i.location),
    }
}

/// The references of a list of directives, in source order.
pub fn targets_from(directives: &Vec<Directive>) -> (out: Vec<Target>)
    ensures
        targets_view(out@) == targets_of(directives_view(directives@)),
{
    let mut out: Vec<Target> = Vec::new();
    let mut i: usize = 0;
    let ghost all = directives_view(directives@);
    assert(all.subrange(0, 0) =~= Seq::<DirectiveView>::empty());
    assert(targets_view(out@) =~= Seq::<TargetView>::empty());
    while i < directives.len()
        invariant
            i <= directives@.len(),
            all == directives_view(directives@),
            targets_view(out@) == targets_of(all.subrange(0, i as int)),
        decreases directives@.len() - i,
    {
        let d = &directives[i];
        let paths = d.paths();
        let ghost before = targets_view(out@);
        let ghost these = targets_of_directive(d@);
        let mut k: usize = 0;
        assert(before + these.subrange(0, 0) =~= before);
        while k < paths.len()
            invariant
                k <= paths@.len(),
                paths@.len() == d@.paths().len(),
                forall|j: int| 0 <= j < paths@.len() ==> (#[trigger] paths@[j])@ == d@.paths()[j],
                these == targets_of_directive(d@),
                targets_view(out@) == before + these.subrange(0, k as int),
            decreases paths@.len() - k,
        {
            let edge = edge_for(d);
            let ghost old_out = targets_view(out@);
            out.push(Target { text: String::from_str(paths[k]), edge });
            proof {
                assert(targets_view(out@) =~= old_out.push(these[k as int]));
                assert(before + these.subrange(0, k as int + 1) =~= (before + these.subrange(
                    0,
                    k as int,
                )).push(these[k as int]));
            }
            k += 1;
        }
        proof {
            assert(these.subrange(0, k as int) =~= these);
            assert(all.subrange(0, i as int + 1).drop_last() =~= all.subrange(0, i as int));
            assert(all.subrange(0, i as int + 1).last() == d@);
        }
        i += 1;
    }
    assert(all.subrange(0, i as int) =~= all);
    out
}

/// Begins to process the file at `path`, whose node is `node`.
fn process_file(
    t: &mut Traversal,
    node: usize,
    path: String,
    tree: &SourceTree,
    Ghost(s): Ghost<Setting>,
    Ghost(g): Ghost<GraphView>,
)
    requires
        s.tree == *tree,
        node < old(t).visited@.len(),
    ensures
        state_of(g, *final(t)) == visit(s, state_of(g, *old(t)), node, path@),
{
    let ghost before = state_of(g, *t);
    match tree.read(path.as_str()) {
        None => {
            t.failed = Some(path);
            t.stack = Vec::new();
            proof {
                assert(frames_view(t.stack@) =~= Seq::<FrameView>::empty());
            }
        },
        Some(text) => {
            let targets = match Parser::parse(text.as_str()) {
                Ok(directives) => targets_from(&directives),
                Err(_) => Vec::new(),
            };
            t.visited.set(node, true);
            let frame = Frame { node, path, targets, next: 0 };
            let ghost fv = frame@;
            t.stack.push(frame);
            proof {
                assert(frames_view(t.stack@) =~= before.stack.push(fv));
            }
        },
    }
}

impl DependencyGraph {
    /// Makes sure that the graph has a node for the file at `path`, and
    /// returns the number of that node.
    pub(crate) fn add_file(&mut self, path: &str, root: &str) -> (n: usize)
        requires
            old(self).wf(),
        ensures
            final(self).wf(),
            final(self)@ == with_file(old(self)@, path@, root@),
            n == final(self)@.index_of(file_id(path@, root@)),
            n < final(self)@.nodes.len(),
    {
        let id = get_file_id(path, root);
        match self.find_node(id.as_str()) {
            Some(i) => i,
            None => {
                let ghost ids = self@.ids();
                let node = FileNode::new(id, String::from_str(path));
                let n = self.insert_node(node);
                proof {
                    assert(self@.ids() =~= ids.push(file_id(path@, root@)));
                    lemma_first_index_push(ids, file_id(path@, root@), file_id(path@, root@));
                }
                n
            },
        }
    }

    /// Makes sure that the graph has an edge from `from` to `to`: a new
    /// edge carries `edge`, an edge that exists stays as it is.
    pub(crate) fn add_edge(&mut self, from: usize, to: usize, edge: DependencyEdge)
        requires
            old(self).wf(),
            from < old(self)@.nodes.len(),
            to < old(self)@.nodes.len(),
        ensures
            final(self).wf(),
            final(self)@ == with_link(old(self)@, from, to, edge@),
    {
        if !self.has_edge(from, to) {
            self.insert_edge(from, to, edge);
        }
    }

    /// Follows a reference that resolved to the file at `p`.
    fn follow(
        &mut self,
        t: &mut Traversal,
        from: usize,
        edge: DependencyEdge,
        p: String,
        root: &str,
        tree: &SourceTree,
        Ghost(s): Ghost<Setting>,
    )
        requires
            old(self).wf(),
            s.tree == *tree,
            s.root == root@,
            s.tree.holds_file(p@),
            consistent(state_of(old(self)@, *old(t))),
            from < old(self)@.nodes.len(),
        ensures
            final(self).wf(),
            consistent(state_of(final(self)@, *final(t))),
            ({
                let c1 = state_of(old(self)@, *old(t));
                let g1 = with_file(c1.graph, p@, s.root);
                let to = g1.index_of(file_id(p@, s.root)) as usize;
                let g2 = with_link(g1, from, to, edge@);
                let c2 = Crawl { graph: g2, visited: marks_for(c1.visited, g1), ..c1 };
                &&& state_of(final(self)@, *final(t)) == if c2.visited[to as int] {
                    c2
                } else {
                    visit(s, c2, to, p@)
                }
                &&& unvisited_files(s, state_of(final(self)@, *final(t))) <= unvisited_files(s, c1)
                &&& pending(frames_view(final(t).stack@)) > pending(frames_view(old(t).stack@))
                    ==> unvisited_files(s, state_of(final(self)@, *final(t))) < unvisited_files(
                    s,
                    c1,
                )
            }),
    {
        let ghost c1 = state_of(self@, *t);
        let ghost paths = s.tree.file_paths();
        proof {
            self.lemma_wf();
        }
        let to = self.add_file(p.as_str(), root);
        let ghost g1 = self@;
        if t.visited.len() < self.node_count() {
            t.visited.push(false);
        }
        proof {
            assert(t.visited@ =~= marks_for(c1.visited, g1));
            if c1.graph.index_of(file_id(p@, s.root)) < 0 {
                assert(g1.ids() =~= c1.graph.ids().push(file_id(p@, s.root)));
                lemma_unvisited_new_node(
                    paths,
                    s.root,
                    c1.graph.ids(),
                    c1.visited,
                    file_id(p@, s.root),
                );
            }
        }
        self.add_edge(from, to, edge);
        let ghost g2 = self@;
        proof {
            self.lemma_wf();
            assert(g2.ids() =~= g1.ids());
            assert(g2.nodes == g1.nodes);
        }
        let ghost c2 = state_of(g2, *t);
        if !t.visited[to] {
            proof {
                lemma_first_index(g2.ids(), file_id(p@, s.root));
                lemma_first_index(paths, p@);
                lemma_unvisited_mark(paths, s.root, g2.ids(), t.visited@, to as int);
                let k = first_index(paths, p@);
                assert(file_id(paths[k], s.root) == g2.ids()[to as int]);
            }
            process_file(t, to, p, tree, Ghost(s), Ghost(g2));
            proof {
                let c3 = state_of(g2, *t);
                assert(c3 == visit(s, c2, to, p@));
                if s.tree.text_of(p@) is Some {
                    assert forall|i: int| 0 <= i < c3.stack.len() implies (#[trigger] c3.stack[i]).node
                        < c3.graph.nodes.len() && c3.stack[i].next <= c3.stack[i].targets.len() by {
                        if i < c2.stack.len() {
                            assert(c3.stack[i] == c2.stack[i]);
                        }
                    }
                } else {
                    assert(c3.stack =~= Seq::<FrameView>::empty());
                    assert(pending(c3.stack) == 0);
                }
            }
        }
    }

    /// Performs one step of a build.
    fn step(
        &mut self,
        t: &mut Traversal,
        resolver: &Resolver,
        root: &str,
        tree: &SourceTree,
        Ghost(s): Ghost<Setting>,
    )
        requires
            old(self).wf(),
            s == setting_of(*tree, *resolver, root@),
            consistent(state_of(old(self)@, *old(t))),
            old(t).stack@.len() > 0,
        ensures
            final(self).wf(),
            consistent(state_of(final(self)@, *final(t))),
            state_of(final(self)@, *final(t)) == step(s, state_of(old(self)@, *old(t))),
            progressed(s, state_of(old(self)@, *old(t)), state_of(final(self)@, *final(t))),
    {
        let ghost c = state_of(self@, *t);
        let ghost top = c.stack.last();
        let ghost below = c.stack.drop_last();
        proof {
            reveal(step);
        }
        let mut f = match t.stack.pop() {
            Some(f) => f,
            None => {
                return ;
            },
        };
        proof {
            assert(f@ == top);
            assert(frames_view(t.stack@) =~= below);
            assert(pending(c.stack) == pending(below) + frame_work(top));
            assert forall|i: int| 0 <= i < below.len() implies (#[trigger] below[i]).node
                < c.graph.nodes.len() && below[i].next <= below[i].targets.len() by {
                assert(below[i] == c.stack[i]);
            }
        }
        if f.next >= f.targets.len() {
            return ;
        }
        let k = f.next;
        let text = f.targets[k].text.clone();
        let edge = f.targets[k].edge.clone_edge();
        let from = f.node;
        let path = f.path.clone();
        f.next = k + 1;
        let ghost moved = f@;
        t.stack.push(f);
        let ghost c1 = state_of(self@, *t);
        proof {
            assert(moved == FrameView { next: (top.next + 1) as usize, ..top });
            assert(c1.stack =~= below.push(moved));
            lemma_pending_push(below, moved);
            assert(pending(c1.stack) < pending(c.stack));
            assert forall|i: int| 0 <= i < c1.stack.len() implies (#[trigger] c1.stack[i]).node
                < c1.graph.nodes.len() && c1.stack[i].next <= c1.stack[i].targets.len() by {
                if i < below.len() {
                    assert(c1.stack[i] == below[i]);
                }
            }
            assert(text@ == top.targets[top.next as int].text);
            assert(edge@ == top.targets[top.next as int].edge);
        }
        if is_builtin_module(text.as_str()) {
            return ;
        }
        match resolver.resolve(path.as_str(), text.as_str(), tree) {
            Err(e) => {
                let reason = e.to_string();
                self.push_warning(Warning { target: text, from: path, reason });
                proof {
                    self.lemma_wf();
                    assert(self@.ids() =~= c.graph.ids());
                }
            },
            Ok(p) => {
                proof {
                    lemma_resolution_is_file(s.tree, s.load_paths, s.exts, path@, text@);
                }
                self.follow(t, from, edge, p, root, tree, Ghost(s));
            },
        }
    }

    /// Builds the dependency graph from an entry file.
    ///
    /// The entry file is flagged as entry point, and every file that it
    /// references, directly or indirectly, gets a node and every reference
    /// between two files an edge. A reference that does not resolve is
    /// recorded as a warning. The build fails where the entry is no file
    /// of the tree or a file to process cannot be read; what it had added
    /// to the graph by then stays.
    pub fn build_from_entry(
        &mut self,
        entry: &str,
        resolver: &Resolver,
        root: &str,
        tree: &SourceTree,
    ) -> (r: Result<usize, BuildError>)
        requires
            old(self).wf(),
        ensures
            final(self).wf(),
            (final(self)@, build_result_view(r)) == built(
                setting_of(*tree, *resolver, root@),
                old(self)@,
                entry@,
            ),
    {
        let ghost s = setting_of(*tree, *resolver, root@);
        let ghost g0 = self@;
        let e = normalize(entry);
        if !tree.is_file(e.as_str()) {
            return Err(BuildError::EntryNotFound(String::from_str(entry)));
        }
        let n = self.add_file(e.as_str(), root);
        let ghost g1 = self@;
        let id = get_file_id(e.as_str(), root);
        self.mark_entry(id.as_str());
        self.add_node_flag(n, NodeFlag::EntryPoint);
        let ghost g2 = self@;
        proof {
            assert(g2 == g1.with_entry(id@).with_node_at(
                n as int,
                g1.nodes[n as int].with_flag(NodeFlag::EntryPoint),
            ));
            self.lemma_wf();
        }
        let count = self.node_count();
        let mut visited: Vec<bool> = Vec::new();
        let mut i: usize = 0;
        while i < count
            invariant
                i <= count,
                visited@.len() == i,
                forall|k: int| 0 <= k < i ==> !visited@[k],
            decreases count - i,
        {
            visited.push(false);
            i += 1;
        }
        let mut t = Traversal { visited, stack: Vec::new(), failed: None };
        let ghost start = state_of(g2, t);
        proof {
            assert(start.visited =~= Seq::new(g2.nodes.len(), |i: int| false));
            assert(start.stack =~= Seq::<FrameView>::empty());
        }
        process_file(&mut t, n, e, tree, Ghost(s), Ghost(g2));
        let ghost c0 = state_of(self@, t);
        let ghost mut steps: nat = 0;
        proof {
            assert(begin(s, g0, entry@) == Ok::<Crawl, BuildErrorView>(c0));
            if s.tree.text_of(normalized(entry@)) is Some {
                assert forall|i: int| 0 <= i < c0.stack.len() implies (#[trigger] c0.stack[i]).node
                    < c0.graph.nodes.len() && c0.stack[i].next <= c0.stack[i].targets.len() by {
                }
            } else {
                assert(c0.stack =~= Seq::<FrameView>::empty());
            }
        }
        while t.stack.len() > 0
            invariant
                self.wf(),
                s == setting_of(*tree, *resolver, root@),
                consistent(state_of(self@, t)),
                crawl(s, c0, steps) == state_of(self@, t),
            decreases unvisited_files(s, state_of(self@, t)), pending(frames_view(t.stack@)),
        {
            self.step(&mut t, resolver, root, tree, Ghost(s));
            proof {
                lemma_crawl_next(s, c0, steps);
                steps = steps + 1;
            }
        }
        proof {
            lemma_crawl_deterministic(s, c0, steps, steps);
        }
        match t.failed {
            Some(p) => Err(BuildError::Unreadable(p)),
            None => Ok(n),
        }
    }

    /// Adds the stylesheets under `root` that the graph does not hold yet,
    /// flagged as orphans. No edge is added.
    pub fn discover_orphans(&mut self, root: &str, _resolver: &Resolver, tree: &SourceTree) -> (r:
        Result<(), BuildError>)
        requires
            old(self).wf(),
        ensures
            r is Ok,
            final(self).wf(),
            final(self)@ == with_orphans(
                old(self)@,
                tree.file_paths(),
                root@,
                tree.file_paths().len() as int,
            ),
    {
        let ghost g0 = self@;
        let ghost paths = tree.file_paths();
        let mut k: usize = 0;
        while k < tree.files.len()
            invariant
                k <= tree.files@.len(),
                paths == tree.file_paths(),
                self.wf(),
                self@ == with_orphans(g0, paths, root@, k as int),
            decreases tree.files@.len() - k,
        {
            let path = tree.files[k].path.as_str();
            assert(path@ == paths[k as int]);
            if crate::resolver::lexical::under(path, root) && stylesheet(path) {
                let id = get_file_id(path, root);
                if self.find_node(id.as_str()).is_none() {
                    let mut node = FileNode::new(id, String::from_str(path));
                    node.add_flag(NodeFlag::Orphan);
                    let _ = self.insert_node(node);
                }
            }
            k += 1;
        }
        Ok(())
    }
}

} // verus!
