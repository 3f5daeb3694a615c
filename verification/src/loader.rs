//! Loading a bundle: the entry file and, depth first, every file it imports.
//!
//! The loader is a state machine. It never touches the file system: it asks
//! for a file to be read or for an import to be resolved to a canonical
//! path, and it is told the outcome. Imports must stay under the import
//! root and must not form a cycle.
use vstd::prelude::*;
use crate::ast::Spec;
use crate::bundle::{BundleAst, BundleFileAst};
use crate::diagnostics::{Diagnostic, DiagnosticModel, DiagnosticSet, parse_error_model};
use crate::normalize::views;
use crate::text::{chars_of, push_chars, slice_chars, str_equal};

verus! {

// ---------------------------------------------------------------------------
// Paths in canonical form.

/// The directory prefix of a root: the root itself when it ends with `/`,
/// else the root followed by `/`.
pub open spec fn dir_prefix(root: Seq<char>) -> Seq<char> {
    if root.len() > 0 && root.last() == '/' {
        root
    } else {
        root + "/"@
    }
}

/// Whether a canonical path is the root or lies below it (`Path::starts_with`
/// on canonical paths).
pub open spec fn path_under(p: Seq<char>, root: Seq<char>) -> bool {
    p == root || (p.len() >= dir_prefix(root).len() && p.take(dir_prefix(root).len() as int) == dir_prefix(root))
}

/// A path relative to the root when it lies below it, else the path itself
/// (`Path::strip_prefix`, falling back to the path).
pub open spec fn relative_path(p: Seq<char>, root: Seq<char>) -> Seq<char> {
    if p == root {
        Seq::empty()
    } else if path_under(p, root) {
        p.skip(dir_prefix(root).len() as int)
    } else {
        p
    }
}

/// Character order in which `/` comes before every other character.
pub open spec fn path_char_lt(x: char, y: char) -> bool {
    if x == '/' {
        y != '/'
    } else if y == '/' {
        false
    } else {
        x < y
    }
}

/// The order of canonical paths: component by component, which is the
/// order of their characters with `/` first.
pub open spec fn path_lt(a: Seq<char>, b: Seq<char>) -> bool
    decreases a.len(),
{
    if a.len() == 0 {
        b.len() > 0
    } else if b.len() == 0 {
        false
    } else if a[0] == b[0] {
        path_lt(a.drop_first(), b.drop_first())
    } else {
        path_char_lt(a[0], b[0])
    }
}

fn dir_prefix_of(root: &str) -> (r: Vec<char>)
    ensures
        r@ == dir_prefix(root@),
{
    let mut cs = chars_of(root);
    if cs.len() > 0 && cs[cs.len() - 1] == '/' {
        cs
    } else {
        cs.push('/');
        proof {
            reveal_strlit("/");
        }
        assert(cs@ =~= root@ + "/"@);
        cs
    }
}

fn starts_with_chars(p: &[char], prefix: &[char]) -> (r: bool)
    ensures
        r == (p@.len() >= prefix@.len() && p@.take(prefix@.len() as int) == prefix@),
{
    if p.len() < prefix.len() {
        return false;
    }
    let mut k: usize = 0;
    while k < prefix.len()
        invariant
            prefix@.len() <= p@.len(),
            k <= prefix@.len(),
            forall|j: int| 0 <= j < k ==> p@[j] == prefix@[j],
        decreases prefix@.len() - k,
    {
        if p[k] != prefix[k] {
            assert(p@.take(prefix@.len() as int)[k as int] != prefix@[k as int]);
            return false;
        }
        k = k + 1;
    }
    assert(p@.take(prefix@.len() as int) =~= prefix@);
    true
}

/// Whether the canonical path `p` is `root` or lies below it.
pub fn is_under(p: &str, root: &str) -> (r: bool)
    ensures
        r == path_under(p@, root@),
{
    if str_equal(p, root) {
        return true;
    }
    let cs = chars_of(p);
    let pre = dir_prefix_of(root);
    starts_with_chars(cs.as_slice(), pre.as_slice())
}

/// The path relative to `root` when it lies below it, else the path.
pub fn relative_to(p: &str, root: &str) -> (r: String)
    ensures
        r@ == relative_path(p@, root@),
{
    if str_equal(p, root) {
        return String::new();
    }
    let cs = chars_of(p);
    let pre = dir_prefix_of(root);
    if starts_with_chars(cs.as_slice(), pre.as_slice()) {
        let rest = slice_chars(cs.as_slice(), pre.len(), cs.len());
        assert(rest@ =~= p@.skip(dir_prefix(root@).len() as int));
        let mut out = String::new();
        push_chars(&mut out, rest.as_slice());
        assert(out@ =~= rest@);
        out
    } else {
        p.to_owned()
    }
}

/// Whether `a` comes before `b` in path order.
pub fn path_less(a: &str, b: &str) -> (r: bool)
    ensures
        r == path_lt(a@, b@),
{
    let x = chars_of(a);
    let y = chars_of(b);
    let mut i: usize = 0;
    assert(x@.skip(0) =~= x@);
    assert(y@.skip(0) =~= y@);
    while i < x.len() && i < y.len() && x[i] == y[i]
        invariant
            i <= x@.len(),
            i <= y@.len(),
            path_lt(a@, b@) == path_lt(x@.skip(i as int), y@.skip(i as int)),
            x@ == a@,
            y@ == b@,
        decreases x@.len() - i,
    {
        assert(x@.skip(i as int).drop_first() =~= x@.skip(i + 1));
        assert(y@.skip(i as int).drop_first() =~= y@.skip(i + 1));
        i = i + 1;
    }
    if i == x.len() {
        return i < y.len();
    }
    if i == y.len() {
        return false;
    }
    let c = x[i];
    let d = y[i];
    if c == '/' {
        d != '/'
    } else if d == '/' {
        false
    } else {
        c < d
    }
}

// ---------------------------------------------------------------------------
// The state of the loader.

/// A file being visited: its canonical path, its specification once read,
/// the index of the next import to resolve, and the imports resolved so far.
pub struct FrameModel {
    pub path: Seq<char>,
    pub spec: Option<Spec>,
    pub next: int,
    pub resolved: Seq<Seq<char>>,
}

/// A loaded file.
pub struct FileModel {
    pub path: Seq<char>,
    pub package: Seq<char>,
    pub imports: Seq<Seq<char>>,
    pub spec: Spec,
}

/// The content of a loader: the entry file, the import root, the files
/// being visited (entry first), the files done, in the order they were
/// done, and the import graph in path order.
pub struct LoaderModel {
    pub entry: Seq<char>,
    pub root: Seq<char>,
    pub stack: Seq<FrameModel>,
    pub visited: Seq<Seq<char>>,
    pub files: Seq<FileModel>,
    pub graph: Seq<(Seq<char>, Seq<Seq<char>>)>,
}

/// A frame that waits for the import `next` to be resolved.
pub open spec fn frame_open(f: FrameModel) -> bool {
    f.spec matches Some(s) && 0 <= f.next < s.imports@.len()
}

/// A loader in a state where it waits: every file below the top waits for
/// an import, and the top one for its text or for an import.
pub open spec fn loader_wf(m: LoaderModel) -> bool {
    &&& m.stack.len() > 0
    &&& forall|j: int| 0 <= j < m.stack.len() - 1 ==> frame_open(#[trigger] m.stack[j])
    &&& (m.stack.last().spec is None ==> m.stack.last().next == 0)
    &&& (m.stack.last().spec is Some ==> frame_open(m.stack.last()))
    &&& order_ok(m)
}

/// The bookkeeping of a loader: the files done are recorded once each, in
/// the order they were done, each after the files it imports; every import
/// recorded by a file being visited is done; and the files being visited
/// are neither done nor visited twice.
pub open spec fn order_ok(m: LoaderModel) -> bool {
    &&& m.visited == m.files.map_values(|f: FileModel| f.path)
    &&& m.visited.no_duplicates()
    &&& forall|i: int, k: int| #![trigger m.files[i].imports[k]]
        0 <= i < m.files.len() && 0 <= k < m.files[i].imports.len() ==> m.visited.take(i).contains(m.files[i].imports[k])
    &&& forall|j: int, r: Seq<char>| #![trigger m.stack[j].resolved.contains(r)]
        0 <= j < m.stack.len() && m.stack[j].resolved.contains(r) ==> m.visited.contains(r)
    &&& forall|j: int| 0 <= j < m.stack.len() ==> !m.visited.contains(#[trigger] m.stack[j].path)
    &&& forall|j: int, k: int| 0 <= j < k < m.stack.len() ==> (#[trigger] m.stack[j]).path != (#[trigger] m.stack[k]).path
    &&& load_facts(m)
}

/// The entry of the import graph for a loaded file: its path and its
/// resolved imports.
pub open spec fn graph_entry(f: FileModel) -> (Seq<char>, Seq<Seq<char>>) {
    (f.path, f.imports)
}

/// What a loader keeps of the entry, the root, the packages and the import
/// graph: the entry file is at the bottom of the stack, and is the last file
/// loaded once the stack is empty; every path lies under the import root;
/// each loaded file carries its specification's package; and the import
/// graph has one entry for each loaded file, its path and its imports.
pub open spec fn load_facts(m: LoaderModel) -> bool {
    &&& (m.stack.len() > 0 ==> m.stack[0].path == m.entry)
    &&& (m.stack.len() == 0 ==> m.files.len() > 0 && m.files.last().path == m.entry)
    &&& forall|j: int| 0 <= j < m.stack.len() ==> path_under((#[trigger] m.stack[j]).path, m.root)
    &&& forall|i: int| 0 <= i < m.files.len() ==> path_under((#[trigger] m.files[i]).path, m.root)
    &&& forall|i: int| 0 <= i < m.files.len() ==> (#[trigger] m.files[i]).package == m.files[i].spec.package@
    &&& graph_of_files(m.graph, m.files)
}

/// The import graph has one entry for each file, its path and its imports,
/// and no other entry.
pub open spec fn graph_of_files(graph: Seq<(Seq<char>, Seq<Seq<char>>)>, files: Seq<FileModel>) -> bool {
    &&& graph.len() == files.len()
    &&& forall|i: int| 0 <= i < files.len() ==> graph.contains(graph_entry(#[trigger] files[i]))
    &&& forall|g: int| #![trigger graph[g]] 0 <= g < graph.len() ==> exists|i: int| #![trigger files[i]] 0 <= i < files.len()
        && graph[g] == graph_entry(files[i])
}

/// The `k`-th import of the `i`-th file of a bundle is an earlier file.
pub open spec fn import_before(b: BundleAst, i: int, k: int) -> bool {
    exists|j: int| 0 <= j < i && b.files@[j].path@ == b.files@[i].imports@[k]@
}

/// The import graph has an entry for the `i`-th file of a bundle: its path
/// and its imports.
pub open spec fn graph_has_file(b: BundleAst, i: int) -> bool {
    exists|g: int| 0 <= g < b.import_graph@.len() && #[trigger] b.import_graph@[g].0@ == b.files@[i].path@
        && views(b.import_graph@[g].1@) == views(b.files@[i].imports@)
}

/// The `g`-th entry of the import graph of a bundle is the path and the
/// imports of one of its files.
pub open spec fn graph_entry_of_file(b: BundleAst, g: int) -> bool {
    exists|i: int| 0 <= i < b.files@.len() && b.import_graph@[g].0@ == (#[trigger] b.files@[i]).path@
        && views(b.import_graph@[g].1@) == views(b.files@[i].imports@)
}

/// The files of a bundle have distinct paths, each comes after every file
/// it imports, and the entry file comes last; every path lies under the
/// import root; each file carries its specification's package; and the
/// import graph holds, for each file and for nothing else, its path and its
/// imports.
pub open spec fn bundle_ordered(b: BundleAst) -> bool {
    &&& forall|i: int, j: int| 0 <= i < j < b.files@.len() ==> (#[trigger] b.files@[i]).path@ != (#[trigger] b.files@[j]).path@
    &&& forall|i: int, k: int|
        0 <= i < b.files@.len() && 0 <= k < b.files@[i].imports@.len() ==> #[trigger] import_before(b, i, k)
    &&& b.files@.len() > 0
    &&& b.files@.last().path@ == b.entry@
    &&& forall|i: int| 0 <= i < b.files@.len() ==> path_under((#[trigger] b.files@[i]).path@, b.import_root@)
    &&& forall|i: int| 0 <= i < b.files@.len() ==> (#[trigger] b.files@[i]).package@ == b.files@[i].spec.package@
    &&& b.import_graph@.len() == b.files@.len()
    &&& forall|i: int| 0 <= i < b.files@.len() ==> #[trigger] graph_has_file(b, i)
    &&& forall|g: int| 0 <= g < b.import_graph@.len() ==> #[trigger] graph_entry_of_file(b, g)
}

/// Inserting an entry before the first one whose path comes after it.
pub open spec fn graph_insert(g: Seq<(Seq<char>, Seq<Seq<char>>)>, k: Seq<char>, v: Seq<Seq<char>>) -> Seq<(Seq<char>, Seq<Seq<char>>)>
    decreases g.len(),
{
    if g.len() == 0 {
        seq![(k, v)]
    } else if path_lt(k, g[0].0) {
        seq![(k, v)] + g
    } else {
        seq![g[0]] + graph_insert(g.drop_first(), k, v)
    }
}

/// The top file is done: it is recorded, and the file that imported it
/// moves on to its next import.
pub open spec fn complete_top(m: LoaderModel) -> LoaderModel {
    let f = m.stack.last();
    let s = f.spec->Some_0;
    let rest = m.stack.drop_last();
    LoaderModel {
        stack: if rest.len() > 0 {
            rest.update(
                rest.len() - 1,
                FrameModel { resolved: rest.last().resolved.push(f.path), next: rest.last().next + 1, ..rest.last() },
            )
        } else {
            rest
        },
        visited: m.visited.push(f.path),
        files: m.files.push(FileModel { path: f.path, package: s.package@, imports: f.resolved, spec: s }),
        graph: graph_insert(m.graph, f.path, f.resolved),
        ..m
    }
}

/// Whether the top file has been read and all its imports visited.
pub open spec fn top_done(m: LoaderModel) -> bool {
    &&& m.stack.len() > 0
    &&& m.stack.last().spec matches Some(s) && m.stack.last().next >= s.imports@.len()
}

/// Completing files for as long as the top one is done.
pub open spec fn settle(m: LoaderModel) -> LoaderModel
    decreases m.stack.len(),
{
    if top_done(m) {
        settle(complete_top(m))
    } else {
        m
    }
}

proof fn lemma_graph_insert(g: Seq<(Seq<char>, Seq<Seq<char>>)>, k: Seq<char>, v: Seq<Seq<char>>)
    ensures
        graph_insert(g, k, v).len() == g.len() + 1,
        graph_insert(g, k, v).contains((k, v)),
        forall|i: int| 0 <= i < g.len() ==> graph_insert(g, k, v).contains(#[trigger] g[i]),
        forall|i: int| 0 <= i < graph_insert(g, k, v).len() ==> #[trigger] graph_insert(g, k, v)[i] == (k, v) || g.contains(
            graph_insert(g, k, v)[i],
        ),
    decreases g.len(),
{
    let r = graph_insert(g, k, v);
    if g.len() == 0 {
        assert(r[0] == (k, v));
    } else if path_lt(k, g[0].0) {
        assert(r == seq![(k, v)] + g);
        assert(r[0] == (k, v));
        assert forall|i: int| 0 <= i < g.len() implies r.contains(#[trigger] g[i]) by {
            assert(r[i + 1] == g[i]);
        }
        assert forall|i: int| 0 <= i < r.len() implies #[trigger] r[i] == (k, v) || g.contains(r[i]) by {
            if i > 0 {
                assert(r[i] == g[i - 1]);
            }
        }
    } else {
        let t = g.drop_first();
        lemma_graph_insert(t, k, v);
        let rt = graph_insert(t, k, v);
        assert(r == seq![g[0]] + rt);
        let j = choose|j: int| 0 <= j < rt.len() && rt[j] == (k, v);
        assert(r[j + 1] == (k, v));
        assert forall|i: int| 0 <= i < g.len() implies r.contains(#[trigger] g[i]) by {
            if i == 0 {
                assert(r[0] == g[0]);
            } else {
                assert(g[i] == t[i - 1]);
                assert(rt.contains(t[i - 1]));
                let x = choose|x: int| 0 <= x < rt.len() && rt[x] == t[i - 1];
                assert(r[x + 1] == g[i]);
            }
        }
        assert forall|i: int| 0 <= i < r.len() implies #[trigger] r[i] == (k, v) || g.contains(r[i]) by {
            if i == 0 {
                assert(g[0] == r[0]);
            } else {
                assert(r[i] == rt[i - 1]);
                if rt[i - 1] != (k, v) {
                    assert(t.contains(rt[i - 1]));
                    let x = choose|x: int| 0 <= x < t.len() && t[x] == rt[i - 1];
                    assert(g[x + 1] == r[i]);
                }
            }
        }
    }
}

proof fn lemma_complete_facts(m: LoaderModel)
    requires
        load_facts(m),
        top_done(m),
    ensures
        load_facts(complete_top(m)),
{
    let c = complete_top(m);
    let n = m.stack.len() as int;
    let f = m.stack.last();
    let s = f.spec->Some_0;
    let nf = FileModel { path: f.path, package: s.package@, imports: f.resolved, spec: s };
    assert(c.files == m.files.push(nf));
    assert(path_under(m.stack[n - 1].path, m.root));
    if n > 1 {
        assert(c.stack[0].path == m.stack[0].path);
    } else {
        assert(f == m.stack[0]);
    }
    assert forall|j: int| 0 <= j < c.stack.len() implies path_under((#[trigger] c.stack[j]).path, c.root) by {
        assert(c.stack[j].path == m.stack[j].path);
    }
    assert forall|i: int| 0 <= i < c.files.len() implies path_under((#[trigger] c.files[i]).path, c.root) by {
        if i < m.files.len() {
            assert(c.files[i] == m.files[i]);
        }
    }
    assert forall|i: int| 0 <= i < c.files.len() implies (#[trigger] c.files[i]).package == c.files[i].spec.package@ by {
        if i < m.files.len() {
            assert(c.files[i] == m.files[i]);
        }
    }
    lemma_graph_insert(m.graph, f.path, f.resolved);
    assert(graph_entry(nf) == (f.path, f.resolved));
    assert forall|i: int| 0 <= i < c.files.len() implies c.graph.contains(graph_entry(#[trigger] c.files[i])) by {
        if i < m.files.len() {
            assert(c.files[i] == m.files[i]);
            assert(m.graph.contains(graph_entry(m.files[i])));
            let x = choose|x: int| 0 <= x < m.graph.len() && m.graph[x] == graph_entry(m.files[i]);
            assert(c.graph.contains(m.graph[x]));
        }
    }
    assert forall|g: int| #![trigger c.graph[g]] 0 <= g < c.graph.len() implies exists|i: int| #![trigger c.files[i]] 0 <= i < c.files.len()
        && c.graph[g] == graph_entry(c.files[i]) by {
        if c.graph[g] == (f.path, f.resolved) {
            assert(c.files[m.files.len() as int] == nf);
            assert(c.graph[g] == graph_entry(c.files[m.files.len() as int]));
        } else {
            assert(m.graph.contains(c.graph[g]));
            let x = choose|x: int| 0 <= x < m.graph.len() && m.graph[x] == c.graph[g];
            let i = choose|i: int| #![trigger m.files[i]] 0 <= i < m.files.len() && m.graph[x] == graph_entry(m.files[i]);
            assert(c.files[i] == m.files[i]);
            assert(c.graph[g] == graph_entry(c.files[i]));
        }
    }
}

proof fn lemma_complete_order(m: LoaderModel)
    requires
        order_ok(m),
        top_done(m),
    ensures
        order_ok(complete_top(m)),
{
    lemma_complete_facts(m);
    let c = complete_top(m);
    let n = m.stack.len() as int;
    let f = m.stack.last();
    let old_len = m.files.len() as int;
    assert(c.files.map_values(|x: FileModel| x.path) =~= m.files.map_values(|x: FileModel| x.path).push(f.path));
    assert(!m.visited.contains(f.path)) by {
        assert(!m.visited.contains(m.stack[n - 1].path));
    }
    assert(c.visited.no_duplicates()) by {
        assert forall|a: int, b: int| 0 <= a < b < c.visited.len() implies c.visited[a] != c.visited[b] by {
            if b == m.visited.len() {
                assert(m.visited.contains(c.visited[a]));
            }
        }
    }
    assert forall|i: int, k: int| #![trigger c.files[i].imports[k]]
        0 <= i < c.files.len() && 0 <= k < c.files[i].imports.len() implies c.visited.take(i).contains(c.files[i].imports[k]) by {
        assert(c.visited.take(i) =~= m.visited.take(i));
        if i < old_len {
            assert(c.files[i] == m.files[i]);
        } else {
            assert(c.files[i].imports == f.resolved);
            assert(m.stack[n - 1].resolved.contains(f.resolved[k]));
            assert(m.visited.take(i) =~= m.visited);
        }
    }
    assert forall|j: int, r: Seq<char>| #![trigger c.stack[j].resolved.contains(r)]
        0 <= j < c.stack.len() && c.stack[j].resolved.contains(r) implies c.visited.contains(r) by {
        if j < n - 2 {
            assert(c.stack[j] == m.stack[j]);
            assert(m.visited.contains(r));
        } else {
            let pr = m.stack[n - 2].resolved;
            assert(c.stack[j].resolved == pr.push(f.path));
            if r == f.path {
                assert(c.visited[m.visited.len() as int] == f.path);
            } else {
                let x = choose|x: int| 0 <= x < pr.push(f.path).len() && pr.push(f.path)[x] == r;
                assert(pr[x] == r);
                assert(m.stack[n - 2].resolved.contains(r));
                assert(m.visited.contains(r));
            }
        }
        let y = choose|y: int| 0 <= y < m.visited.len() && m.visited[y] == r || r == f.path;
        if r != f.path {
            let z = choose|z: int| 0 <= z < m.visited.len() && m.visited[z] == r;
            assert(c.visited[z] == r);
        }
    }
    assert forall|j: int| 0 <= j < c.stack.len() implies !c.visited.contains(#[trigger] c.stack[j].path) by {
        assert(c.stack[j].path == m.stack[j].path);
        assert(m.stack[j].path != m.stack[n - 1].path);
        assert(!m.visited.contains(m.stack[j].path));
        if c.visited.contains(c.stack[j].path) {
            let z = choose|z: int| 0 <= z < c.visited.len() && c.visited[z] == c.stack[j].path;
            if z < m.visited.len() {
                assert(m.visited[z] == c.visited[z]);
            }
        }
    }
    assert forall|j: int, k: int| 0 <= j < k < c.stack.len() implies (#[trigger] c.stack[j]).path != (#[trigger] c.stack[k]).path by {
        assert(c.stack[j].path == m.stack[j].path);
        assert(c.stack[k].path == m.stack[k].path);
        assert(m.stack[j].path != m.stack[k].path);
    }
}

proof fn lemma_settle_order(m: LoaderModel)
    requires
        order_ok(m),
    ensures
        order_ok(settle(m)),
    decreases m.stack.len(),
{
    if top_done(m) {
        lemma_complete_order(m);
        lemma_settle_order(complete_top(m));
    }
}

proof fn lemma_bundle_ordered(b: BundleAst, m: LoaderModel)
    requires
        order_ok(m),
        m.stack.len() == 0,
        bundle_matches(b, m),
    ensures
        bundle_ordered(b),
{
    let last = b.files@.len() - 1;
    assert(b.files@[last].path@ == m.files[last].path);
    assert forall|i: int| 0 <= i < b.files@.len() implies path_under((#[trigger] b.files@[i]).path@, b.import_root@) by {
        assert(path_under(m.files[i].path, m.root));
    }
    assert forall|i: int| 0 <= i < b.files@.len() implies (#[trigger] b.files@[i]).package@ == b.files@[i].spec.package@ by {
        assert(m.files[i].package == m.files[i].spec.package@);
    }
    assert(graph_of_files(m.graph, m.files));
    assert forall|i: int| 0 <= i < b.files@.len() implies #[trigger] graph_has_file(b, i) by {
        assert(m.graph.contains(graph_entry(m.files[i])));
        let x = choose|x: int| 0 <= x < m.graph.len() && m.graph[x] == graph_entry(m.files[i]);
        assert(b.import_graph@[x].0@ == m.graph[x].0 && views(b.import_graph@[x].1@) == m.graph[x].1);
        assert(b.files@[i].path@ == m.files[i].path && views(b.files@[i].imports@) == m.files[i].imports);
    }
    assert forall|g: int| 0 <= g < b.import_graph@.len() implies #[trigger] graph_entry_of_file(b, g) by {
        assert(b.import_graph@[g].0@ == m.graph[g].0 && views(b.import_graph@[g].1@) == m.graph[g].1);
        let i = choose|i: int| #![trigger m.files[i]] 0 <= i < m.files.len() && m.graph[g] == graph_entry(m.files[i]);
        assert(b.files@[i].path@ == m.files[i].path && views(b.files@[i].imports@) == m.files[i].imports);
    }
    assert forall|i: int, j: int| 0 <= i < j < b.files@.len() implies (#[trigger] b.files@[i]).path@ != (#[trigger] b.files@[j]).path@ by {
        assert(b.files@[i].path@ == m.files[i].path);
        assert(b.files@[j].path@ == m.files[j].path);
        assert(m.visited[i] == m.files[i].path);
        assert(m.visited[j] == m.files[j].path);
        assert(m.visited.no_duplicates());
        assert(m.visited[i] != m.visited[j]);
    }
    assert forall|i: int, k: int|
        0 <= i < b.files@.len() && 0 <= k < b.files@[i].imports@.len() implies #[trigger] import_before(b, i, k) by {
        assert(views(b.files@[i].imports@) == m.files[i].imports);
        assert(views(b.files@[i].imports@)[k] == b.files@[i].imports@[k]@);
        assert(m.files[i].imports[k] == b.files@[i].imports@[k]@);
        assert(m.visited.take(i).contains(m.files[i].imports[k]));
        let j = choose|j: int| 0 <= j < m.visited.take(i).len() && m.visited.take(i)[j] == m.files[i].imports[k];
        assert(m.visited.take(i)[j] == m.visited[j]);
        assert(m.visited[j] == m.files[j].path);
        assert(b.files@[j].path@ == m.files[j].path);
        assert(0 <= j < i && b.files@[j].path@ == b.files@[i].imports@[k]@);
    }
}

proof fn lemma_advance_order(m: LoaderModel, c: Seq<char>)
    requires
        order_ok(m),
        m.stack.len() > 0,
        m.visited.contains(c),
    ensures
        order_ok(advance_top(m, c)),
{
    let a = advance_top(m, c);
    let n = m.stack.len() as int;
    assert(a.stack[0].path == m.stack[0].path);
    assert forall|j: int| 0 <= j < a.stack.len() implies path_under((#[trigger] a.stack[j]).path, a.root) by {
        assert(a.stack[j].path == m.stack[j].path);
    }
    assert forall|j: int, r: Seq<char>| #![trigger a.stack[j].resolved.contains(r)]
        0 <= j < a.stack.len() && a.stack[j].resolved.contains(r) implies a.visited.contains(r) by {
        if j < n - 1 {
            assert(a.stack[j] == m.stack[j]);
        } else if r != c {
            let pr = m.stack[n - 1].resolved;
            let x = choose|x: int| 0 <= x < pr.push(c).len() && pr.push(c)[x] == r;
            assert(pr[x] == r);
            assert(m.stack[n - 1].resolved.contains(r));
        }
    }
    assert forall|j: int| 0 <= j < a.stack.len() implies !a.visited.contains(#[trigger] a.stack[j].path) by {
        assert(a.stack[j].path == m.stack[j].path);
    }
    assert forall|j: int, k: int| 0 <= j < k < a.stack.len() implies (#[trigger] a.stack[j]).path != (#[trigger] a.stack[k]).path by {
        assert(a.stack[j].path == m.stack[j].path);
        assert(a.stack[k].path == m.stack[k].path);
    }
}

proof fn lemma_push_order(m: LoaderModel, c: Seq<char>)
    requires
        order_ok(m),
        m.stack.len() > 0,
        path_under(c, m.root),
        !m.visited.contains(c),
        forall|j: int| 0 <= j < m.stack.len() ==> (#[trigger] m.stack[j]).path != c,
    ensures
        order_ok(push_frame(m, c)),
{
    let a = push_frame(m, c);
    let n = m.stack.len() as int;
    assert(a.stack[0] == m.stack[0]);
    assert forall|j: int| 0 <= j < a.stack.len() implies path_under((#[trigger] a.stack[j]).path, a.root) by {
        if j < n {
            assert(a.stack[j] == m.stack[j]);
        }
    }
    assert(a.files == m.files && a.graph == m.graph && a.entry == m.entry && a.root == m.root);
    assert(load_facts(a));
    assert forall|j: int, r: Seq<char>| #![trigger a.stack[j].resolved.contains(r)]
        0 <= j < a.stack.len() && a.stack[j].resolved.contains(r) implies a.visited.contains(r) by {
        if j < n {
            assert(a.stack[j] == m.stack[j]);
        } else {
            assert(a.stack[j].resolved =~= Seq::<Seq<char>>::empty());
        }
    }
    assert forall|j: int| 0 <= j < a.stack.len() implies !a.visited.contains(#[trigger] a.stack[j].path) by {
        if j < n {
            assert(a.stack[j] == m.stack[j]);
        }
    }
    assert forall|j: int, k: int| 0 <= j < k < a.stack.len() implies (#[trigger] a.stack[j]).path != (#[trigger] a.stack[k]).path by {
        assert(a.stack[j] == m.stack[j]);
        if k < n {
            assert(a.stack[k] == m.stack[k]);
        }
    }
}

proof fn lemma_position_none(st: Seq<FrameModel>, c: Seq<char>, from: int)
    requires
        0 <= from,
        frame_position_from(st, c, from) is None,
    ensures
        forall|j: int| from <= j < st.len() ==> (#[trigger] st[j]).path != c,
    decreases st.len() - from,
{
    if from < st.len() {
        lemma_position_none(st, c, from + 1);
    }
}

/// What the loader asks for next.
pub enum LoadRequest {
    /// Read and parse the file at this canonical path.
    Read(String),
    /// Resolve the import (second) of the file (first) to a canonical path.
    Resolve(String, String),
}

/// The request that a waiting loader makes.
pub open spec fn request_matches(q: LoadRequest, m: LoaderModel) -> bool {
    let f = m.stack.last();
    match f.spec {
        None => q matches LoadRequest::Read(p) && p@ == f.path,
        Some(s) => q matches LoadRequest::Resolve(file, import) && file@ == f.path && import@ == s.imports@[f.next]@,
    }
}

/// The bundle that a loader with every file done returns.
pub open spec fn bundle_matches(b: BundleAst, m: LoaderModel) -> bool {
    &&& b.entry@ == m.entry
    &&& b.import_root@ == m.root
    &&& b.files@.len() == m.files.len()
    &&& forall|i: int| #![trigger b.files@[i]] 0 <= i < m.files.len() ==> {
        &&& b.files@[i].path@ == m.files[i].path
        &&& b.files@[i].package@ == m.files[i].package
        &&& views(b.files@[i].imports@) == m.files[i].imports
        &&& b.files@[i].spec == m.files[i].spec
    }
    &&& b.import_graph@.len() == m.graph.len()
    &&& forall|i: int| #![trigger b.import_graph@[i]] 0 <= i < m.graph.len() ==> b.import_graph@[i].0@ == m.graph[i].0
        && views(b.import_graph@[i].1@) == m.graph[i].1
}

/// One step of loading.
pub enum LoadStep {
    /// The loader waits for the outcome of the request.
    Next(BundleLoader, LoadRequest),
    /// Every file is loaded.
    Done(BundleAst),
    /// Loading failed.
    Failed(DiagnosticSet),
}

/// The step that a state leads to once every done file is completed: the
/// bundle when no file is left, else the loader and its request.
pub open spec fn step_from(r: LoadStep, m: LoaderModel) -> bool {
    let s = settle(m);
    if s.stack.len() == 0 {
        r matches LoadStep::Done(b) && bundle_matches(b, s)
    } else {
        r matches LoadStep::Next(l, q) && l@ == s && request_matches(q, s)
    }
}

struct Frame {
    path: String,
    spec: Option<Spec>,
    next: usize,
    resolved: Vec<String>,
}

impl Frame {
    spec fn model(&self) -> FrameModel {
        FrameModel { path: self.path@, spec: self.spec, next: self.next as int, resolved: views(self.resolved@) }
    }
}

spec fn frames_model(s: Seq<Frame>) -> Seq<FrameModel> {
    s.map_values(|f: Frame| f.model())
}

spec fn files_model(s: Seq<BundleFileAst>) -> Seq<FileModel> {
    s.map_values(|f: BundleFileAst| FileModel { path: f.path@, package: f.package@, imports: views(f.imports@), spec: f.spec })
}

spec fn graph_model(s: Seq<(String, Vec<String>)>) -> Seq<(Seq<char>, Seq<Seq<char>>)> {
    s.map_values(|e: (String, Vec<String>)| (e.0@, views(e.1@)))
}

/// A bundle loader between two steps.
pub struct BundleLoader {
    entry: String,
    root: String,
    stack: Vec<Frame>,
    visited: Vec<String>,
    files: Vec<BundleFileAst>,
    graph: Vec<(String, Vec<String>)>,
}

impl View for BundleLoader {
    type V = LoaderModel;

    closed spec fn view(&self) -> LoaderModel {
        LoaderModel {
            entry: self.entry@,
            root: self.root@,
            stack: frames_model(self.stack@),
            visited: views(self.visited@),
            files: files_model(self.files@),
            graph: graph_model(self.graph@),
        }
    }
}

impl BundleLoader {
    #[verifier::type_invariant]
    spec fn inv(self) -> bool {
        loader_wf(self@)
    }

    /// Whether the loader waits for a file to be read (else for an import to
    /// be resolved).
    pub fn awaiting_read(&self) -> (r: bool)
        ensures
            r == (self@.stack.last().spec is None),
    {
        proof {
            use_type_invariant(self);
        }
        self.stack[self.stack.len() - 1].spec.is_none()
    }
}


// ---------------------------------------------------------------------------
// Diagnostics of the loader.

/// The import root could not be resolved.
pub open spec fn root_failure_model(import_root: Seq<char>, error: Seq<char>) -> DiagnosticModel {
    parse_error_model(
        "HNK1005"@,
        Some(import_root),
        "Failed to resolve the import root: "@ + error,
        None,
        None,
        Some("Pass an existing directory with `--import-root`."@),
    )
}

/// The entry file could not be resolved.
pub open spec fn entry_failure_model(entry: Seq<char>, error: Seq<char>) -> DiagnosticModel {
    parse_error_model(
        "HNK1005"@,
        Some(entry),
        "Failed to resolve the entry IDL file: "@ + error,
        None,
        None,
        Some("Check that the entry file exists under the chosen import root."@),
    )
}

/// The entry file lies outside the import root.
pub open spec fn outside_root_model(entry: Seq<char>, root: Seq<char>) -> DiagnosticModel {
    parse_error_model(
        "HNK1005"@,
        Some(entry),
        "The entry file must live under the import root."@,
        None,
        None,
        Some("Move the entry file under `"@ + root + "` or choose a broader `--import-root`."@),
    )
}

/// An import could not be resolved.
pub open spec fn import_failure_model(file: Seq<char>, import: Seq<char>, error: Seq<char>, root: Seq<char>) -> DiagnosticModel {
    parse_error_model(
        "HNK1005"@,
        Some(file),
        "Failed to load import `"@ + import + "`: "@ + error,
        None,
        None,
        Some("Imports must be file paths relative to `"@ + root + "`."@),
    )
}

/// An import resolves outside the import root.
pub open spec fn escape_model(file: Seq<char>, import: Seq<char>) -> DiagnosticModel {
    parse_error_model(
        "HNK1005"@,
        Some(file),
        "Import `"@ + import + "` escapes the configured import root."@,
        None,
        None,
        Some("Keep imported files inside the import root."@),
    )
}

/// The texts joined with ` -> `.
pub open spec fn join_with_arrows(s: Seq<Seq<char>>) -> Seq<char>
    decreases s.len(),
{
    if s.len() == 0 {
        Seq::empty()
    } else if s.len() == 1 {
        s[0]
    } else {
        join_with_arrows(s.drop_last()) + " -> "@ + s.last()
    }
}

/// The paths of the frames.
pub open spec fn frame_paths(st: Seq<FrameModel>) -> Seq<Seq<char>> {
    st.map_values(|f: FrameModel| f.path)
}

/// The files of a cycle, relative to the root: those being visited from
/// position `j` on, then the file met again.
pub open spec fn cycle_members(m: LoaderModel, j: int, c: Seq<char>) -> Seq<Seq<char>> {
    frame_paths(m.stack).skip(j).push(c).map_values(|p: Seq<char>| relative_path(p, m.root))
}

/// An import cycle through the file `c`.
pub open spec fn cycle_model(c: Seq<char>, text: Seq<char>) -> DiagnosticModel {
    parse_error_model(
        "HNK1006"@,
        Some(c),
        "Import cycle detected: "@ + text,
        None,
        None,
        Some("Break the cycle so imports form an acyclic file dependency graph."@),
    )
}

/// The first position from `j` on of a frame visiting `c`.
pub open spec fn frame_position_from(st: Seq<FrameModel>, c: Seq<char>, j: int) -> Option<int>
    decreases st.len() - j,
{
    if j < 0 || j >= st.len() {
        None
    } else if st[j].path == c {
        Some(j)
    } else {
        frame_position_from(st, c, j + 1)
    }
}

// ---------------------------------------------------------------------------
// Steps.

/// The loader that starts at the entry file.
pub open spec fn initial_model(entry: Seq<char>, root: Seq<char>) -> LoaderModel {
    LoaderModel {
        entry,
        root,
        stack: seq![FrameModel { path: entry, spec: None, next: 0, resolved: Seq::empty() }],
        visited: Seq::empty(),
        files: Seq::empty(),
        graph: Seq::empty(),
    }
}

/// The top file has been read as `spec`.
pub open spec fn with_top_spec(m: LoaderModel, spec: Spec) -> LoaderModel {
    LoaderModel { stack: m.stack.update(m.stack.len() - 1, FrameModel { spec: Some(spec), ..m.stack.last() }), ..m }
}

/// The top file records the import resolved to `c` and moves on.
pub open spec fn advance_top(m: LoaderModel, c: Seq<char>) -> LoaderModel {
    let f = m.stack.last();
    LoaderModel { stack: m.stack.update(m.stack.len() - 1, FrameModel { resolved: f.resolved.push(c), next: f.next + 1, ..f }), ..m }
}

/// The file `c` starts being visited.
pub open spec fn push_frame(m: LoaderModel, c: Seq<char>) -> LoaderModel {
    LoaderModel { stack: m.stack.push(FrameModel { path: c, spec: None, next: 0, resolved: Seq::empty() }), ..m }
}

/// A state that `finish` completes: every file below the top waits for an
/// import; the top one waits for its text, or has been read and has moved
/// up to past its last import.
spec fn pre_settle(m: LoaderModel) -> bool {
    &&& m.stack.len() > 0
    &&& forall|j: int| 0 <= j < m.stack.len() - 1 ==> frame_open(#[trigger] m.stack[j])
    &&& (m.stack.last().spec is None ==> m.stack.last().next == 0)
    &&& (m.stack.last().spec matches Some(s) ==> 0 <= m.stack.last().next <= s.imports@.len())
    &&& order_ok(m)
}

fn graph_add(graph: &mut Vec<(String, Vec<String>)>, key: String, value: Vec<String>)
    ensures
        graph_model(final(graph)@) == graph_insert(graph_model(old(graph)@), key@, views(value@)),
{
    let ghost g = graph_model(graph@);
    let ghost k = key@;
    let ghost v = views(value@);
    let mut i: usize = 0;
    assert(g.skip(0) =~= g);
    assert(g.take(0) + graph_insert(g.skip(0), k, v) =~= graph_insert(g, k, v));
    while i < graph.len() && !path_less(key.as_str(), graph[i].0.as_str())
        invariant
            g == graph_model(graph@),
            k == key@,
            v == views(value@),
            i <= graph@.len(),
            graph_insert(g, k, v) == g.take(i as int) + graph_insert(g.skip(i as int), k, v),
        decreases graph@.len() - i,
    {
        assert(g.skip(i as int)[0] == g[i as int]);
        assert(g.skip(i as int).drop_first() =~= g.skip(i + 1));
        assert(g.take(i + 1) =~= g.take(i as int).push(g[i as int]));
        assert(g.take(i as int) + (seq![g[i as int]] + graph_insert(g.skip(i + 1), k, v)) =~= g.take(i + 1) + graph_insert(
            g.skip(i + 1),
            k,
            v,
        ));
        i = i + 1;
    }
    if i < graph.len() {
        assert(g.skip(i as int)[0] == g[i as int]);
    }
    assert(graph_insert(g.skip(i as int), k, v) =~= seq![(k, v)] + g.skip(i as int));
    graph.insert(i, (key, value));
    assert(graph_model(graph@) =~= g.take(i as int) + (seq![(k, v)] + g.skip(i as int)));
}

fn finish(
    entry: String,
    root: String,
    stack: Vec<Frame>,
    visited: Vec<String>,
    files: Vec<BundleFileAst>,
    graph: Vec<(String, Vec<String>)>,
) -> (r: LoadStep)
    requires
        pre_settle(
            LoaderModel {
                entry: entry@,
                root: root@,
                stack: frames_model(stack@),
                visited: views(visited@),
                files: files_model(files@),
                graph: graph_model(graph@),
            },
        ),
    ensures
        step_from(
            r,
            LoaderModel {
                entry: entry@,
                root: root@,
                stack: frames_model(stack@),
                visited: views(visited@),
                files: files_model(files@),
                graph: graph_model(graph@),
            },
        ),
        r matches LoadStep::Done(b) ==> bundle_ordered(b),
{
    let ghost m0 = LoaderModel {
        entry: entry@,
        root: root@,
        stack: frames_model(stack@),
        visited: views(visited@),
        files: files_model(files@),
        graph: graph_model(graph@),
    };
    let mut stack = stack;
    let mut visited = visited;
    let mut files = files;
    let mut graph = graph;
    loop
        invariant
            ({
                let m = LoaderModel {
                    entry: entry@,
                    root: root@,
                    stack: frames_model(stack@),
                    visited: views(visited@),
                    files: files_model(files@),
                    graph: graph_model(graph@),
                };
                &&& settle(m) == settle(m0)
                &&& (m.stack.len() > 0 ==> pre_settle(m))
                &&& order_ok(m)
            }),
        ensures
            ({
                let m = LoaderModel {
                    entry: entry@,
                    root: root@,
                    stack: frames_model(stack@),
                    visited: views(visited@),
                    files: files_model(files@),
                    graph: graph_model(graph@),
                };
                &&& settle(m) == settle(m0)
                &&& (m.stack.len() > 0 ==> pre_settle(m))
                &&& order_ok(m)
                &&& !top_done(m)
            }),
        decreases stack@.len(),
    {
        let ghost m = LoaderModel {
            entry: entry@,
            root: root@,
            stack: frames_model(stack@),
            visited: views(visited@),
            files: files_model(files@),
            graph: graph_model(graph@),
        };
        if stack.len() == 0 {
            break;
        }
        let n = stack.len();
        assert(frames_model(stack@)[n - 1] == stack@[n - 1].model());
        let done = match &stack[n - 1].spec {
            Some(s) => stack[n - 1].next >= s.imports.len(),
            None => false,
        };
        if !done {
            break;
        }
        let f = stack.pop().unwrap();
        let s = f.spec.unwrap();
        assert(f.model() == m.stack.last());
        let imports = f.resolved.clone();
        files.push(BundleFileAst { path: f.path.clone(), package: s.package.clone(), imports, spec: s });
        visited.push(f.path.clone());
        graph_add(&mut graph, f.path.clone(), f.resolved);
        let ghost mid_stack = stack@;
        if stack.len() > 0 {
            let k = stack.len() - 1;
            assert(frames_model(mid_stack)[k as int] == m.stack[k as int]);
            assert(frame_open(m.stack[k as int]));
            let mut parent = stack.pop().unwrap();
            let bound = match &parent.spec {
                Some(sp) => sp.imports.len(),
                None => 0,
            };
            assert(parent.next < bound);
            parent.resolved.push(f.path);
            parent.next = parent.next + 1;
            stack.push(parent);
        }
        proof {
            let m2 = LoaderModel {
                entry: entry@,
                root: root@,
                stack: frames_model(stack@),
                visited: views(visited@),
                files: files_model(files@),
                graph: graph_model(graph@),
            };
            let c = complete_top(m);
            assert(m2.visited =~= c.visited);
            assert(m2.files =~= c.files);
            assert(m2.graph == c.graph);
            assert(views(f.resolved@) == m.stack.last().resolved);
            assert(m2.stack =~= c.stack) by {
                if m.stack.len() > 1 {
                    assert(views(stack@.last().resolved@) =~= views(mid_stack.last().resolved@).push(f.path@));
                }
            }
            assert(m2 == c);
            assert(settle(m) == settle(c));
            lemma_complete_order(m);
            if m2.stack.len() > 0 {
                assert forall|j: int| 0 <= j < m2.stack.len() - 1 implies frame_open(#[trigger] m2.stack[j]) by {
                    assert(m2.stack[j] == m.stack[j]);
                }
            }
        }
    }
    let ghost m = LoaderModel {
        entry: entry@,
        root: root@,
        stack: frames_model(stack@),
        visited: views(visited@),
        files: files_model(files@),
        graph: graph_model(graph@),
    };
    assert(settle(m) == m);
    if stack.len() == 0 {
        let b = BundleAst { entry, import_root: root, files, import_graph: graph };
        proof {
            lemma_bundle_ordered(b, m);
        }
        return LoadStep::Done(b);
    }
    let n = stack.len();
    assert(frames_model(stack@)[n - 1] == stack@[n - 1].model());
    let request = match &stack[n - 1].spec {
        None => LoadRequest::Read(stack[n - 1].path.clone()),
        Some(s) => LoadRequest::Resolve(stack[n - 1].path.clone(), s.imports[stack[n - 1].next].clone()),
    };
    let loader = BundleLoader { entry, root, stack, visited, files, graph };
    LoadStep::Next(loader, request)
}


fn holds_path(paths: &Vec<String>, c: &str) -> (r: bool)
    ensures
        r == views(paths@).contains(c@),
{
    let mut k: usize = 0;
    while k < paths.len()
        invariant
            k <= paths@.len(),
            forall|j: int| 0 <= j < k ==> views(paths@)[j] != c@,
        decreases paths@.len() - k,
    {
        if str_equal(paths[k].as_str(), c) {
            assert(views(paths@)[k as int] == c@);
            return true;
        }
        k = k + 1;
    }
    false
}

fn frame_position(stack: &Vec<Frame>, c: &str) -> (r: Option<usize>)
    ensures
        r matches Some(j) ==> frame_position_from(frames_model(stack@), c@, 0) == Some(j as int) && j < stack@.len(),
        r is None ==> frame_position_from(frames_model(stack@), c@, 0) is None,
{
    let ghost st = frames_model(stack@);
    let mut k: usize = 0;
    while k < stack.len()
        invariant
            st == frames_model(stack@),
            k <= stack@.len(),
            frame_position_from(st, c@, 0) == frame_position_from(st, c@, k as int),
        decreases stack@.len() - k,
    {
        assert(st[k as int] == stack@[k as int].model());
        if str_equal(stack[k].path.as_str(), c) {
            return Some(k);
        }
        k = k + 1;
    }
    None
}

fn cycle_text(stack: &Vec<Frame>, j: usize, c: &str, root: &str) -> (r: String)
    requires
        j < stack@.len(),
    ensures
        r@ == join_with_arrows(
            frame_paths(frames_model(stack@)).skip(j as int).push(c@).map_values(|p: Seq<char>| relative_path(p, root@)),
        ),
{
    let ghost members = frame_paths(frames_model(stack@)).skip(j as int).push(c@).map_values(
        |p: Seq<char>| relative_path(p, root@),
    );
    let n = stack.len();
    assert(members.len() == n - j + 1);
    let mut out = relative_to(stack[j].path.as_str(), root);
    assert(members[0] == relative_path(stack@[j as int].path@, root@)) by {
        assert(frames_model(stack@)[j as int] == stack@[j as int].model());
    }
    assert(members.take(1) =~= seq![members[0]]);
    let mut k: usize = j + 1;
    while k < n
        invariant
            n == stack@.len(),
            j < k <= n,
            members == frame_paths(frames_model(stack@)).skip(j as int).push(c@).map_values(
                |p: Seq<char>| relative_path(p, root@),
            ),
            members.len() == n - j + 1,
            out@ == join_with_arrows(members.take(k - j)),
        decreases n - k,
    {
        let rel = relative_to(stack[k].path.as_str(), root);
        assert(members[k - j] == rel@) by {
            assert(frames_model(stack@)[k as int] == stack@[k as int].model());
        }
        assert(members.take(k - j + 1).drop_last() =~= members.take(k - j));
        out.append(" -> ");
        out.append(rel.as_str());
        proof {
            reveal_strlit(" -> ");
        }
        k = k + 1;
    }
    let last = relative_to(c, root);
    assert(members[n - j] == last@);
    assert(members.take(n - j + 1) =~= members);
    assert(members.take(n - j + 1).drop_last() =~= members.take(n - j));
    out.append(" -> ");
    out.append(last.as_str());
    out
}

impl BundleLoader {
    /// Starts loading at the entry file, given what resolving the import
    /// root and the entry file to canonical paths gave.
    pub fn start(
        entry: &str,
        import_root: &str,
        canonical_root: Result<String, String>,
        canonical_entry: Result<String, String>,
    ) -> (r: LoadStep)
        ensures
            match (canonical_root, canonical_entry) {
                (Err(e), _) => r matches LoadStep::Failed(ds) && ds@ == seq![root_failure_model(import_root@, e@)],
                (Ok(_), Err(e)) => r matches LoadStep::Failed(ds) && ds@ == seq![entry_failure_model(entry@, e@)],
                (Ok(root), Ok(e)) => if path_under(e@, root@) {
                    r matches LoadStep::Next(l, LoadRequest::Read(p)) && p@ == e@ && l@ == initial_model(e@, root@)
                } else {
                    r matches LoadStep::Failed(ds) && ds@ == seq![outside_root_model(entry@, root@)]
                },
            },
    {
        let root = match canonical_root {
            Ok(root) => root,
            Err(e) => {
                let mut message = String::new();
                message.append("Failed to resolve the import root: ");
                message.append(e.as_str());
                let suggestion = "Pass an existing directory with `--import-root`.".to_owned();
                return LoadStep::Failed(
                    DiagnosticSet::singleton(Diagnostic::parse_error("HNK1005", Some(import_root), message, None, None, Some(suggestion))),
                );
            },
        };
        let canonical = match canonical_entry {
            Ok(c) => c,
            Err(e) => {
                let mut message = String::new();
                message.append("Failed to resolve the entry IDL file: ");
                message.append(e.as_str());
                let suggestion = "Check that the entry file exists under the chosen import root.".to_owned();
                return LoadStep::Failed(
                    DiagnosticSet::singleton(Diagnostic::parse_error("HNK1005", Some(entry), message, None, None, Some(suggestion))),
                );
            },
        };
        if !is_under(canonical.as_str(), root.as_str()) {
            let mut suggestion = String::new();
            suggestion.append("Move the entry file under `");
            suggestion.append(root.as_str());
            suggestion.append("` or choose a broader `--import-root`.");
            let message = "The entry file must live under the import root.".to_owned();
            return LoadStep::Failed(
                DiagnosticSet::singleton(Diagnostic::parse_error("HNK1005", Some(entry), message, None, None, Some(suggestion))),
            );
        }
        let frame = Frame { path: canonical.clone(), spec: None, next: 0, resolved: Vec::new() };
        assert(views(frame.resolved@) =~= Seq::<Seq<char>>::empty());
        let mut stack: Vec<Frame> = Vec::new();
        stack.push(frame);
        let visited: Vec<String> = Vec::new();
        let files: Vec<BundleFileAst> = Vec::new();
        let graph: Vec<(String, Vec<String>)> = Vec::new();
        proof {
            assert(views(visited@) =~= Seq::<Seq<char>>::empty());
            assert(files_model(files@) =~= Seq::<FileModel>::empty());
            assert(files_model(files@).map_values(|f: FileModel| f.path) =~= Seq::<Seq<char>>::empty());
            let st = frames_model(stack@);
            assert(st.len() == 1);
            assert(st[0].resolved =~= Seq::<Seq<char>>::empty());
            assert forall|j: int, r: Seq<char>| #![trigger st[j].resolved.contains(r)]
                0 <= j < st.len() && st[j].resolved.contains(r) implies views(visited@).contains(r) by {
                assert(j == 0);
            }
        }
        let loader = BundleLoader { entry: canonical.clone(), root, stack, visited, files, graph };
        proof {
            assert(loader@.stack =~= initial_model(canonical@, loader.root@).stack);
            assert(loader@.visited =~= Seq::<Seq<char>>::empty());
            assert(loader@.files =~= Seq::<FileModel>::empty());
            assert(loader@.graph =~= Seq::<(Seq<char>, Seq<Seq<char>>)>::empty());
        }
        LoadStep::Next(loader, LoadRequest::Read(canonical))
    }

    /// Goes on once the file that the loader asked for has been read: a
    /// failure to read or parse it ends loading.
    pub fn loaded(self, result: Result<Spec, DiagnosticSet>) -> (r: LoadStep)
        requires
            self@.stack.last().spec is None,
        ensures
            match result {
                Err(ds) => r matches LoadStep::Failed(d) && d@ == ds@,
                Ok(spec) => step_from(r, with_top_spec(self@, spec)),
            },
            r matches LoadStep::Done(b) ==> bundle_ordered(b),
    {
        proof {
            use_type_invariant(&self);
        }
        let ghost m = self@;
        let spec = match result {
            Ok(spec) => spec,
            Err(ds) => return LoadStep::Failed(ds),
        };
        let BundleLoader { entry, root, stack, visited, files, graph } = self;
        let mut stack = stack;
        let ghost before = stack@;
        let mut top = stack.pop().unwrap();
        top.spec = Some(spec);
        stack.push(top);
        proof {
            let m2 = LoaderModel {
                entry: entry@,
                root: root@,
                stack: frames_model(stack@),
                visited: views(visited@),
                files: files_model(files@),
                graph: graph_model(graph@),
            };
            assert(m2.stack =~= with_top_spec(m, spec).stack);
            assert(m2 == with_top_spec(m, spec));
            assert(m2.stack[0].path == m.stack[0].path);
            assert forall|j: int| 0 <= j < m2.stack.len() implies path_under((#[trigger] m2.stack[j]).path, m2.root) by {
                assert(m2.stack[j].path == m.stack[j].path);
            }
            assert(load_facts(m2));
            assert forall|j: int| 0 <= j < m2.stack.len() - 1 implies frame_open(#[trigger] m2.stack[j]) by {
                assert(m2.stack[j] == m.stack[j]);
            }
        }
        finish(entry, root, stack, visited, files, graph)
    }

    /// Goes on once the import that the loader asked about has been
    /// resolved: a failure, a path outside the import root, or a file that
    /// is being visited (a cycle) ends loading; a file already loaded is
    /// only recorded; any other file is visited next.
    pub fn resolved(self, result: Result<String, String>) -> (r: LoadStep)
        requires
            self@.stack.last().spec is Some,
        ensures
            ({
                let m = self@;
                let f = m.stack.last();
                let import = f.spec->Some_0.imports@[f.next]@;
                match result {
                    Err(e) => r matches LoadStep::Failed(ds) && ds@ == seq![import_failure_model(f.path, import, e@, m.root)],
                    Ok(c) => if !path_under(c@, m.root) {
                        r matches LoadStep::Failed(ds) && ds@ == seq![escape_model(f.path, import)]
                    } else if m.visited.contains(c@) {
                        step_from(r, advance_top(m, c@))
                    } else {
                        match frame_position_from(m.stack, c@, 0) {
                            Some(j) => r matches LoadStep::Failed(ds) && ds@ == seq![
                                cycle_model(c@, join_with_arrows(cycle_members(m, j, c@))),
                            ],
                            None => r matches LoadStep::Next(l, LoadRequest::Read(p)) && p@ == c@ && l@ == push_frame(m, c@),
                        }
                    },
                }
            }),
            r matches LoadStep::Done(b) ==> bundle_ordered(b),
    {
        proof {
            use_type_invariant(&self);
        }
        let ghost m = self@;
        let n = self.stack.len();
        assert(frames_model(self.stack@)[n - 1] == self.stack@[n - 1].model());
        let import = match &self.stack[n - 1].spec {
            Some(s) => s.imports[self.stack[n - 1].next].clone(),
            None => String::new(),
        };
        let c = match result {
            Err(e) => {
                let mut message = String::new();
                message.append("Failed to load import `");
                message.append(import.as_str());
                message.append("`: ");
                message.append(e.as_str());
                let mut suggestion = String::new();
                suggestion.append("Imports must be file paths relative to `");
                suggestion.append(self.root.as_str());
                suggestion.append("`.");
                let file = self.stack[n - 1].path.as_str();
                return LoadStep::Failed(
                    DiagnosticSet::singleton(Diagnostic::parse_error("HNK1005", Some(file), message, None, None, Some(suggestion))),
                );
            },
            Ok(c) => c,
        };
        if !is_under(c.as_str(), self.root.as_str()) {
            let mut message = String::new();
            message.append("Import `");
            message.append(import.as_str());
            message.append("` escapes the configured import root.");
            let suggestion = "Keep imported files inside the import root.".to_owned();
            let file = self.stack[n - 1].path.as_str();
            return LoadStep::Failed(
                DiagnosticSet::singleton(Diagnostic::parse_error("HNK1005", Some(file), message, None, None, Some(suggestion))),
            );
        }
        if holds_path(&self.visited, c.as_str()) {
            let BundleLoader { entry, root, stack, visited, files, graph } = self;
            let mut stack = stack;
            let ghost before = stack@;
            let mut top = stack.pop().unwrap();
            let ghost old_resolved = top.resolved@;
            assert(frames_model(before)[n - 1] == top.model());
            let bound = match &top.spec {
                Some(sp) => sp.imports.len(),
                None => 0,
            };
            assert(top.next < bound);
            top.resolved.push(c);
            assert(views(top.resolved@) =~= views(old_resolved).push(c@));
            top.next = top.next + 1;
            stack.push(top);
            proof {
                let m2 = LoaderModel {
                    entry: entry@,
                    root: root@,
                    stack: frames_model(stack@),
                    visited: views(visited@),
                    files: files_model(files@),
                    graph: graph_model(graph@),
                };
                assert(m2.stack =~= advance_top(m, c@).stack);
                assert(m2 == advance_top(m, c@));
                lemma_advance_order(m, c@);
                assert forall|j: int| 0 <= j < m2.stack.len() - 1 implies frame_open(#[trigger] m2.stack[j]) by {
                    assert(m2.stack[j] == m.stack[j]);
                }
            }
            return finish(entry, root, stack, visited, files, graph);
        }
        match frame_position(&self.stack, c.as_str()) {
            Some(j) => {
                let text = cycle_text(&self.stack, j, c.as_str(), self.root.as_str());
                let mut message = String::new();
                message.append("Import cycle detected: ");
                message.append(text.as_str());
                let suggestion = "Break the cycle so imports form an acyclic file dependency graph.".to_owned();
                LoadStep::Failed(
                    DiagnosticSet::singleton(Diagnostic::parse_error("HNK1006", Some(c.as_str()), message, None, None, Some(suggestion))),
                )
            },
            None => {
                let BundleLoader { entry, root, stack, visited, files, graph } = self;
                let mut stack = stack;
                let frame = Frame { path: c.clone(), spec: None, next: 0, resolved: Vec::new() };
                assert(views(frame.resolved@) =~= Seq::<Seq<char>>::empty());
                stack.push(frame);
                proof {
                    let st = frames_model(stack@);
                    assert(st =~= push_frame(m, c@).stack);
                    lemma_position_none(m.stack, c@, 0);
                    lemma_push_order(m, c@);
                    assert forall|k: int| 0 <= k < st.len() - 1 implies frame_open(#[trigger] st[k]) by {
                        assert(st[k] == m.stack[k]);
                    }
                }
                let loader = BundleLoader { entry, root, stack, visited, files, graph };
                assert(loader@.stack =~= push_frame(m, c@).stack);
                LoadStep::Next(loader, LoadRequest::Read(c))
            },
        }
    }
}

} // verus!
