//! Tree traversal: enumerating a directory snapshot depth-first, root
//! first, applying the exclusion set to files.
//!
//! Listing directories is the transport's work; the traversal logic runs
//! on a snapshot of the tree.  Entries named `.` and `..` are never
//! yielded.  A file whose path is in the exclusion set is dropped; a
//! directory is always yielded (so empty or fully-ignored directories are
//! still created on the destination) and always descended, so unignored
//! files beneath an ignored directory are still found.

use vstd::prelude::*;

use crate::exclusion::ExclusionSet;
use crate::path::AbsPath;
use crate::path::DOT;
use crate::path::valid_comp;

verus! {

/// What one traversal entry is: a file to copy or a directory to create.
#[derive(Clone, Copy, PartialEq, Eq, Structural, Debug)]
pub enum EntryKind {
    File,
    Dir,
}

/// A snapshot of one node of the tree being read: a file with its byte
/// length and mode, or a directory with the nodes inside it.
pub enum FsTree {
    File { name: Vec<u8>, size: u64, mode: u32 },
    Dir { name: Vec<u8>, children: Vec<FsTree> },
}

/// One node seen during traversal: its absolute path, kind, byte length
/// and mode (directories carry zero for both).
pub struct DirEntry {
    pub path: AbsPath,
    pub kind: EntryKind,
    pub size: u64,
    pub mode: u32,
}

/// The mathematical value of a traversal entry.
pub ghost struct EntryModel {
    pub path: Seq<Seq<u8>>,
    pub kind: EntryKind,
    pub size: u64,
    pub mode: u32,
}

impl View for DirEntry {
    type V = EntryModel;

    open spec fn view(&self) -> EntryModel {
        EntryModel { path: self.path@, kind: self.kind, size: self.size, mode: self.mode }
    }
}

/// The entries of a list, as their models.
pub open spec fn entries_view(v: Vec<DirEntry>) -> Seq<EntryModel> {
    v@.map_values(|e: DirEntry| e@)
}

/// The name of a node.
pub open spec fn node_name(n: FsTree) -> Seq<u8> {
    match n {
        FsTree::File { name, .. } => name@,
        FsTree::Dir { name, .. } => name@,
    }
}

/// The entries one node below the directory `base` contributes: nothing
/// for `.` and `..`; a file entry unless the file's path is excluded; for
/// a directory, its own entry followed by the entries below it.
pub open spec fn node_walk(base: Seq<Seq<u8>>, n: FsTree, ex: Set<Seq<Seq<u8>>>) -> Seq<EntryModel>
    decreases n,
{
    if node_name(n) == seq![DOT] || node_name(n) == seq![DOT, DOT] {
        Seq::empty()
    } else {
        match n {
            FsTree::File { name, size, mode } => {
                if ex.contains(base.push(name@)) {
                    Seq::empty()
                } else {
                    seq![
                        EntryModel {
                            path: base.push(name@),
                            kind: EntryKind::File,
                            size: size,
                            mode: mode,
                        },
                    ]
                }
            },
            FsTree::Dir { name, children } => {
                seq![
                    EntryModel { path: base.push(name@), kind: EntryKind::Dir, size: 0, mode: 0 },
                ] + nodes_walk(base.push(name@), children@, ex)
            },
        }
    }
}

/// The entries a list of sibling nodes below `base` contributes, in
/// order.
pub open spec fn nodes_walk(
    base: Seq<Seq<u8>>,
    nodes: Seq<FsTree>,
    ex: Set<Seq<Seq<u8>>>,
) -> Seq<EntryModel>
    decreases nodes,
{
    if nodes.len() == 0 {
        Seq::empty()
    } else {
        node_walk(base, nodes[0], ex) + nodes_walk(base, nodes.drop_first(), ex)
    }
}

/// The whole traversal of a directory snapshot rooted at `root`: the root
/// directory itself first, then everything below it, depth first.
pub open spec fn walk_model(root: Seq<Seq<u8>>, children: Seq<FsTree>, ex: Set<Seq<Seq<u8>>>) -> Seq<
    EntryModel,
> {
    seq![EntryModel { path: root, kind: EntryKind::Dir, size: 0, mode: 0 }] + nodes_walk(
        root,
        children,
        ex,
    )
}

/// The members of an exclusion set, as a mathematical set of paths.
pub open spec fn excl_model(ex: ExclusionSet) -> Set<Seq<Seq<u8>>> {
    Set::new(|p: Seq<Seq<u8>>| ex.spec_contains(p))
}

/// How many nodes a node holds, itself included.
pub open spec fn node_size(n: FsTree) -> nat
    decreases n,
{
    match n {
        FsTree::File { .. } => 1,
        FsTree::Dir { children, .. } => 1 + nodes_size(children@),
    }
}

/// How many nodes a list of sibling nodes holds.
pub open spec fn nodes_size(nodes: Seq<FsTree>) -> nat
    decreases nodes,
{
    if nodes.len() == 0 {
        0
    } else {
        node_size(nodes[0]) + nodes_size(nodes.drop_first())
    }
}

/// Whether a traversal entry survives an exclusion set: directories
/// always do, a file only while its path is not a member.
pub open spec fn entry_kept(e: EntryModel, ex: Set<Seq<Seq<u8>>>) -> bool {
    e.kind is Dir || !ex.contains(e.path)
}

/// Law (traversal modulo exclusion, one node): walking a node with
/// exclusion set `ex` yields exactly the entries of the unfiltered walk
/// minus the files whose path is in `ex`.
pub proof fn lemma_node_walk_exclusion(base: Seq<Seq<u8>>, n: FsTree, ex: Set<Seq<Seq<u8>>>)
    ensures
        node_walk(base, n, ex) == node_walk(base, n, Set::empty()).filter(
            |e: EntryModel| entry_kept(e, ex),
        ),
    decreases n,
{
    reveal(Seq::filter);
    let pred = |e: EntryModel| entry_kept(e, ex);
    let e0 = Seq::<EntryModel>::empty();
    assert(e0.filter(pred) =~= e0);
    if node_name(n) == seq![DOT] || node_name(n) == seq![DOT, DOT] {
    } else {
        match n {
            FsTree::File { name, size, mode } => {
                let m = EntryModel {
                    path: base.push(name@),
                    kind: EntryKind::File,
                    size: size,
                    mode: mode,
                };
                assert(!Set::<Seq<Seq<u8>>>::empty().contains(base.push(name@)));
                assert(node_walk(base, n, Set::empty()) == seq![m]);
                assert(seq![m].drop_last() =~= e0);
                assert(seq![m].filter(pred) == if pred(m) {
                    e0.filter(pred).push(m)
                } else {
                    e0.filter(pred)
                });
                if ex.contains(base.push(name@)) {
                    assert(!pred(m));
                    assert(node_walk(base, n, ex) =~= seq![m].filter(pred));
                } else {
                    assert(pred(m));
                    assert(e0.filter(pred).push(m) =~= seq![m]);
                }
            },
            FsTree::Dir { name, children } => {
                let m = EntryModel {
                    path: base.push(name@),
                    kind: EntryKind::Dir,
                    size: 0,
                    mode: 0,
                };
                lemma_nodes_walk_exclusion(base.push(name@), children@, ex);
                Seq::filter_distributes_over_add(
                    seq![m],
                    nodes_walk(base.push(name@), children@, Set::empty()),
                    pred,
                );
                assert(seq![m].drop_last() =~= e0);
                assert(pred(m));
                assert(seq![m].filter(pred) =~= seq![m]);
            },
        }
    }
}

/// Law (traversal modulo exclusion, sibling list): as
/// [`lemma_node_walk_exclusion`], for a list of sibling nodes.
pub proof fn lemma_nodes_walk_exclusion(base: Seq<Seq<u8>>, nodes: Seq<FsTree>, ex: Set<Seq<Seq<u8>>>)
    ensures
        nodes_walk(base, nodes, ex) == nodes_walk(base, nodes, Set::empty()).filter(
            |e: EntryModel| entry_kept(e, ex),
        ),
    decreases nodes,
{
    reveal(Seq::filter);
    let pred = |e: EntryModel| entry_kept(e, ex);
    if nodes.len() == 0 {
        assert(Seq::<EntryModel>::empty().filter(pred) =~= Seq::<EntryModel>::empty());
    } else {
        lemma_node_walk_exclusion(base, nodes[0], ex);
        lemma_nodes_walk_exclusion(base, nodes.drop_first(), ex);
        Seq::filter_distributes_over_add(
            node_walk(base, nodes[0], Set::empty()),
            nodes_walk(base, nodes.drop_first(), Set::empty()),
            pred,
        );
    }
}

/// Law (traversal modulo exclusion): walking a tree with exclusion set
/// `ex` yields exactly the walk with the empty set minus the files whose
/// path is a member of `ex`; directories are never excluded.
pub proof fn lemma_walk_exclusion(root: Seq<Seq<u8>>, children: Seq<FsTree>, ex: Set<Seq<Seq<u8>>>)
    ensures
        walk_model(root, children, ex) == walk_model(root, children, Set::empty()).filter(
            |e: EntryModel| entry_kept(e, ex),
        ),
{
    reveal(Seq::filter);
    let pred = |e: EntryModel| entry_kept(e, ex);
    let m = EntryModel { path: root, kind: EntryKind::Dir, size: 0, mode: 0 };
    lemma_nodes_walk_exclusion(root, children, ex);
    Seq::filter_distributes_over_add(seq![m], nodes_walk(root, children, Set::empty()), pred);
    assert(seq![m].drop_last() =~= Seq::<EntryModel>::empty());
    assert(Seq::<EntryModel>::empty().filter(pred) =~= Seq::<EntryModel>::empty());
    assert(pred(m));
    assert(seq![m].filter(pred) =~= seq![m]);
}

/// Every entry of `es` below the directory `base` either lies directly
/// in `base`, or its own directory was yielded, as a directory entry,
/// strictly earlier.
pub open spec fn dirs_come_first(base: Seq<Seq<u8>>, es: Seq<EntryModel>) -> bool {
    forall|k: int|
        0 <= k < es.len() ==> ((#[trigger] es[k]).path.drop_last() == base || exists|j: int|
            0 <= j < k && (#[trigger] es[j]).kind is Dir && es[j].path == es[k].path.drop_last())
}

/// Putting a directory entry in front keeps directories first: entries
/// that lay directly in that directory now find it at the front.
proof fn lemma_dirs_first_prepend(base: Seq<Seq<u8>>, m: EntryModel, rest: Seq<EntryModel>)
    requires
        m.kind is Dir,
        m.path.drop_last() == base,
        dirs_come_first(m.path, rest),
    ensures
        dirs_come_first(base, seq![m] + rest),
{
    let es = seq![m] + rest;
    assert forall|k: int| 0 <= k < es.len() implies ((#[trigger] es[k]).path.drop_last() == base
        || exists|j: int|
        0 <= j < k && (#[trigger] es[j]).kind is Dir && es[j].path
            == es[k].path.drop_last()) by {
        if k > 0 {
            assert(es[k] == rest[k - 1]);
            if rest[k - 1].path.drop_last() == m.path {
                assert(es[0].kind is Dir && es[0].path == es[k].path.drop_last());
            } else {
                let j = choose|j: int|
                    0 <= j < k - 1 && (#[trigger] rest[j]).kind is Dir && rest[j].path == rest[k
                        - 1].path.drop_last();
                assert(es[j + 1] == rest[j]);
            }
        }
    }
}

/// Directories stay first under concatenation of two runs below the same
/// directory.
proof fn lemma_dirs_first_concat(base: Seq<Seq<u8>>, hs: Seq<EntryModel>, rs: Seq<EntryModel>)
    requires
        dirs_come_first(base, hs),
        dirs_come_first(base, rs),
    ensures
        dirs_come_first(base, hs + rs),
{
    let es = hs + rs;
    assert forall|k: int| 0 <= k < es.len() implies ((#[trigger] es[k]).path.drop_last() == base
        || exists|j: int|
        0 <= j < k && (#[trigger] es[j]).kind is Dir && es[j].path
            == es[k].path.drop_last()) by {
        if k < hs.len() {
            assert(es[k] == hs[k]);
            if hs[k].path.drop_last() != base {
                let j = choose|j: int|
                    0 <= j < k && (#[trigger] hs[j]).kind is Dir && hs[j].path
                        == hs[k].path.drop_last();
                assert(es[j] == hs[j]);
            }
        } else {
            let k2 = k - hs.len();
            assert(es[k] == rs[k2]);
            if rs[k2].path.drop_last() != base {
                let j = choose|j: int|
                    0 <= j < k2 && (#[trigger] rs[j]).kind is Dir && rs[j].path
                        == rs[k2].path.drop_last();
                assert(es[hs.len() + j] == rs[j]);
            }
        }
    }
}

/// Law (directories before their contents, one node): in the entries one
/// node contributes, every entry's directory is `base` itself or was
/// yielded earlier.  This holds for any node and any exclusion set.
pub proof fn lemma_node_walk_dirs_first(base: Seq<Seq<u8>>, n: FsTree, ex: Set<Seq<Seq<u8>>>)
    ensures
        dirs_come_first(base, node_walk(base, n, ex)),
    decreases n,
{
    let es = node_walk(base, n, ex);
    if node_name(n) == seq![DOT] || node_name(n) == seq![DOT, DOT] {
    } else {
        match n {
            FsTree::File { name, .. } => {
                if !ex.contains(base.push(name@)) {
                    assert(es[0].path.drop_last() =~= base);
                }
            },
            FsTree::Dir { name, children } => {
                let b2 = base.push(name@);
                let m = EntryModel { path: b2, kind: EntryKind::Dir, size: 0, mode: 0 };
                lemma_nodes_walk_dirs_first(b2, children@, ex);
                assert(m.path.drop_last() =~= base);
                lemma_dirs_first_prepend(base, m, nodes_walk(b2, children@, ex));
            },
        }
    }
}

/// Law (directories before their contents, sibling list): as
/// [`lemma_node_walk_dirs_first`], for a list of sibling nodes.
pub proof fn lemma_nodes_walk_dirs_first(base: Seq<Seq<u8>>, nodes: Seq<FsTree>, ex: Set<Seq<Seq<u8>>>)
    ensures
        dirs_come_first(base, nodes_walk(base, nodes, ex)),
    decreases nodes,
{
    if nodes.len() > 0 {
        lemma_node_walk_dirs_first(base, nodes[0], ex);
        lemma_nodes_walk_dirs_first(base, nodes.drop_first(), ex);
        lemma_dirs_first_concat(
            base,
            node_walk(base, nodes[0], ex),
            nodes_walk(base, nodes.drop_first(), ex),
        );
    }
}

/// Law (directories before their contents): in a traversal's output,
/// every entry below the root lies directly in the root or in a
/// directory that was yielded strictly earlier — so creating directories
/// in entry order puts every directory in place before anything inside
/// it is written.  This holds for any tree and any exclusion set.
pub proof fn lemma_walk_dirs_first(root: Seq<Seq<u8>>, children: Seq<FsTree>, ex: Set<Seq<Seq<u8>>>)
    ensures
        ({
            let es = walk_model(root, children, ex);
            forall|k: int|
                1 <= k < es.len() ==> ((#[trigger] es[k]).path.drop_last() == root || exists|j: int|
                    0 <= j < k && (#[trigger] es[j]).kind is Dir && es[j].path
                        == es[k].path.drop_last())
        }),
{
    lemma_nodes_walk_dirs_first(root, children, ex);
    let m = EntryModel { path: root, kind: EntryKind::Dir, size: 0, mode: 0 };
    let cs = nodes_walk(root, children, ex);
    let es = walk_model(root, children, ex);
    assert forall|k: int| 1 <= k < es.len() implies ((#[trigger] es[k]).path.drop_last() == root
        || exists|j: int|
        0 <= j < k && (#[trigger] es[j]).kind is Dir && es[j].path
            == es[k].path.drop_last()) by {
        assert(es[k] == cs[k - 1]);
        if cs[k - 1].path.drop_last() != root {
            let j = choose|j: int|
                0 <= j < k - 1 && (#[trigger] cs[j]).kind is Dir && cs[j].path == cs[k
                    - 1].path.drop_last();
            assert(es[j + 1] == cs[j]);
        }
    }
}

/// No two sibling nodes carry the same name.
pub open spec fn distinct_names(nodes: Seq<FsTree>) -> bool {
    forall|i: int, j: int|
        0 <= i < j < nodes.len() ==> node_name(#[trigger] nodes[i]) != node_name(
            #[trigger] nodes[j],
        )
}

/// A well-formed snapshot node: its name is a valid component (so neither
/// `.` nor `..`), and below a directory the names are distinct — what a
/// real directory guarantees.
pub open spec fn wf_node(n: FsTree) -> bool
    decreases n,
{
    &&& valid_comp(node_name(n))
    &&& match n {
        FsTree::File { .. } => true,
        FsTree::Dir { children, .. } => distinct_names(children@) && wf_nodes(children@),
    }
}

/// Every node of the list is well formed.
pub open spec fn wf_nodes(nodes: Seq<FsTree>) -> bool
    decreases nodes,
{
    if nodes.len() == 0 {
        true
    } else {
        wf_node(nodes[0]) && wf_nodes(nodes.drop_first())
    }
}

/// The set of paths a node occupies below the directory `base`: its own,
/// and for a directory everything below it.
pub open spec fn node_paths(base: Seq<Seq<u8>>, n: FsTree) -> Set<Seq<Seq<u8>>>
    decreases n,
{
    match n {
        FsTree::File { name, .. } => set![base.push(name@)],
        FsTree::Dir { name, children } => set![base.push(name@)] + nodes_paths(
            base.push(name@),
            children@,
        ),
    }
}

/// The set of paths a list of sibling nodes occupies below `base`.
pub open spec fn nodes_paths(base: Seq<Seq<u8>>, nodes: Seq<FsTree>) -> Set<Seq<Seq<u8>>>
    decreases nodes,
{
    if nodes.len() == 0 {
        Set::empty()
    } else {
        node_paths(base, nodes[0]) + nodes_paths(base, nodes.drop_first())
    }
}

/// Law (traversal completeness, one node): walking a well-formed node
/// with the empty exclusion set yields exactly the node's paths, each
/// once; every entry path extends `base` with the node's name.
pub proof fn lemma_node_walk_complete(base: Seq<Seq<u8>>, n: FsTree)
    requires
        wf_node(n),
    ensures
        ({
            let ps = node_walk(base, n, Set::empty()).map_values(|e: EntryModel| e.path);
            &&& forall|p: Seq<Seq<u8>>| ps.contains(p) <==> node_paths(base, n).contains(p)
            &&& ps.no_duplicates()
            &&& forall|k: int|
                0 <= k < ps.len() ==> (#[trigger] ps[k]).len() > base.len() && ps[k].subrange(
                    0,
                    base.len() as int + 1,
                ) == base.push(node_name(n))
        }),
    decreases n,
{
    let em = Set::<Seq<Seq<u8>>>::empty();
    let f = |e: EntryModel| e.path;
    let ps = node_walk(base, n, em).map_values(f);
    assert(node_name(n) != seq![DOT] && node_name(n) != seq![DOT, DOT]);
    match n {
        FsTree::File { name, size, mode } => {
            let m = EntryModel {
                path: base.push(name@),
                kind: EntryKind::File,
                size: size,
                mode: mode,
            };
            assert(!em.contains(base.push(name@)));
            assert(node_walk(base, n, em) == seq![m]);
            assert(ps =~= seq![base.push(name@)]);
            assert(ps[0] == base.push(name@));
            assert forall|p: Seq<Seq<u8>>| ps.contains(p) <==> node_paths(base, n).contains(
                p,
            ) by {
                if ps.contains(p) {
                    let k = choose|k: int| 0 <= k < ps.len() && ps[k] == p;
                    assert(p == base.push(name@));
                }
                if node_paths(base, n).contains(p) {
                    assert(p == base.push(name@));
                    assert(ps[0] == p);
                }
            }
            assert(base.push(name@).subrange(0, base.len() as int + 1) =~= base.push(name@));
        },
        FsTree::Dir { name, children } => {
            let b2 = base.push(name@);
            let m = EntryModel { path: b2, kind: EntryKind::Dir, size: 0, mode: 0 };
            lemma_nodes_walk_complete(b2, children@);
            let cw = nodes_walk(b2, children@, em);
            let cps = cw.map_values(f);
            assert(node_walk(base, n, em) == seq![m] + cw);
            assert(ps =~= seq![b2] + cps);
            assert(ps[0] == b2);
            assert forall|k: int| 0 <= k < ps.len() implies (#[trigger] ps[k]).len() > base.len()
                && ps[k].subrange(0, base.len() as int + 1) == b2 by {
                if k == 0 {
                    assert(b2.subrange(0, base.len() as int + 1) =~= b2);
                } else {
                    assert(ps[k] == cps[k - 1]);
                    assert(cps[k - 1].len() > b2.len());
                    assert(cps[k - 1].subrange(0, b2.len() as int) == b2);
                    assert(ps[k].subrange(0, base.len() as int + 1) == ps[k].subrange(0, b2.len() as int));
                }
            }
            assert(ps.no_duplicates()) by {
                assert forall|i: int, j: int| 0 <= i < j < ps.len() implies ps[i] != ps[j] by {
                    if i == 0 {
                        assert(ps[j] == cps[j - 1]);
                        assert(cps[j - 1].len() > b2.len());
                        assert(ps[i].len() == b2.len());
                    } else {
                        assert(ps[i] == cps[i - 1] && ps[j] == cps[j - 1]);
                        assert(cps[i - 1] != cps[j - 1]);
                    }
                }
            }
            assert forall|p: Seq<Seq<u8>>| ps.contains(p) <==> node_paths(base, n).contains(
                p,
            ) by {
                if ps.contains(p) {
                    let k = choose|k: int| 0 <= k < ps.len() && ps[k] == p;
                    if k == 0 {
                        assert(node_paths(base, n).contains(b2));
                    } else {
                        assert(cps[k - 1] == p);
                        assert(cps.contains(p));
                        assert(nodes_paths(b2, children@).contains(p));
                    }
                }
                if node_paths(base, n).contains(p) {
                    if p == b2 {
                        assert(ps[0] == p);
                    } else {
                        assert(nodes_paths(b2, children@).contains(p));
                        assert(cps.contains(p));
                        let k = choose|k: int| 0 <= k < cps.len() && cps[k] == p;
                        assert(ps[k + 1] == p);
                    }
                }
            }
        },
    }
}

/// Law (traversal completeness, sibling list): walking well-formed
/// siblings with the empty exclusion set yields exactly their paths, each
/// once; every entry path extends `base` with one of the sibling names.
pub proof fn lemma_nodes_walk_complete(base: Seq<Seq<u8>>, nodes: Seq<FsTree>)
    requires
        wf_nodes(nodes),
        distinct_names(nodes),
    ensures
        ({
            let ps = nodes_walk(base, nodes, Set::empty()).map_values(|e: EntryModel| e.path);
            &&& forall|p: Seq<Seq<u8>>| ps.contains(p) <==> nodes_paths(base, nodes).contains(p)
            &&& ps.no_duplicates()
            &&& forall|k: int|
                0 <= k < ps.len() ==> (#[trigger] ps[k]).len() > base.len() && ps[k].subrange(
                    0,
                    base.len() as int,
                ) == base && (exists|i: int|
                    0 <= i < nodes.len() && ps[k][base.len() as int] == node_name(
                        #[trigger] nodes[i],
                    ))
        }),
    decreases nodes,
{
    let em = Set::<Seq<Seq<u8>>>::empty();
    let f = |e: EntryModel| e.path;
    let ps = nodes_walk(base, nodes, em).map_values(f);
    if nodes.len() == 0 {
        assert forall|p: Seq<Seq<u8>>| ps.contains(p) <==> nodes_paths(base, nodes).contains(
            p,
        ) by {
            if ps.contains(p) {
                let k = choose|k: int| 0 <= k < ps.len() && ps[k] == p;
            }
        }
    } else {
        let n0 = nodes[0];
        let rest = nodes.drop_first();
        lemma_node_walk_complete(base, n0);
        assert(distinct_names(rest) && wf_nodes(rest)) by {
            assert forall|i: int, j: int| 0 <= i < j < rest.len() implies node_name(
                #[trigger] rest[i],
            ) != node_name(#[trigger] rest[j]) by {
                assert(rest[i] == nodes[i + 1] && rest[j] == nodes[j + 1]);
            }
        }
        lemma_nodes_walk_complete(base, rest);
        let hw = node_walk(base, n0, em);
        let rw = nodes_walk(base, rest, em);
        let hps = hw.map_values(f);
        let rps = rw.map_values(f);
        assert(nodes_walk(base, nodes, em) == hw + rw);
        assert(ps =~= hps + rps);
        // head entries start with the first name, rest entries with a later one
        assert forall|k: int| 0 <= k < hps.len() implies (#[trigger] hps[k])[base.len() as int]
            == node_name(n0) && hps[k].subrange(0, base.len() as int) == base && hps[k].len()
            > base.len() by {
            assert(hps[k].subrange(0, base.len() as int + 1) == base.push(node_name(n0)));
            assert(hps[k].subrange(0, base.len() as int + 1)[base.len() as int] == hps[k][base.len()
                as int]);
            assert(hps[k].subrange(0, base.len() as int) =~= hps[k].subrange(
                0,
                base.len() as int + 1,
            ).subrange(0, base.len() as int));
            assert(base.push(node_name(n0)).subrange(0, base.len() as int) =~= base);
        }
        assert forall|i: int| 1 <= i < nodes.len() implies node_name(#[trigger] nodes[i])
            != node_name(n0) by {}
        assert(ps.no_duplicates()) by {
            assert forall|i: int, j: int| 0 <= i < j < ps.len() implies ps[i] != ps[j] by {
                if j < hps.len() {
                    assert(hps[i] != hps[j]);
                } else if i >= hps.len() {
                    assert(ps[i] == rps[i - hps.len()] && ps[j] == rps[j - hps.len()]);
                    assert(rps[i - hps.len()] != rps[j - hps.len()]);
                } else {
                    assert(ps[i] == hps[i] && ps[j] == rps[j - hps.len()]);
                    let w = choose|w: int|
                        0 <= w < rest.len() && rps[j - hps.len()][base.len() as int] == node_name(
                            rest[w],
                        );
                    assert(rest[w] == nodes[w + 1]);
                    assert(node_name(nodes[w + 1]) != node_name(n0));
                    assert(hps[i][base.len() as int] == node_name(n0));
                }
            }
        }
        assert forall|p: Seq<Seq<u8>>| ps.contains(p) <==> nodes_paths(base, nodes).contains(
            p,
        ) by {
            if ps.contains(p) {
                let k = choose|k: int| 0 <= k < ps.len() && ps[k] == p;
                if k < hps.len() {
                    assert(hps.contains(p));
                    assert(node_paths(base, n0).contains(p));
                } else {
                    assert(ps[k] == rps[k - hps.len()]);
                    assert(rps.contains(p));
                    assert(nodes_paths(base, rest).contains(p));
                }
            }
            if nodes_paths(base, nodes).contains(p) {
                if node_paths(base, n0).contains(p) {
                    assert(hps.contains(p));
                    let k = choose|k: int| 0 <= k < hps.len() && hps[k] == p;
                    assert(ps[k] == p);
                } else {
                    assert(nodes_paths(base, rest).contains(p));
                    assert(rps.contains(p));
                    let k = choose|k: int| 0 <= k < rps.len() && rps[k] == p;
                    assert(ps[hps.len() + k] == p);
                }
            }
        }
        assert forall|k: int| 0 <= k < ps.len() implies (#[trigger] ps[k]).len() > base.len()
            && ps[k].subrange(0, base.len() as int) == base && (exists|i: int|
            0 <= i < nodes.len() && ps[k][base.len() as int] == node_name(
                #[trigger] nodes[i],
            )) by {
            if k < hps.len() {
                assert(ps[k] == hps[k]);
                assert(ps[k][base.len() as int] == node_name(nodes[0]));
            } else {
                assert(ps[k] == rps[k - hps.len()]);
                let w = choose|w: int|
                    0 <= w < rest.len() && rps[k - hps.len()][base.len() as int] == node_name(
                        rest[w],
                    );
                assert(rest[w] == nodes[w + 1]);
                assert(ps[k][base.len() as int] == node_name(nodes[w + 1]));
            }
        }
    }
}

/// Law (traversal completeness): for any well-formed directory snapshot,
/// walking with the empty exclusion set yields every file and directory
/// under the root exactly once — the entry paths hold no duplicates, and
/// they are exactly the root plus the paths of all nodes below it.
pub proof fn lemma_walk_complete(root: Seq<Seq<u8>>, children: Seq<FsTree>)
    requires
        wf_nodes(children),
        distinct_names(children),
    ensures
        ({
            let ps = walk_model(root, children, Set::empty()).map_values(|e: EntryModel| e.path);
            &&& ps.no_duplicates()
            &&& forall|p: Seq<Seq<u8>>|
                ps.contains(p) <==> (p == root || nodes_paths(root, children).contains(p))
        }),
{
    let em = Set::<Seq<Seq<u8>>>::empty();
    let f = |e: EntryModel| e.path;
    let ps = walk_model(root, children, em).map_values(f);
    lemma_nodes_walk_complete(root, children);
    let cw = nodes_walk(root, children, em);
    let cps = cw.map_values(f);
    assert(ps =~= seq![root] + cps);
    assert(ps[0] == root);
    assert(ps.no_duplicates()) by {
        assert forall|i: int, j: int| 0 <= i < j < ps.len() implies ps[i] != ps[j] by {
            if i == 0 {
                assert(ps[j] == cps[j - 1]);
                assert(cps[j - 1].len() > root.len());
            } else {
                assert(ps[i] == cps[i - 1] && ps[j] == cps[j - 1]);
                assert(cps[i - 1] != cps[j - 1]);
            }
        }
    }
    assert forall|p: Seq<Seq<u8>>| ps.contains(p) <==> (p == root || nodes_paths(
        root,
        children,
    ).contains(p)) by {
        if ps.contains(p) {
            let k = choose|k: int| 0 <= k < ps.len() && ps[k] == p;
            if k > 0 {
                assert(cps[k - 1] == p);
                assert(cps.contains(p));
            }
        }
        if p == root {
            assert(ps[0] == p);
        } else if nodes_paths(root, children).contains(p) {
            assert(cps.contains(p));
            let k = choose|k: int| 0 <= k < cps.len() && cps[k] == p;
            assert(ps[k + 1] == p);
        }
    }
}

/// The mathematical value of the walker's worklist: each entry a pending
/// node with the path of the directory that holds it.
pub open spec fn stack_view(s: Seq<(AbsPath, &FsTree)>) -> Seq<(Seq<Seq<u8>>, FsTree)> {
    s.map_values(|it: (AbsPath, &FsTree)| (it.0@, *it.1))
}

/// The entries the worklist still owes, top of the stack first.
pub open spec fn pending_walk(sv: Seq<(Seq<Seq<u8>>, FsTree)>, ex: Set<Seq<Seq<u8>>>) -> Seq<
    EntryModel,
>
    decreases sv.len(),
{
    if sv.len() == 0 {
        Seq::empty()
    } else {
        node_walk(sv.last().0, sv.last().1, ex) + pending_walk(sv.drop_last(), ex)
    }
}

/// How many nodes the worklist still holds.
pub open spec fn pending_size(sv: Seq<(Seq<Seq<u8>>, FsTree)>) -> nat
    decreases sv.len(),
{
    if sv.len() == 0 {
        0
    } else {
        node_size(sv.last().1) + pending_size(sv.drop_last())
    }
}

/// Walks a directory snapshot rooted at `root`, depth-first and root
/// first, with an explicit worklist in place of recursion.  Yields the
/// root, every directory below it, and every file whose path the
/// exclusion set does not hold; entries named `.` or `..` are never
/// yielded nor descended.
#[verifier::loop_isolation(false)]
pub fn walk_tree<'a>(root: &AbsPath, tree: &'a FsTree, ex: &ExclusionSet) -> (out: Vec<DirEntry>)
    requires
        tree is Dir,
    ensures
        entries_view(out) == walk_model(root@, tree->Dir_children@, excl_model(*ex)),
{
    let ghost exm = excl_model(*ex);
    let ghost total = walk_model(root@, tree->Dir_children@, exm);
    let mut out: Vec<DirEntry> = Vec::new();
    out.push(DirEntry { path: root.duplicate(), kind: EntryKind::Dir, size: 0, mode: 0 });
    proof {
        assert(entries_view(out) =~= seq![
            EntryModel { path: root@, kind: EntryKind::Dir, size: 0, mode: 0 },
        ]);
    }
    let mut stack: Vec<(AbsPath, &'a FsTree)> = Vec::new();
    let children: &'a Vec<FsTree> = match tree {
        FsTree::Dir { children, .. } => children,
        FsTree::File { .. } => unreached(),
    };
    let mut j: usize = children.len();
    while j > 0
        invariant
            j <= children@.len(),
            pending_walk(stack_view(stack@), exm) == nodes_walk(root@, children@.skip(j as int), exm),
            pending_size(stack_view(stack@)) == nodes_size(children@.skip(j as int)),
        decreases j,
    {
        let ghost sv = stack_view(stack@);
        stack.push((root.duplicate(), &children[j - 1]));
        proof {
            assert(stack_view(stack@) =~= sv.push((root@, children@[j - 1])));
            assert(stack_view(stack@).drop_last() =~= sv);
            assert(stack_view(stack@).last() == (root@, children@[j - 1]));
            assert(pending_walk(stack_view(stack@), exm) == node_walk(root@, children@[j - 1], exm)
                + pending_walk(sv, exm));
            assert(pending_size(stack_view(stack@)) == node_size(children@[j - 1]) + pending_size(
                sv,
            ));
            assert(children@.skip(j - 1).drop_first() =~= children@.skip(j as int));
            assert(children@.skip(j - 1)[0] == children@[j - 1]);
            assert(nodes_walk(root@, children@.skip(j - 1), exm) == node_walk(
                root@,
                children@[j - 1],
                exm,
            ) + nodes_walk(root@, children@.skip(j as int), exm));
            assert(nodes_size(children@.skip(j - 1)) == node_size(children@[j - 1]) + nodes_size(
                children@.skip(j as int),
            ));
        }
        j = j - 1;
    }
    proof {
        assert(children@.skip(0) =~= children@);
    }
    while stack.len() > 0
        invariant
            entries_view(out) + pending_walk(stack_view(stack@), exm) == total,
        decreases pending_size(stack_view(stack@)),
    {
        let ghost sv0 = stack_view(stack@);
        let top = stack.pop();
        let (parent, node) = match top {
            Some(it) => it,
            None => unreached(),
        };
        proof {
            assert(stack_view(stack@) =~= sv0.drop_last());
            assert(sv0.last() == (parent@, *node));
        }
        let ghost sv1 = stack_view(stack@);
        let ghost rest = pending_walk(sv1, exm);
        let name: &Vec<u8> = match node {
            FsTree::File { name, .. } => name,
            FsTree::Dir { name, .. } => name,
        };
        proof {
            assert(node_name(*node) == name@);
        }
        if (name.len() == 1 && name[0] == DOT) || (name.len() == 2 && name[0] == DOT && name[1]
            == DOT) {
            proof {
                assert(name@ =~= seq![DOT] || name@ =~= seq![DOT, DOT]);
                assert(node_walk(parent@, *node, exm) == Seq::<EntryModel>::empty());
                assert(Seq::<EntryModel>::empty() + rest =~= rest);
            }
        } else {
            proof {
                if name@ == seq![DOT] {
                    assert(name@.len() == 1 && name@[0] == DOT);
                    assert(false);
                }
                if name@ == seq![DOT, DOT] {
                    assert(name@.len() == 2 && name@[0] == DOT && name@[1] == DOT);
                    assert(false);
                }
            }
            let path = parent.child(name);
            match node {
                FsTree::File { size, mode, .. } => {
                    let ghost m = EntryModel {
                        path: parent@.push(name@),
                        kind: EntryKind::File,
                        size: *size,
                        mode: *mode,
                    };
                    if !ex.contains(&path) {
                        let ghost prev = entries_view(out);
                        out.push(DirEntry { path, kind: EntryKind::File, size: *size, mode: *mode });
                        proof {
                            assert(!exm.contains(parent@.push(name@)));
                            assert(entries_view(out) =~= prev.push(m));
                            assert(node_walk(parent@, *node, exm) == seq![m]);
                            assert(prev.push(m) + rest =~= prev + (seq![m] + rest));
                        }
                    } else {
                        proof {
                            assert(exm.contains(parent@.push(name@)));
                            assert(node_walk(parent@, *node, exm) == Seq::<EntryModel>::empty());
                            assert(Seq::<EntryModel>::empty() + rest =~= rest);
                        }
                    }
                },
                FsTree::Dir { children, .. } => {
                    let ghost m = EntryModel {
                        path: parent@.push(name@),
                        kind: EntryKind::Dir,
                        size: 0,
                        mode: 0,
                    };
                    let ghost prev = entries_view(out);
                    out.push(
                        DirEntry { path: path.duplicate(), kind: EntryKind::Dir, size: 0, mode: 0 },
                    );
                    proof {
                        assert(entries_view(out) =~= prev.push(m));
                    }
                    let mut j: usize = children.len();
                    while j > 0
                        invariant
                            j <= children@.len(),
                            pending_walk(stack_view(stack@), exm) == nodes_walk(
                                path@,
                                children@.skip(j as int),
                                exm,
                            ) + rest,
                            pending_size(stack_view(stack@)) == nodes_size(
                                children@.skip(j as int),
                            ) + pending_size(sv1),
                        decreases j,
                    {
                        let ghost sv = stack_view(stack@);
                        stack.push((path.duplicate(), &children[j - 1]));
                        proof {
                            assert(stack_view(stack@) =~= sv.push((path@, children@[j - 1])));
                            assert(stack_view(stack@).drop_last() =~= sv);
                            assert(stack_view(stack@).last() == (path@, children@[j - 1]));
                            assert(pending_walk(stack_view(stack@), exm) == node_walk(
                                path@,
                                children@[j - 1],
                                exm,
                            ) + pending_walk(sv, exm));
                            assert(pending_size(stack_view(stack@)) == node_size(children@[j - 1])
                                + pending_size(sv));
                            assert(children@.skip(j - 1).drop_first() =~= children@.skip(j as int));
                            assert(children@.skip(j - 1)[0] == children@[j - 1]);
                            assert(nodes_walk(path@, children@.skip(j - 1), exm) == node_walk(
                                path@,
                                children@[j - 1],
                                exm,
                            ) + nodes_walk(path@, children@.skip(j as int), exm));
                            assert(nodes_size(children@.skip(j - 1)) == node_size(children@[j - 1])
                                + nodes_size(children@.skip(j as int)));
                            assert((node_walk(path@, children@[j - 1], exm) + nodes_walk(
                                path@,
                                children@.skip(j as int),
                                exm,
                            )) + rest =~= node_walk(path@, children@[j - 1], exm) + (nodes_walk(
                                path@,
                                children@.skip(j as int),
                                exm,
                            ) + rest));
                        }
                        j = j - 1;
                    }
                    proof {
                        assert(children@.skip(0) =~= children@);
                        assert(node_walk(parent@, *node, exm) == seq![m] + nodes_walk(
                            path@,
                            children@,
                            exm,
                        ));
                        assert(prev.push(m) + (nodes_walk(path@, children@, exm) + rest) =~= prev
                            + (node_walk(parent@, *node, exm) + rest));
                    }
                },
            }
        }
    }
    proof {
        assert(entries_view(out) + pending_walk(stack_view(stack@), exm) =~= entries_view(out));
    }
    out
}

} // verus!
