//! Reconciling a freshly built tree with the previous snapshot: for every
//! file whose modification time is unchanged, the previous
//! synchronization metadata is carried forward; everything else keeps its
//! fresh, unsynchronized state. The merge never adds or removes nodes.

use vstd::prelude::*;

use crate::node::FileNode;
use crate::node::NodeModel;
use crate::node::lemma_seq_node_models;
use crate::node::node_model;
use crate::node::seq_node_models;
use crate::tree::duplicate_children;
use crate::tree::clone_opt_string;
use crate::tree::string_eq;

verus! {

/// Whether the previous version's synchronization metadata applies to the
/// new version: both are files under the same relative path and the
/// modification time has not changed.
pub open spec fn carries_forward(new: NodeModel, prev: NodeModel) -> bool {
    &&& new.kind is File
    &&& prev.kind is File
    &&& new.relative_path == prev.relative_path
    &&& new.modified_at == prev.modified_at
}

/// The first previous child under the given relative path.
pub open spec fn spec_find_child(pcs: Seq<NodeModel>, path: Seq<char>) -> Option<NodeModel>
    decreases pcs.len(),
{
    if pcs.len() == 0 {
        None
    } else if pcs[0].relative_path == path {
        Some(pcs[0])
    } else {
        spec_find_child(pcs.subrange(1, pcs.len() as int), path)
    }
}

/// The merged tree: the new tree's shape and content, with the previous
/// tree's synchronization metadata carried forward where it applies.
pub open spec fn spec_merge(new: NodeModel, prev: NodeModel) -> NodeModel
    decreases new, 2int,
{
    let base = if carries_forward(new, prev) {
        NodeModel {
            last_synced_at: prev.last_synced_at,
            sync_session_id: prev.sync_session_id,
            writer_id: prev.writer_id,
            ..new
        }
    } else {
        new
    };
    match (new.children, prev.children) {
        (Some(ncs), Some(pcs)) => NodeModel {
            children: Some(seq_merge_children(ncs, pcs)),
            ..base
        },
        _ => base,
    }
}

pub open spec fn seq_merge_children(ncs: Seq<NodeModel>, pcs: Seq<NodeModel>) -> Seq<NodeModel>
    decreases ncs, 1int,
{
    if ncs.len() == 0 {
        Seq::empty()
    } else {
        seq![merge_child(ncs[0], pcs)] + seq_merge_children(
            ncs.subrange(1, ncs.len() as int),
            pcs,
        )
    }
}

/// One new child merged against whichever previous child shares its
/// relative path, if any.
pub open spec fn merge_child(c: NodeModel, pcs: Seq<NodeModel>) -> NodeModel
    decreases c, 3int,
{
    match spec_find_child(pcs, c.relative_path) {
        Some(p) => spec_merge(c, p),
        None => c,
    }
}

// ---------------------------------------------------------------------
// The merge is a no-op on a stable tree
// ---------------------------------------------------------------------
/// No two children share a relative path (the tree invariant).
pub open spec fn child_paths_unique(cs: Seq<NodeModel>) -> bool {
    forall|i: int, j: int| 0 <= i < j < cs.len() ==> cs[i].relative_path != cs[j].relative_path
}

/// Whether two trees are scans of the same folder in the same state: the
/// same shape, paths, kinds, modification times, and recorded
/// synchronization times, with unique child paths throughout. Session
/// identifiers and writer identities may differ.
pub open spec fn scan_agree(a: NodeModel, b: NodeModel) -> bool
    decreases a, 1int,
{
    &&& a.kind == b.kind
    &&& a.relative_path == b.relative_path
    &&& a.modified_at == b.modified_at
    &&& a.last_synced_at == b.last_synced_at
    &&& match (a.children, b.children) {
        (Some(acs), Some(bcs)) => acs.len() == bcs.len() && child_paths_unique(acs)
            && child_paths_unique(bcs) && seq_scan_agree(acs, bcs),
        (None, None) => true,
        _ => false,
    }
}

pub open spec fn seq_scan_agree(acs: Seq<NodeModel>, bcs: Seq<NodeModel>) -> bool
    decreases acs, 0int,
{
    if acs.len() == 0 || bcs.len() == 0 {
        true
    } else {
        scan_agree(acs[0], bcs[0]) && seq_scan_agree(
            acs.subrange(1, acs.len() as int),
            bcs.subrange(1, bcs.len() as int),
        )
    }
}

/// The recorded synchronization times of every file of the tree, in
/// depth-first order.
pub open spec fn synced_times(m: NodeModel) -> Seq<Option<u64>>
    decreases m, 1int,
{
    (if m.kind is File {
        seq![m.last_synced_at]
    } else {
        Seq::empty()
    }) + (match m.children {
        Some(cs) => seq_synced_times(cs),
        None => Seq::empty(),
    })
}

pub open spec fn seq_synced_times(cs: Seq<NodeModel>) -> Seq<Option<u64>>
    decreases cs, 0int,
{
    if cs.len() == 0 {
        Seq::empty()
    } else {
        synced_times(cs[0]) + seq_synced_times(cs.subrange(1, cs.len() as int))
    }
}

proof fn lemma_seq_scan_agree_index(acs: Seq<NodeModel>, bcs: Seq<NodeModel>, j: int)
    requires
        acs.len() == bcs.len(),
        seq_scan_agree(acs, bcs),
        0 <= j < acs.len(),
    ensures
        scan_agree(acs[j], bcs[j]),
    decreases j,
{
    if j > 0 {
        lemma_seq_scan_agree_index(
            acs.subrange(1, acs.len() as int),
            bcs.subrange(1, bcs.len() as int),
            j - 1,
        );
    }
}

proof fn lemma_scan_agree_symm(a: NodeModel, b: NodeModel)
    requires
        scan_agree(a, b),
    ensures
        scan_agree(b, a),
    decreases a, 1int,
{
    match (a.children, b.children) {
        (Some(acs), Some(bcs)) => {
            lemma_seq_scan_agree_symm(acs, bcs);
        },
        _ => {},
    }
}

proof fn lemma_seq_scan_agree_symm(acs: Seq<NodeModel>, bcs: Seq<NodeModel>)
    requires
        acs.len() == bcs.len(),
        seq_scan_agree(acs, bcs),
    ensures
        seq_scan_agree(bcs, acs),
    decreases acs, 0int,
{
    if acs.len() > 0 {
        lemma_scan_agree_symm(acs[0], bcs[0]);
        lemma_seq_scan_agree_symm(
            acs.subrange(1, acs.len() as int),
            bcs.subrange(1, bcs.len() as int),
        );
    }
}

proof fn lemma_synced_times_agree(a: NodeModel, b: NodeModel)
    requires
        scan_agree(a, b),
    ensures
        synced_times(a) == synced_times(b),
    decreases a, 1int,
{
    match (a.children, b.children) {
        (Some(acs), Some(bcs)) => {
            lemma_seq_synced_times_agree(acs, bcs);
            assert(synced_times(a) =~= synced_times(b));
        },
        _ => {
            assert(synced_times(a) =~= synced_times(b));
        },
    }
}

proof fn lemma_seq_synced_times_agree(acs: Seq<NodeModel>, bcs: Seq<NodeModel>)
    requires
        acs.len() == bcs.len(),
        seq_scan_agree(acs, bcs),
    ensures
        seq_synced_times(acs) == seq_synced_times(bcs),
    decreases acs, 0int,
{
    if acs.len() > 0 {
        lemma_synced_times_agree(acs[0], bcs[0]);
        lemma_seq_synced_times_agree(
            acs.subrange(1, acs.len() as int),
            bcs.subrange(1, bcs.len() as int),
        );
        assert(seq_synced_times(acs) =~= seq_synced_times(bcs));
    }
}

/// With unique paths, looking a child's own path up finds exactly that
/// child.
proof fn lemma_find_child_at(pcs: Seq<NodeModel>, k: int)
    requires
        child_paths_unique(pcs),
        0 <= k < pcs.len(),
    ensures
        spec_find_child(pcs, pcs[k].relative_path) == Some(pcs[k]),
    decreases k,
{
    if k > 0 {
        assert(pcs[0].relative_path != pcs[k].relative_path);
        let rest = pcs.subrange(1, pcs.len() as int);
        assert(child_paths_unique(rest)) by {
            assert(forall|i: int, j: int|
                0 <= i < j < rest.len() ==> rest[i] == pcs[i + 1] && rest[j] == pcs[j + 1]);
        }
        lemma_find_child_at(rest, k - 1);
        assert(rest[k - 1] == pcs[k]);
    }
}

proof fn lemma_merge_synced(a: NodeModel, b: NodeModel)
    requires
        scan_agree(a, b),
    ensures
        synced_times(spec_merge(a, b)) == synced_times(a),
    decreases a, 1int,
{
    let merged = spec_merge(a, b);
    match (a.children, b.children) {
        (Some(acs), Some(bcs)) => {
            assert forall|j: int| 0 <= j < acs.len() implies scan_agree(acs[j], bcs[j + 0]) by {
                lemma_seq_scan_agree_index(acs, bcs, j);
            }
            lemma_seq_merge_synced(acs, bcs, 0);
            assert(synced_times(merged) =~= synced_times(a));
        },
        _ => {
            assert(synced_times(merged) =~= synced_times(a));
        },
    }
}

proof fn lemma_seq_merge_synced(acs: Seq<NodeModel>, bcs: Seq<NodeModel>, d: int)
    requires
        0 <= d,
        acs.len() + d == bcs.len(),
        child_paths_unique(bcs),
        forall|j: int| 0 <= j < acs.len() ==> scan_agree(#[trigger] acs[j], bcs[j + d]),
    ensures
        seq_synced_times(seq_merge_children(acs, bcs)) == seq_synced_times(acs),
    decreases acs, 0int,
{
    if acs.len() == 0 {
        assert(seq_synced_times(seq_merge_children(acs, bcs)) =~= seq_synced_times(acs));
    } else {
        assert(scan_agree(acs[0], bcs[d]));
        assert(acs[0].relative_path == bcs[d].relative_path);
        lemma_find_child_at(bcs, d);
        assert(merge_child(acs[0], bcs) == spec_merge(acs[0], bcs[d]));
        lemma_merge_synced(acs[0], bcs[d]);
        let tail = acs.subrange(1, acs.len() as int);
        assert forall|j: int| 0 <= j < tail.len() implies scan_agree(
            #[trigger] tail[j],
            bcs[j + (d + 1)],
        ) by {
            assert(tail[j] == acs[j + 1]);
            assert(scan_agree(acs[j + 1], bcs[(j + 1) + d]));
        }
        lemma_seq_merge_synced(tail, bcs, d + 1);
        let smc = seq_merge_children(acs, bcs);
        assert(smc == seq![merge_child(acs[0], bcs)] + seq_merge_children(tail, bcs));
        assert(smc[0] == merge_child(acs[0], bcs));
        assert(smc.subrange(1, smc.len() as int) =~= seq_merge_children(tail, bcs));
        assert(seq_synced_times(smc) == synced_times(smc[0]) + seq_synced_times(
            smc.subrange(1, smc.len() as int),
        ));
        assert(seq_synced_times(acs) =~= synced_times(acs[0]) + seq_synced_times(tail));
        assert(seq_synced_times(smc) =~= seq_synced_times(acs));
    }
}

/// On a stable filesystem the merge is a no-op: two scans of the same
/// unmodified folder agree on every file's recorded synchronization time,
/// and merging either scan against the other changes none of those times.
pub proof fn lemma_merge_noop_on_stable_scans(a: NodeModel, b: NodeModel)
    requires
        scan_agree(a, b),
    ensures
        synced_times(spec_merge(a, b)) == synced_times(a),
        synced_times(spec_merge(b, a)) == synced_times(b),
        synced_times(a) == synced_times(b),
{
    lemma_merge_synced(a, b);
    lemma_scan_agree_symm(a, b);
    lemma_merge_synced(b, a);
    lemma_synced_times_agree(a, b);
}

// ---------------------------------------------------------------------
// The merge operates on the new tree's node set only
// ---------------------------------------------------------------------
/// The merge never adds, removes, or renames nodes: the merged tree has
/// exactly the new tree's paths, in the new tree's order. In particular
/// a file present only in the previous snapshot is not resurrected, and
/// a fresh file unknown to the snapshot stays in place.
pub proof fn lemma_merge_preserves_paths(n: NodeModel, p: NodeModel)
    ensures
        crate::tree::node_paths(spec_merge(n, p)) == crate::tree::node_paths(n),
    decreases n, 5int,
{
    let merged = spec_merge(n, p);
    match (n.children, p.children) {
        (Some(ncs), Some(pcs)) => {
            lemma_seq_merge_preserves_paths(ncs, pcs);
            assert(crate::tree::node_paths(merged) =~= crate::tree::node_paths(n));
        },
        _ => {
            assert(crate::tree::node_paths(merged) =~= crate::tree::node_paths(n));
        },
    }
}

proof fn lemma_seq_merge_preserves_paths(ncs: Seq<NodeModel>, pcs: Seq<NodeModel>)
    ensures
        crate::tree::seq_node_paths(seq_merge_children(ncs, pcs)) == crate::tree::seq_node_paths(
            ncs,
        ),
    decreases ncs, 4int,
{
    if ncs.len() == 0 {
        assert(crate::tree::seq_node_paths(seq_merge_children(ncs, pcs))
            =~= crate::tree::seq_node_paths(ncs));
    } else {
        let c = ncs[0];
        match spec_find_child(pcs, c.relative_path) {
            Some(p0) => {
                lemma_merge_preserves_paths(c, p0);
            },
            None => {},
        }
        lemma_seq_merge_preserves_paths(ncs.subrange(1, ncs.len() as int), pcs);
        let smc = seq_merge_children(ncs, pcs);
        assert(smc[0] == merge_child(c, pcs));
        assert(smc.subrange(1, smc.len() as int) =~= seq_merge_children(
            ncs.subrange(1, ncs.len() as int),
            pcs,
        ));
        assert(crate::tree::seq_node_paths(smc) =~= crate::tree::seq_node_paths(ncs));
    }
}

/// A new child with no previous sibling under its relative path is kept
/// exactly as it is — in particular a never-synchronized file stays
/// unsynchronized.
pub proof fn lemma_merge_child_unmatched(c: NodeModel, pcs: Seq<NodeModel>)
    requires
        spec_find_child(pcs, c.relative_path) is None,
    ensures
        merge_child(c, pcs) == c,
{
}

fn opt_u64_eq(a: Option<u64>, b: Option<u64>) -> (r: bool)
    ensures
        r == (a == b),
{
    match (a, b) {
        (Some(x), Some(y)) => x == y,
        (None, None) => true,
        _ => false,
    }
}

/// Find the previous child under `path`, if any.
fn find_child<'a>(pcs: &'a Vec<FileNode>, path: &String) -> (r: Option<&'a FileNode>)
    ensures
        match r {
            Some(p) => spec_find_child(seq_node_models(pcs@), path@) == Some(p@),
            None => spec_find_child(seq_node_models(pcs@), path@) is None,
        },
{
    proof {
        lemma_seq_node_models(pcs@);
        assert(seq_node_models(pcs@).subrange(0, pcs@.len() as int) =~= seq_node_models(pcs@));
    }
    let mut k: usize = 0;
    while k < pcs.len()
        invariant
            k <= pcs@.len(),
            seq_node_models(pcs@).len() == pcs@.len(),
            forall|j: int| 0 <= j < pcs@.len() ==> #[trigger] seq_node_models(pcs@)[j]
                == node_model(pcs@[j]),
            spec_find_child(seq_node_models(pcs@), path@) == spec_find_child(
                seq_node_models(pcs@).subrange(k as int, pcs@.len() as int),
                path@,
            ),
        decreases pcs@.len() - k,
    {
        let ghost ms = seq_node_models(pcs@);
        let ghost sub = ms.subrange(k as int, pcs@.len() as int);
        proof {
            assert(sub[0] == ms[k as int]);
            assert(sub.subrange(1, sub.len() as int) =~= ms.subrange(k + 1, pcs@.len() as int));
        }
        if string_eq(&pcs[k].relative_path, path) {
            return Some(&pcs[k]);
        }
        k = k + 1;
    }
    proof {
        assert(seq_node_models(pcs@).subrange(k as int, pcs@.len() as int).len() == 0);
    }
    None
}

/// Merge one node of the fresh tree against one node of the snapshot,
/// producing the reconciled node.
pub(crate) fn merge_nodes(new: &FileNode, prev: &FileNode) -> (r: FileNode)
    ensures
        r@ == spec_merge(new@, prev@),
    decreases *new, 2int,
{
    let carry = new.is_file() && prev.is_file() && string_eq(
        &new.relative_path,
        &prev.relative_path,
    ) && opt_u64_eq(new.modified_at, prev.modified_at);
    let (last_synced_at, sync_session_id, writer_id) = if carry {
        (
            prev.last_synced_at,
            clone_opt_string(&prev.sync_session_id),
            clone_opt_string(&prev.writer_id),
        )
    } else {
        (
            new.last_synced_at,
            clone_opt_string(&new.sync_session_id),
            clone_opt_string(&new.writer_id),
        )
    };
    let children = match (&new.children, &prev.children) {
        (Some(ncs), Some(pcs)) => {
            proof {
                assert(ncs@.subrange(0, ncs@.len() as int) =~= ncs@);
            }
            let v = merge_children(ncs, pcs, 0);
            proof {
                lemma_seq_node_models(ncs@);
                assert(seq_node_models(ncs@).subrange(0, ncs@.len() as int) =~= seq_node_models(
                    ncs@,
                ));
            }
            Some(v)
        },
        (Some(ncs), None) => {
            proof {
                assert(ncs@.subrange(0, ncs@.len() as int) =~= ncs@);
            }
            let v = duplicate_children(ncs, 0);
            proof {
                lemma_seq_node_models(ncs@);
                assert(seq_node_models(ncs@).subrange(0, ncs@.len() as int) =~= seq_node_models(
                    ncs@,
                ));
            }
            Some(v)
        },
        (None, _) => None,
    };
    let r = FileNode {
        name: new.name.clone(),
        kind: new.kind,
        absolute_path: new.absolute_path.clone(),
        relative_path: new.relative_path.clone(),
        children,
        repository_origin: clone_opt_string(&new.repository_origin),
        size_bytes: new.size_bytes,
        modified_at: new.modified_at,
        content_hash: clone_opt_string(&new.content_hash),
        last_synced_at,
        sync_session_id,
        writer_id,
    };
    r
}

fn merge_children(ncs: &Vec<FileNode>, pcs: &Vec<FileNode>, k: usize) -> (r: Vec<FileNode>)
    requires
        k <= ncs@.len(),
    ensures
        seq_node_models(r@) == seq_merge_children(
            seq_node_models(ncs@).subrange(k as int, ncs@.len() as int),
            seq_node_models(pcs@),
        ),
        r@.len() == ncs@.len() - k,
    decreases ncs@.subrange(k as int, ncs@.len() as int), 1int,
{
    proof {
        lemma_seq_node_models(ncs@);
    }
    let ghost ms = seq_node_models(ncs@);
    let ghost sub = ms.subrange(k as int, ncs@.len() as int);
    if k == ncs.len() {
        let r: Vec<FileNode> = Vec::new();
        proof {
            lemma_seq_node_models(r@);
            assert(seq_node_models(r@) =~= seq_merge_children(sub, seq_node_models(pcs@)));
        }
        r
    } else {
        proof {
            assert(ncs@.subrange(k + 1, ncs@.len() as int) =~= ncs@.subrange(
                k as int,
                ncs@.len() as int,
            ).subrange(1, ncs@.len() - k));
            assert(ncs@.subrange(k as int, ncs@.len() as int)[0] == ncs@[k as int]);
            assert(sub[0] == node_model(ncs@[k as int]));
            assert(sub.subrange(1, sub.len() as int) =~= ms.subrange(k + 1, ncs@.len() as int));
        }
        let head = match find_child(pcs, &ncs[k].relative_path) {
            Some(p) => merge_nodes(&ncs[k], p),
            None => ncs[k].duplicate(),
        };
        let mut rest = merge_children(ncs, pcs, k + 1);
        let ghost rest0 = rest@;
        rest.insert(0, head);
        proof {
            lemma_seq_node_models(rest@);
            lemma_seq_node_models(rest0);
            assert(rest@ =~= seq![head] + rest0);
            assert(head@ == merge_child(sub[0], seq_node_models(pcs@)));
            assert forall|j: int| 0 <= j < rest@.len() implies seq_node_models(rest@)[j]
                == seq_merge_children(sub, seq_node_models(pcs@))[j] by {
                if j == 0 {
                    assert(rest@[0] == head);
                } else {
                    assert(rest@[j] == rest0[j - 1]);
                    assert(seq_node_models(rest0)[j - 1] == node_model(rest0[j - 1]));
                }
            }
            assert(seq_node_models(rest@) =~= seq_merge_children(sub, seq_node_models(pcs@)));
        }
        rest
    }
}

} // verus!
