//! Turning per-file decisions into transfer work: the stable list of
//! files to upload, recording a confirmed transfer, and resolving the
//! entries of a two-tree synchronization plan.

use vstd::prelude::*;
use vstd::string::StringExecFns;

use crate::merge::spec_find_child;
use crate::node::FileNode;
use crate::node::NodeModel;
use crate::node::SyncAction;
use crate::node::lemma_seq_node_models;
use crate::node::node_model;
use crate::node::seq_node_models;
use crate::node::spec_compare_for_sync;
use crate::node::spec_needs_sync;
use crate::tree::duplicate_children;
use crate::tree::ref_models;
use crate::tree::spec_all_files;
use crate::tree::string_eq;

verus! {

/// What can go wrong while synchronizing: a filesystem failure, a
/// snapshot that does not parse, a failed transfer (naming the file in
/// flight), or a direction of work that is deliberately not implemented.
#[derive(Debug)]
pub enum SyncError {
    IoError(String),
    SerializationError(String),
    TransferError { relative_path: String, detail: String },
    NotImplementedError(String),
}

/// The first file node, in depth-first preorder, under the given
/// relative path.
pub open spec fn spec_find_by_rel(m: NodeModel, path: Seq<char>) -> Option<NodeModel>
    decreases m, 1int,
{
    if m.relative_path == path {
        Some(m)
    } else {
        match m.children {
            Some(cs) => seq_find_by_rel(cs, path),
            None => None,
        }
    }
}

pub open spec fn seq_find_by_rel(cs: Seq<NodeModel>, path: Seq<char>) -> Option<NodeModel>
    decreases cs, 0int,
{
    if cs.len() == 0 {
        None
    } else {
        match spec_find_by_rel(cs[0], path) {
            Some(f) => Some(f),
            None => seq_find_by_rel(cs.subrange(1, cs.len() as int), path),
        }
    }
}

/// The tree after recording a confirmed transfer: the first node under
/// the given relative path has its last-synced time set to `now`;
/// everything else is unchanged.
pub open spec fn spec_mark(m: NodeModel, path: Seq<char>, now: u64) -> NodeModel
    decreases m, 1int,
{
    if m.relative_path == path {
        NodeModel { last_synced_at: Some(now), ..m }
    } else {
        match m.children {
            Some(cs) => NodeModel { children: Some(seq_mark(cs, path, now)), ..m },
            None => m,
        }
    }
}

pub open spec fn seq_mark(cs: Seq<NodeModel>, path: Seq<char>, now: u64) -> Seq<NodeModel>
    decreases cs, 0int,
{
    if cs.len() == 0 {
        Seq::empty()
    } else if spec_find_by_rel(cs[0], path) is Some {
        seq![spec_mark(cs[0], path, now)] + cs.subrange(1, cs.len() as int)
    } else {
        seq![cs[0]] + seq_mark(cs.subrange(1, cs.len() as int), path, now)
    }
}

/// The relative paths of the files that need synchronization, in
/// depth-first order.
pub open spec fn spec_files_needing_sync(fs: Seq<NodeModel>) -> Seq<Seq<char>>
    decreases fs.len(),
{
    if fs.len() == 0 {
        Seq::empty()
    } else {
        (if spec_needs_sync(fs[0]) {
            seq![fs[0].relative_path]
        } else {
            Seq::empty()
        }) + spec_files_needing_sync(fs.subrange(1, fs.len() as int))
    }
}

pub open spec fn string_views(s: Seq<String>) -> Seq<Seq<char>> {
    s.map_values(|x: String| x@)
}

/// The local half of a synchronization plan: one entry per local file
/// whose comparison against its remote counterpart demands work, and an
/// upload for every local file with no counterpart.
pub open spec fn spec_plan_local(lf: Seq<NodeModel>, rf: Seq<NodeModel>) -> Seq<
    (Seq<char>, SyncAction),
>
    decreases lf.len(),
{
    if lf.len() == 0 {
        Seq::empty()
    } else {
        (match spec_find_child(rf, lf[0].relative_path) {
            Some(rem) => if spec_compare_for_sync(lf[0], rem) is NoAction {
                Seq::empty()
            } else {
                seq![(lf[0].relative_path, spec_compare_for_sync(lf[0], rem))]
            },
            None => seq![(lf[0].relative_path, SyncAction::Upload)],
        }) + spec_plan_local(lf.subrange(1, lf.len() as int), rf)
    }
}

/// The remote half: a download for every remote file with no local
/// counterpart.
pub open spec fn spec_plan_remote(rf: Seq<NodeModel>, lf: Seq<NodeModel>) -> Seq<
    (Seq<char>, SyncAction),
>
    decreases rf.len(),
{
    if rf.len() == 0 {
        Seq::empty()
    } else {
        (if spec_find_child(lf, rf[0].relative_path) is None {
            seq![(rf[0].relative_path, SyncAction::Download)]
        } else {
            Seq::empty()
        }) + spec_plan_remote(rf.subrange(1, rf.len() as int), lf)
    }
}

/// The full plan for one local and one remote tree, matched by relative
/// path.
pub open spec fn spec_plan_sync(l: NodeModel, r: NodeModel) -> Seq<(Seq<char>, SyncAction)> {
    spec_plan_local(spec_all_files(l), spec_all_files(r)) + spec_plan_remote(
        spec_all_files(r),
        spec_all_files(l),
    )
}

pub open spec fn plan_views(s: Seq<(String, SyncAction)>) -> Seq<(Seq<char>, SyncAction)> {
    s.map_values(|p: (String, SyncAction)| (p.0@, p.1))
}

/// Orchestrates transfers against the previous snapshot's decisions.
pub struct SyncManager;

impl SyncManager {
    /// The stable decision snapshot for a batch upload: every file that
    /// needs synchronization, in tree order, by relative path. Later
    /// mutations of the tree do not disturb a list taken beforehand.
    pub fn files_needing_sync(file_tree: &FileNode) -> (r: Vec<String>)
        ensures
            string_views(r@) == spec_files_needing_sync(spec_all_files(file_tree@)),
    {
        let files = file_tree.get_all_files();
        let ghost fs = spec_all_files(file_tree@);
        let mut r: Vec<String> = Vec::new();
        let mut k: usize = 0;
        proof {
            assert(fs.subrange(0, fs.len() as int) =~= fs);
            assert(string_views(r@) =~= Seq::<Seq<char>>::empty());
        }
        while k < files.len()
            invariant
                k <= files@.len(),
                ref_models(files@) == fs,
                files@.len() == fs.len(),
                spec_files_needing_sync(fs) == string_views(r@) + spec_files_needing_sync(
                    fs.subrange(k as int, fs.len() as int),
                ),
            decreases files@.len() - k,
        {
            let ghost sub = fs.subrange(k as int, fs.len() as int);
            proof {
                assert(sub[0] == fs[k as int]);
                assert(fs[k as int] == ref_models(files@)[k as int]);
                assert(sub.subrange(1, sub.len() as int) =~= fs.subrange(k + 1, fs.len() as int));
            }
            let ghost before = r@;
            if files[k].needs_sync() {
                r.push(files[k].relative_path.clone());
                proof {
                    assert(string_views(r@) =~= string_views(before) + seq![fs[k as int].relative_path]);
                }
            } else {
                proof {
                    assert(string_views(r@) =~= string_views(before) + Seq::<Seq<char>>::empty());
                }
            }
            k = k + 1;
        }
        proof {
            assert(fs.subrange(k as int, fs.len() as int).len() == 0);
            assert(string_views(r@) + Seq::<Seq<char>>::empty() =~= string_views(r@));
        }
        r
    }

    /// Record one confirmed transfer in the live tree, so that a crash
    /// mid-batch leaves already-uploaded files correctly marked. Fails,
    /// leaving the tree unchanged, when no node carries the path.
    pub fn mark_file_as_synced(file_tree: &mut FileNode, relative_path: &String, now: u64) -> (r:
        Result<(), String>)
        ensures
            match r {
                Ok(_) => spec_find_by_rel(old(file_tree)@, relative_path@) is Some
                    && final(file_tree)@ == spec_mark(old(file_tree)@, relative_path@, now),
                Err(message) => spec_find_by_rel(old(file_tree)@, relative_path@) is None
                    && final(file_tree)@ == old(file_tree)@ && message@ == "file not found: "@
                    + relative_path@,
            },
    {
        let (marked, found) = mark_node(&*file_tree, relative_path, now);
        if found {
            *file_tree = marked;
            Ok(())
        } else {
            Err(String::from_str("file not found: ").concat(relative_path.as_str()))
        }
    }

    /// The first file node under a relative path.
    pub fn find_file_by_relative_path<'a>(tree: &'a FileNode, relative_path: &String) -> (r:
        Option<&'a FileNode>)
        ensures
            match r {
                Some(f) => spec_find_by_rel(tree@, relative_path@) == Some(f@),
                None => spec_find_by_rel(tree@, relative_path@) is None,
            },
        decreases *tree, 1int,
    {
        if string_eq(&tree.relative_path, relative_path) {
            return Some(tree);
        }
        match &tree.children {
            Some(cs) => {
                proof {
                    assert(cs@.subrange(0, cs@.len() as int) =~= cs@);
                }
                let r = find_by_rel_from(cs, 0, relative_path);
                proof {
                    lemma_seq_node_models(cs@);
                    assert(seq_node_models(cs@).subrange(0, cs@.len() as int) =~= seq_node_models(
                        cs@,
                    ));
                }
                r
            },
            None => None,
        }
    }

    /// Diff a local against a remote tree by relative path: compare
    /// matched files, upload local-only files, download remote-only ones.
    pub fn plan_sync(local_tree: &FileNode, remote_tree: &FileNode) -> (plan: Vec<
        (String, SyncAction),
    >)
        ensures
            plan_views(plan@) == spec_plan_sync(local_tree@, remote_tree@),
    {
        let local_files = local_tree.get_all_files();
        let remote_files = remote_tree.get_all_files();
        let ghost lf = spec_all_files(local_tree@);
        let ghost rf = spec_all_files(remote_tree@);
        let mut plan: Vec<(String, SyncAction)> = Vec::new();
        let mut k: usize = 0;
        proof {
            assert(lf.subrange(0, lf.len() as int) =~= lf);
            assert(plan_views(plan@) =~= Seq::<(Seq<char>, SyncAction)>::empty());
        }
        while k < local_files.len()
            invariant
                k <= local_files@.len(),
                ref_models(local_files@) == lf,
                ref_models(remote_files@) == rf,
                local_files@.len() == lf.len(),
                spec_plan_local(lf, rf) == plan_views(plan@) + spec_plan_local(
                    lf.subrange(k as int, lf.len() as int),
                    rf,
                ),
            decreases local_files@.len() - k,
        {
            let ghost sub = lf.subrange(k as int, lf.len() as int);
            proof {
                assert(sub[0] == lf[k as int]);
                assert(lf[k as int] == ref_models(local_files@)[k as int]);
                assert(sub.subrange(1, sub.len() as int) =~= lf.subrange(k + 1, lf.len() as int));
            }
            let local_file = local_files[k];
            let ghost before = plan@;
            match find_ref_by_rel(&remote_files, &local_file.relative_path) {
                Some(remote_file) => {
                    let action = local_file.compare_for_sync(remote_file);
                    let skip = match action {
                        SyncAction::NoAction => true,
                        _ => false,
                    };
                    if !skip {
                        plan.push((local_file.relative_path.clone(), action));
                        proof {
                            assert(plan_views(plan@) =~= plan_views(before) + seq![
                                (lf[k as int].relative_path, spec_compare_for_sync(
                                    lf[k as int],
                                    spec_find_child(rf, lf[k as int].relative_path)->0,
                                )),
                            ]);
                        }
                    } else {
                        proof {
                            assert(plan_views(plan@) =~= plan_views(before) + Seq::<
                                (Seq<char>, SyncAction),
                            >::empty());
                        }
                    }
                },
                None => {
                    plan.push((local_file.relative_path.clone(), SyncAction::Upload));
                    proof {
                        assert(plan_views(plan@) =~= plan_views(before) + seq![
                            (lf[k as int].relative_path, SyncAction::Upload),
                        ]);
                    }
                },
            }
            k = k + 1;
        }
        proof {
            assert(lf.subrange(k as int, lf.len() as int).len() == 0);
            assert(plan_views(plan@) + Seq::<(Seq<char>, SyncAction)>::empty() =~= plan_views(
                plan@,
            ));
            assert(rf.subrange(0, rf.len() as int) =~= rf);
        }
        let mut j: usize = 0;
        while j < remote_files.len()
            invariant
                j <= remote_files@.len(),
                ref_models(local_files@) == lf,
                ref_models(remote_files@) == rf,
                remote_files@.len() == rf.len(),
                spec_plan_local(lf, rf) + spec_plan_remote(rf, lf) == plan_views(plan@)
                    + spec_plan_remote(rf.subrange(j as int, rf.len() as int), lf),
            decreases remote_files@.len() - j,
        {
            let ghost sub = rf.subrange(j as int, rf.len() as int);
            proof {
                assert(sub[0] == rf[j as int]);
                assert(rf[j as int] == ref_models(remote_files@)[j as int]);
                assert(sub.subrange(1, sub.len() as int) =~= rf.subrange(j + 1, rf.len() as int));
            }
            let remote_file = remote_files[j];
            let ghost before = plan@;
            match find_ref_by_rel(&local_files, &remote_file.relative_path) {
                Some(_) => {
                    proof {
                        assert(plan@ =~= before);
                    }
                },
                None => {
                    plan.push((remote_file.relative_path.clone(), SyncAction::Download));
                    proof {
                        assert(plan_views(plan@) =~= plan_views(before) + seq![
                            (rf[j as int].relative_path, SyncAction::Download),
                        ]);
                    }
                },
            }
            j = j + 1;
        }
        proof {
            assert(rf.subrange(j as int, rf.len() as int).len() == 0);
            assert(plan_views(plan@) + Seq::<(Seq<char>, SyncAction)>::empty() =~= plan_views(
                plan@,
            ));
        }
        plan
    }

    /// Resolve one entry of a plan into its required work: the file to
    /// upload (skipping entries whose file has vanished from the tree), a
    /// loud failure for the download direction, which this engine does
    /// not implement, and nothing for entries already in sync.
    pub fn resolve_plan_entry<'a>(
        local_tree: &'a FileNode,
        relative_path: &String,
        action: SyncAction,
    ) -> (r: Result<Option<&'a FileNode>, SyncError>)
        ensures
            action is Upload ==> match r {
                Ok(Some(f)) => spec_find_by_rel(local_tree@, relative_path@) == Some(f@),
                Ok(None) => spec_find_by_rel(local_tree@, relative_path@) is None,
                Err(_) => false,
            },
            action is Download ==> (r matches Err(SyncError::NotImplementedError(message))
                && message@ == "download is not implemented for: "@ + relative_path@),
            action is NoAction ==> (r matches Ok(None)),
    {
        match action {
            SyncAction::Upload => Ok(Self::find_file_by_relative_path(local_tree, relative_path)),
            SyncAction::Download => Err(
                SyncError::NotImplementedError(
                    String::from_str("download is not implemented for: ").concat(
                        relative_path.as_str(),
                    ),
                ),
            ),
            SyncAction::NoAction => Ok(None),
        }
    }
}

fn find_by_rel_from<'a>(cs: &'a Vec<FileNode>, k: usize, path: &String) -> (r: Option<
    &'a FileNode,
>)
    requires
        k <= cs@.len(),
    ensures
        match r {
            Some(f) => seq_find_by_rel(
                seq_node_models(cs@).subrange(k as int, cs@.len() as int),
                path@,
            ) == Some(f@),
            None => seq_find_by_rel(
                seq_node_models(cs@).subrange(k as int, cs@.len() as int),
                path@,
            ) is None,
        },
    decreases cs@.subrange(k as int, cs@.len() as int), 0int,
{
    proof {
        lemma_seq_node_models(cs@);
    }
    let ghost ms = seq_node_models(cs@);
    let ghost sub = ms.subrange(k as int, cs@.len() as int);
    if k == cs.len() {
        None
    } else {
        proof {
            assert(cs@.subrange(k as int, cs@.len() as int)[0] == cs@[k as int]);
            assert(sub[0] == node_model(cs@[k as int]));
            assert(cs@.subrange(k + 1, cs@.len() as int) =~= cs@.subrange(
                k as int,
                cs@.len() as int,
            ).subrange(1, cs@.len() - k));
            assert(sub.subrange(1, sub.len() as int) =~= ms.subrange(k + 1, cs@.len() as int));
        }
        match SyncManager::find_file_by_relative_path(&cs[k], path) {
            Some(f) => Some(f),
            None => find_by_rel_from(cs, k + 1, path),
        }
    }
}

/// The first reference in `files` whose relative path is `path`.
fn find_ref_by_rel<'a>(files: &Vec<&'a FileNode>, path: &String) -> (r: Option<&'a FileNode>)
    ensures
        match r {
            Some(f) => spec_find_child(ref_models(files@), path@) == Some(f@),
            None => spec_find_child(ref_models(files@), path@) is None,
        },
{
    let ghost ms = ref_models(files@);
    let mut k: usize = 0;
    proof {
        assert(ms.subrange(0, ms.len() as int) =~= ms);
    }
    while k < files.len()
        invariant
            k <= files@.len(),
            ms == ref_models(files@),
            ms.len() == files@.len(),
            spec_find_child(ms, path@) == spec_find_child(
                ms.subrange(k as int, ms.len() as int),
                path@,
            ),
        decreases files@.len() - k,
    {
        let ghost sub = ms.subrange(k as int, ms.len() as int);
        proof {
            assert(sub[0] == ms[k as int]);
            assert(sub.subrange(1, sub.len() as int) =~= ms.subrange(k + 1, ms.len() as int));
        }
        if string_eq(&files[k].relative_path, path) {
            return Some(files[k]);
        }
        k = k + 1;
    }
    proof {
        assert(ms.subrange(k as int, ms.len() as int).len() == 0);
    }
    None
}

fn mark_node(n: &FileNode, path: &String, now: u64) -> (r: (FileNode, bool))
    ensures
        r.0@ == spec_mark(n@, path@, now),
        r.1 == (spec_find_by_rel(n@, path@) is Some),
    decreases *n, 1int,
{
    if string_eq(&n.relative_path, path) {
        let mut d = n.duplicate();
        d.last_synced_at = Some(now);
        (d, true)
    } else {
        match &n.children {
            None => (n.duplicate(), false),
            Some(cs) => {
                proof {
                    assert(cs@.subrange(0, cs@.len() as int) =~= cs@);
                }
                let (v, found) = mark_children(cs, 0, path, now);
                proof {
                    lemma_seq_node_models(cs@);
                    assert(seq_node_models(cs@).subrange(0, cs@.len() as int) =~= seq_node_models(
                        cs@,
                    ));
                }
                let mut d = n.duplicate();
                d.children = Some(v);
                (d, found)
            },
        }
    }
}

fn mark_children(cs: &Vec<FileNode>, k: usize, path: &String, now: u64) -> (r: (Vec<FileNode>, bool))
    requires
        k <= cs@.len(),
    ensures
        seq_node_models(r.0@) == seq_mark(
            seq_node_models(cs@).subrange(k as int, cs@.len() as int),
            path@,
            now,
        ),
        r.1 == (seq_find_by_rel(
            seq_node_models(cs@).subrange(k as int, cs@.len() as int),
            path@,
        ) is Some),
    decreases cs@.subrange(k as int, cs@.len() as int), 0int,
{
    proof {
        lemma_seq_node_models(cs@);
    }
    let ghost ms = seq_node_models(cs@);
    let ghost sub = ms.subrange(k as int, cs@.len() as int);
    if k == cs.len() {
        let r: Vec<FileNode> = Vec::new();
        proof {
            lemma_seq_node_models(r@);
            assert(seq_node_models(r@) =~= seq_mark(sub, path@, now));
        }
        (r, false)
    } else {
        proof {
            assert(cs@.subrange(k as int, cs@.len() as int)[0] == cs@[k as int]);
            assert(sub[0] == node_model(cs@[k as int]));
            assert(cs@.subrange(k + 1, cs@.len() as int) =~= cs@.subrange(
                k as int,
                cs@.len() as int,
            ).subrange(1, cs@.len() - k));
            assert(sub.subrange(1, sub.len() as int) =~= ms.subrange(k + 1, cs@.len() as int));
        }
        let (head, found_here) = mark_node(&cs[k], path, now);
        if found_here {
            let mut rest = duplicate_children(cs, k + 1);
            let ghost rest0 = rest@;
            rest.insert(0, head);
            proof {
                lemma_seq_node_models(rest@);
                lemma_seq_node_models(rest0);
                assert(rest@ =~= seq![head] + rest0);
                assert forall|j: int| 0 <= j < rest@.len() implies seq_node_models(rest@)[j]
                    == seq_mark(sub, path@, now)[j] by {
                    if j == 0 {
                        assert(rest@[0] == head);
                    } else {
                        assert(rest@[j] == rest0[j - 1]);
                        assert(seq_node_models(rest0)[j - 1] == node_model(rest0[j - 1]));
                    }
                }
                assert(seq_node_models(rest@) =~= seq_mark(sub, path@, now));
            }
            (rest, true)
        } else {
            let (rest, found_rest) = mark_children(cs, k + 1, path, now);
            let mut rest = rest;
            let ghost rest0 = rest@;
            rest.insert(0, head);
            proof {
                lemma_seq_node_models(rest@);
                lemma_seq_node_models(rest0);
                assert(rest@ =~= seq![head] + rest0);
                assert forall|j: int| 0 <= j < rest@.len() implies seq_node_models(rest@)[j]
                    == seq_mark(sub, path@, now)[j] by {
                    if j == 0 {
                        assert(rest@[0] == head);
                        assert(head@ == spec_mark(sub[0], path@, now));
                        assert(spec_mark(sub[0], path@, now) == sub[0]) by {
                            lemma_mark_absent(sub[0], path@, now);
                        }
                    } else {
                        assert(rest@[j] == rest0[j - 1]);
                        assert(seq_node_models(rest0)[j - 1] == node_model(rest0[j - 1]));
                    }
                }
                assert(seq_node_models(rest@) =~= seq_mark(sub, path@, now));
            }
            (rest, found_rest)
        }
    }
}

/// Marking a path that does not occur in a tree leaves it unchanged.
proof fn lemma_mark_absent(m: NodeModel, path: Seq<char>, now: u64)
    requires
        spec_find_by_rel(m, path) is None,
    ensures
        spec_mark(m, path, now) == m,
    decreases m, 1int,
{
    match m.children {
        Some(cs) => {
            lemma_seq_mark_absent(cs, path, now);
            assert(spec_mark(m, path, now) == NodeModel { children: Some(cs), ..m });
        },
        None => {},
    }
}

proof fn lemma_seq_mark_absent(cs: Seq<NodeModel>, path: Seq<char>, now: u64)
    requires
        seq_find_by_rel(cs, path) is None,
    ensures
        seq_mark(cs, path, now) == cs,
    decreases cs, 0int,
{
    if cs.len() > 0 {
        lemma_seq_mark_absent(cs.subrange(1, cs.len() as int), path, now);
        assert(seq_mark(cs, path, now) =~= cs);
    }
}

} // verus!
