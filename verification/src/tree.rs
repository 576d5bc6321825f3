//! Traversals over the node tree: collecting files, finding nodes, and
//! counting, together with a verified deep copy.

use vstd::prelude::*;

use crate::node::FileNode;
use crate::node::NodeModel;
use crate::node::lemma_seq_node_models;
use crate::node::node_model;
use crate::node::opt_string_view;
use crate::node::seq_node_models;

verus! {

/// The files of a tree in depth-first order: the node itself when it is a
/// file, then the files of each child in order.
pub open spec fn spec_all_files(m: NodeModel) -> Seq<NodeModel>
    decreases m, 1int,
{
    (if m.kind is File {
        seq![m]
    } else {
        Seq::empty()
    }) + (match m.children {
        Some(cs) => seq_all_files(cs),
        None => Seq::empty(),
    })
}

/// The files of a forest, in order.
pub open spec fn seq_all_files(cs: Seq<NodeModel>) -> Seq<NodeModel>
    decreases cs, 0int,
{
    if cs.len() == 0 {
        Seq::empty()
    } else {
        spec_all_files(cs[0]) + seq_all_files(cs.subrange(1, cs.len() as int))
    }
}

/// The first node with the given absolute path, in depth-first preorder.
pub open spec fn spec_find_by_path(m: NodeModel, path: Seq<char>) -> Option<NodeModel>
    decreases m, 1int,
{
    if m.absolute_path == path {
        Some(m)
    } else {
        match m.children {
            Some(cs) => seq_find_by_path(cs, path),
            None => None,
        }
    }
}

pub open spec fn seq_find_by_path(cs: Seq<NodeModel>, path: Seq<char>) -> Option<NodeModel>
    decreases cs, 0int,
{
    if cs.len() == 0 {
        None
    } else {
        match spec_find_by_path(cs[0], path) {
            Some(f) => Some(f),
            None => seq_find_by_path(cs.subrange(1, cs.len() as int), path),
        }
    }
}

/// The number of nodes in a tree, files and folders alike.
pub open spec fn spec_count_items(m: NodeModel) -> nat
    decreases m, 1int,
{
    1 + (match m.children {
        Some(cs) => seq_count_items(cs),
        None => 0,
    })
}

pub open spec fn seq_count_items(cs: Seq<NodeModel>) -> nat
    decreases cs, 0int,
{
    if cs.len() == 0 {
        0nat
    } else {
        spec_count_items(cs[0]) + seq_count_items(cs.subrange(1, cs.len() as int))
    }
}

/// The models of a sequence of node references.
pub open spec fn ref_models(s: Seq<&FileNode>) -> Seq<NodeModel> {
    s.map_values(|f: &FileNode| node_model(*f))
}

/// The relative paths of every node of the tree — folders included —
/// root first, in depth-first order.
pub open spec fn node_paths(m: NodeModel) -> Seq<Seq<char>>
    decreases m, 1int,
{
    seq![m.relative_path] + (match m.children {
        Some(cs) => seq_node_paths(cs),
        None => Seq::empty(),
    })
}

pub open spec fn seq_node_paths(cs: Seq<NodeModel>) -> Seq<Seq<char>>
    decreases cs, 0int,
{
    if cs.len() == 0 {
        Seq::empty()
    } else {
        node_paths(cs[0]) + seq_node_paths(cs.subrange(1, cs.len() as int))
    }
}

/// The relative paths of the files of the tree, in depth-first order:
/// entry `k` is the path of the `k`-th file of [`spec_all_files`].
pub open spec fn file_paths(m: NodeModel) -> Seq<Seq<char>>
    decreases m, 1int,
{
    (if m.kind is File {
        seq![m.relative_path]
    } else {
        Seq::empty()
    }) + (match m.children {
        Some(cs) => seq_file_paths(cs),
        None => Seq::empty(),
    })
}

pub open spec fn seq_file_paths(cs: Seq<NodeModel>) -> Seq<Seq<char>>
    decreases cs, 0int,
{
    if cs.len() == 0 {
        Seq::empty()
    } else {
        file_paths(cs[0]) + seq_file_paths(cs.subrange(1, cs.len() as int))
    }
}

/// `file_paths` lists exactly the relative paths of `spec_all_files`, in
/// order.
pub proof fn lemma_file_paths_pointwise(m: NodeModel)
    ensures
        file_paths(m).len() == spec_all_files(m).len(),
        forall|k: int|
            0 <= k < file_paths(m).len() ==> file_paths(m)[k] == spec_all_files(
                m,
            )[k].relative_path,
    decreases m, 1int,
{
    match m.children {
        Some(cs) => {
            lemma_seq_file_paths_pointwise(cs);
        },
        None => {},
    }
}

proof fn lemma_seq_file_paths_pointwise(cs: Seq<NodeModel>)
    ensures
        seq_file_paths(cs).len() == seq_all_files(cs).len(),
        forall|k: int|
            0 <= k < seq_file_paths(cs).len() ==> seq_file_paths(cs)[k] == seq_all_files(
                cs,
            )[k].relative_path,
    decreases cs, 0int,
{
    if cs.len() > 0 {
        lemma_file_paths_pointwise(cs[0]);
        lemma_seq_file_paths_pointwise(cs.subrange(1, cs.len() as int));
    }
}

/// No two entries of the sequence are the same path.
pub open spec fn paths_unique(ps: Seq<Seq<char>>) -> bool {
    forall|i: int, j: int| 0 <= i < j < ps.len() ==> ps[i] != ps[j]
}

/// A portable relative path: non-empty, never beginning with a
/// separator, and using forward slashes only.
pub open spec fn portable_path(p: Seq<char>) -> bool {
    &&& p.len() > 0
    &&& !crate::paths::is_sep(p[0])
    &&& forall|i: int| 0 <= i < p.len() ==> p[i] != '\\'
}

/// Whether `p` lies in the subtree whose root's path is `q`: it is `q`
/// itself or continues past it at a slash.
pub open spec fn rooted_at(p: Seq<char>, q: Seq<char>) -> bool {
    ||| p == q
    ||| (p.len() > q.len() && p.subrange(0, q.len() as int) == q && p[q.len() as int] == '/')
}

/// Compare two strings character for character.
pub(crate) fn string_eq(a: &String, b: &String) -> (r: bool)
    ensures
        r == (a@ == b@),
{
    a.eq(b)
}

pub(crate) fn clone_opt_string(o: &Option<String>) -> (r: Option<String>)
    ensures
        r == *o,
{
    match o {
        Some(s) => Some(s.clone()),
        None => None,
    }
}

impl FileNode {
    /// A deep copy, equal to the original in every observable field.
    pub fn duplicate(&self) -> (r: FileNode)
        ensures
            r@ == self@,
        decreases *self, 1int,
    {
        let children = match &self.children {
            Some(cs) => {
                proof {
                    assert(cs@.subrange(0, cs@.len() as int) =~= cs@);
                }
                let v = duplicate_children(cs, 0);
                proof {
                    lemma_seq_node_models(cs@);
                    assert(seq_node_models(cs@).subrange(0, cs@.len() as int) =~= seq_node_models(
                        cs@,
                    ));
                }
                Some(v)
            },
            None => None,
        };
        let r = FileNode {
            name: self.name.clone(),
            kind: self.kind,
            absolute_path: self.absolute_path.clone(),
            relative_path: self.relative_path.clone(),
            children,
            repository_origin: clone_opt_string(&self.repository_origin),
            size_bytes: self.size_bytes,
            modified_at: self.modified_at,
            content_hash: clone_opt_string(&self.content_hash),
            last_synced_at: self.last_synced_at,
            sync_session_id: clone_opt_string(&self.sync_session_id),
            writer_id: clone_opt_string(&self.writer_id),
        };
        r
    }

    /// All file nodes of this tree, in depth-first order.
    pub fn get_all_files<'a>(&'a self) -> (r: Vec<&'a FileNode>)
        ensures
            ref_models(r@) == spec_all_files(self@),
    {
        let mut files: Vec<&FileNode> = Vec::new();
        proof {
            assert(ref_models(files@) =~= Seq::<NodeModel>::empty());
        }
        self.collect_files(&mut files);
        proof {
            assert(Seq::<NodeModel>::empty() + spec_all_files(self@) =~= spec_all_files(self@));
        }
        files
    }

    fn collect_files<'a>(&'a self, files: &mut Vec<&'a FileNode>)
        ensures
            ref_models(final(files)@) == ref_models(old(files)@) + spec_all_files(self@),
        decreases *self, 1int,
    {
        let ghost before = files@;
        if self.is_file() {
            files.push(self);
            proof {
                assert(ref_models(files@) =~= ref_models(before) + seq![self@]);
            }
        } else {
            proof {
                assert(ref_models(files@) =~= ref_models(before) + Seq::<NodeModel>::empty());
            }
        }
        match &self.children {
            Some(cs) => {
                proof {
                    assert(cs@.subrange(0, cs@.len() as int) =~= cs@);
                }
                collect_files_from(cs, 0, files);
                proof {
                    lemma_seq_node_models(cs@);
                    assert(seq_node_models(cs@).subrange(0, cs@.len() as int) =~= seq_node_models(
                        cs@,
                    ));
                    assert(ref_models(files@) =~= ref_models(before) + spec_all_files(self@));
                }
            },
            None => {
                proof {
                    assert(ref_models(files@) =~= ref_models(before) + spec_all_files(self@));
                }
            },
        }
    }

    /// The first node, in depth-first preorder, whose absolute path is
    /// `target_path`.
    pub fn find_by_path<'a>(&'a self, target_path: &String) -> (r: Option<&'a FileNode>)
        ensures
            match r {
                Some(f) => spec_find_by_path(self@, target_path@) == Some(f@),
                None => spec_find_by_path(self@, target_path@) is None,
            },
        decreases *self, 1int,
    {
        if string_eq(&self.absolute_path, target_path) {
            return Some(self);
        }
        match &self.children {
            Some(cs) => {
                proof {
                    assert(cs@.subrange(0, cs@.len() as int) =~= cs@);
                }
                let r = find_by_path_from(cs, 0, target_path);
                proof {
                    lemma_seq_node_models(cs@);
                    assert(seq_node_models(cs@).subrange(0, cs@.len() as int) =~= seq_node_models(
                        cs@,
                    ));
                }
                r
            },
            None => None,
        }
    }
}

pub(crate) fn duplicate_children(cs: &Vec<FileNode>, k: usize) -> (r: Vec<FileNode>)
    requires
        k <= cs@.len(),
    ensures
        seq_node_models(r@) == seq_node_models(cs@).subrange(k as int, cs@.len() as int),
        r@.len() == cs@.len() - k,
    decreases cs@.subrange(k as int, cs@.len() as int), 0int,
{
    proof {
        lemma_seq_node_models(cs@);
    }
    if k == cs.len() {
        let r: Vec<FileNode> = Vec::new();
        proof {
            lemma_seq_node_models(r@);
            assert(seq_node_models(r@) =~= seq_node_models(cs@).subrange(
                k as int,
                cs@.len() as int,
            ));
        }
        r
    } else {
        proof {
            assert(cs@.subrange(k + 1, cs@.len() as int) =~= cs@.subrange(
                k as int,
                cs@.len() as int,
            ).subrange(1, cs@.len() - k));
            assert(cs@.subrange(k as int, cs@.len() as int)[0] == cs@[k as int]);
        }
        let head = cs[k].duplicate();
        let mut rest = duplicate_children(cs, k + 1);
        let ghost rest0 = rest@;
        rest.insert(0, head);
        proof {
            lemma_seq_node_models(rest@);
            lemma_seq_node_models(rest0);
            assert(rest@ =~= seq![head] + rest0);
            let ms = seq_node_models(cs@);
            let sub = ms.subrange(k as int, cs@.len() as int);
            assert forall|j: int| 0 <= j < rest@.len() implies seq_node_models(rest@)[j] == sub[j]
                by {
                if j == 0 {
                    assert(rest@[0] == head);
                    assert(sub[0] == node_model(cs@[k as int]));
                } else {
                    assert(rest@[j] == rest0[j - 1]);
                    assert(seq_node_models(rest0)[j - 1] == node_model(rest0[j - 1]));
                    assert(seq_node_models(rest0)[j - 1] == ms.subrange(k + 1, cs@.len() as int)[j
                        - 1]);
                }
            }
            assert(seq_node_models(rest@) =~= sub);
        }
        rest
    }
}

fn collect_files_from<'a>(cs: &'a Vec<FileNode>, k: usize, files: &mut Vec<&'a FileNode>)
    requires
        k <= cs@.len(),
    ensures
        ref_models(final(files)@) == ref_models(old(files)@) + seq_all_files(
            seq_node_models(cs@).subrange(k as int, cs@.len() as int),
        ),
    decreases cs@.subrange(k as int, cs@.len() as int), 0int,
{
    proof {
        lemma_seq_node_models(cs@);
    }
    let ghost ms = seq_node_models(cs@);
    let ghost sub = ms.subrange(k as int, cs@.len() as int);
    if k == cs.len() {
        proof {
            assert(seq_all_files(sub) =~= Seq::<NodeModel>::empty());
            assert(ref_models(files@) =~= ref_models(files@) + Seq::<NodeModel>::empty());
        }
    } else {
        proof {
            assert(cs@.subrange(k as int, cs@.len() as int)[0] == cs@[k as int]);
            assert(sub[0] == node_model(cs@[k as int]));
        }
        let ghost before = files@;
        cs[k].collect_files(files);
        proof {
            assert(cs@.subrange(k + 1, cs@.len() as int) =~= cs@.subrange(
                k as int,
                cs@.len() as int,
            ).subrange(1, cs@.len() - k));
        }
        collect_files_from(cs, k + 1, files);
        proof {
            assert(sub.subrange(1, sub.len() as int) =~= ms.subrange(k + 1, cs@.len() as int));
            assert(seq_all_files(sub) == spec_all_files(sub[0]) + seq_all_files(
                sub.subrange(1, sub.len() as int),
            ));
            assert(ref_models(files@) =~= ref_models(before) + seq_all_files(sub));
        }
    }
}

fn find_by_path_from<'a>(cs: &'a Vec<FileNode>, k: usize, target_path: &String) -> (r: Option<
    &'a FileNode,
>)
    requires
        k <= cs@.len(),
    ensures
        match r {
            Some(f) => seq_find_by_path(
                seq_node_models(cs@).subrange(k as int, cs@.len() as int),
                target_path@,
            ) == Some(f@),
            None => seq_find_by_path(
                seq_node_models(cs@).subrange(k as int, cs@.len() as int),
                target_path@,
            ) is None,
        },
    decreases cs@.subrange(k as int, cs@.len() as int), 0int,
{
    proof {
        lemma_seq_node_models(cs@);
    }
    let ghost ms = seq_node_models(cs@);
    let ghost sub = ms.subrange(k as int, cs@.len() as int);
    if k == cs.len() {
        None
    } else {
        proof {
            assert(cs@.subrange(k as int, cs@.len() as int)[0] == cs@[k as int]);
            assert(sub[0] == node_model(cs@[k as int]));
            assert(cs@.subrange(k + 1, cs@.len() as int) =~= cs@.subrange(
                k as int,
                cs@.len() as int,
            ).subrange(1, cs@.len() - k));
            assert(sub.subrange(1, sub.len() as int) =~= ms.subrange(k + 1, cs@.len() as int));
        }
        match cs[k].find_by_path(target_path) {
            Some(f) => Some(f),
            None => find_by_path_from(cs, k + 1, target_path),
        }
    }
}

/// Count every node of the tree, the root included. The count saturates
/// at the largest machine integer instead of overflowing.
pub fn count_items(node: &FileNode) -> (r: usize)
    ensures
        r as nat == if spec_count_items(node@) <= usize::MAX as nat {
            spec_count_items(node@)
        } else {
            usize::MAX as nat
        },
    decreases *node, 1int,
{
    match &node.children {
        Some(cs) => {
            proof {
                assert(cs@.subrange(0, cs@.len() as int) =~= cs@);
            }
            let below = count_items_from(cs, 0);
            proof {
                lemma_seq_node_models(cs@);
                assert(seq_node_models(cs@).subrange(0, cs@.len() as int) =~= seq_node_models(
                    cs@,
                ));
            }
            if below == usize::MAX {
                usize::MAX
            } else {
                1 + below
            }
        },
        None => 1,
    }
}

fn count_items_from(cs: &Vec<FileNode>, k: usize) -> (r: usize)
    requires
        k <= cs@.len(),
    ensures
        r as nat == if seq_count_items(seq_node_models(cs@).subrange(k as int, cs@.len() as int))
            <= usize::MAX as nat {
            seq_count_items(seq_node_models(cs@).subrange(k as int, cs@.len() as int))
        } else {
            usize::MAX as nat
        },
    decreases cs@.subrange(k as int, cs@.len() as int), 0int,
{
    proof {
        lemma_seq_node_models(cs@);
    }
    let ghost ms = seq_node_models(cs@);
    let ghost sub = ms.subrange(k as int, cs@.len() as int);
    if k == cs.len() {
        proof {
            assert(seq_count_items(sub) == 0);
        }
        0
    } else {
        proof {
            assert(cs@.subrange(k as int, cs@.len() as int)[0] == cs@[k as int]);
            assert(sub[0] == node_model(cs@[k as int]));
            assert(cs@.subrange(k + 1, cs@.len() as int) =~= cs@.subrange(
                k as int,
                cs@.len() as int,
            ).subrange(1, cs@.len() - k));
            assert(sub.subrange(1, sub.len() as int) =~= ms.subrange(k + 1, cs@.len() as int));
        }
        let head = count_items(&cs[k]);
        let rest = count_items_from(cs, k + 1);
        if head > usize::MAX - rest {
            usize::MAX
        } else {
            head + rest
        }
    }
}

} // verus!
