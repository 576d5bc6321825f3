//! Building a node tree from a folder listing, and normalizing paths.
//!
//! The builder is pure: the surrounding process walks the filesystem,
//! answers the repository-root predicate, and hands the result in as a
//! plain listing together with a [`BuildContext`] carrying the session
//! identity and the clock reading; every node of one build shares them.

use vstd::prelude::*;
use vstd::string::StringExecFns;

use crate::jsontext::chars_to_string;
use crate::jsontext::dec_digits;
use crate::jsontext::push_str_chars;
use crate::jsontext::push_u64_chars;
use crate::merge::spec_merge;
use crate::merge::merge_nodes;
use crate::node::FileNode;
use crate::node::NodeKind;
use crate::node::NodeModel;
use crate::tree::string_eq;

verus! {

/// The identity of one build: who is scanning, under which session, at
/// what time. Injected rather than read from ambient process state. The
/// clock reading is carried for the surrounding process (which stamps
/// confirmed transfers); the builder itself never guesses a
/// synchronization time from it.
pub struct BuildContext {
    pub writer_id: String,
    pub session_id: String,
    pub now: u64,
}

/// Model of a [`BuildContext`].
pub ghost struct ContextModel {
    pub writer_id: Seq<char>,
    pub session_id: Seq<char>,
    pub now: u64,
}

impl View for BuildContext {
    type V = ContextModel;

    open spec fn view(&self) -> ContextModel {
        ContextModel { writer_id: self.writer_id@, session_id: self.session_id@, now: self.now }
    }
}

/// One folder of the listing handed to the builder. A folder recognized
/// as an externally version-controlled root carries that verdict and its
/// remote reference, if one is known; its contents are not listed and the
/// builder will not descend into it.
pub struct FsFolder {
    pub name: String,
    pub is_repository_root: bool,
    pub repository_origin: Option<String>,
    pub entries: Vec<FsEntry>,
}

/// One directory entry of the listing: a file with its metadata as far as
/// it could be read, or a folder.
pub enum FsEntry {
    File { name: String, size_bytes: Option<u64>, modified_at: Option<u64> },
    Folder(FsFolder),
}

pub ghost struct FsFolderModel {
    pub name: Seq<char>,
    pub is_repository_root: bool,
    pub repository_origin: Option<Seq<char>>,
    pub entries: Seq<FsEntryModel>,
}

pub ghost enum FsEntryModel {
    File { name: Seq<char>, size_bytes: Option<u64>, modified_at: Option<u64> },
    Folder(FsFolderModel),
}

pub open spec fn folder_model(d: FsFolder) -> FsFolderModel
    decreases d, 1int,
{
    FsFolderModel {
        name: d.name@,
        is_repository_root: d.is_repository_root,
        repository_origin: crate::node::opt_string_view(d.repository_origin),
        entries: seq_entry_models(d.entries@),
    }
}

pub open spec fn seq_entry_models(es: Seq<FsEntry>) -> Seq<FsEntryModel>
    decreases es, 0int,
{
    if es.len() == 0 {
        Seq::empty()
    } else {
        seq![entry_model(es[0])] + seq_entry_models(es.subrange(1, es.len() as int))
    }
}

pub open spec fn entry_model(e: FsEntry) -> FsEntryModel
    decreases e, 2int,
{
    match e {
        FsEntry::File { name, size_bytes, modified_at } => FsEntryModel::File {
            name: name@,
            size_bytes,
            modified_at,
        },
        FsEntry::Folder(d) => FsEntryModel::Folder(folder_model(d)),
    }
}

impl View for FsFolder {
    type V = FsFolderModel;

    open spec fn view(&self) -> FsFolderModel {
        folder_model(*self)
    }
}

/// `seq_entry_models` maps the sequence pointwise.
pub proof fn lemma_seq_entry_models(es: Seq<FsEntry>)
    ensures
        seq_entry_models(es).len() == es.len(),
        forall|i: int| 0 <= i < es.len() ==> seq_entry_models(es)[i] == entry_model(es[i]),
    decreases es.len(),
{
    if es.len() > 0 {
        lemma_seq_entry_models(es.subrange(1, es.len() as int));
    }
}

/// A child's absolute path: the parent's path, a slash, the name.
pub open spec fn spec_join(parent: Seq<char>, name: Seq<char>) -> Seq<char> {
    parent + seq!['/'] + name
}

/// A child's root-anchored relative path: the bare name directly under
/// the root (whose own relative path is `.`), else the parent's relative
/// path, a slash, the name.
pub open spec fn spec_child_rel(parent_rel: Seq<char>, name: Seq<char>) -> Seq<char> {
    if parent_rel == "."@ {
        name
    } else {
        parent_rel + seq!['/'] + name
    }
}

/// The node built for a folder of the listing.
pub open spec fn spec_build_folder(
    d: FsFolderModel,
    abs: Seq<char>,
    rel: Seq<char>,
    ctx: ContextModel,
) -> NodeModel
    decreases d, 1int,
{
    NodeModel {
        name: d.name,
        kind: NodeKind::Folder,
        absolute_path: abs,
        relative_path: rel,
        children: if d.is_repository_root {
            None
        } else {
            Some(spec_build_entries(d.entries, abs, rel, ctx))
        },
        repository_origin: d.repository_origin,
        size_bytes: None,
        modified_at: None,
        content_hash: None,
        last_synced_at: None,
        sync_session_id: Some(ctx.session_id),
        writer_id: Some(ctx.writer_id),
    }
}

pub open spec fn spec_build_entries(
    es: Seq<FsEntryModel>,
    parent_abs: Seq<char>,
    parent_rel: Seq<char>,
    ctx: ContextModel,
) -> Seq<NodeModel>
    decreases es, 0int,
{
    if es.len() == 0 {
        Seq::empty()
    } else {
        seq![spec_build_entry(es[0], parent_abs, parent_rel, ctx)] + spec_build_entries(
            es.subrange(1, es.len() as int),
            parent_abs,
            parent_rel,
            ctx,
        )
    }
}

/// The node built for one directory entry: files carry their metadata and
/// start unsynchronized; folders are built recursively.
pub open spec fn spec_build_entry(
    e: FsEntryModel,
    parent_abs: Seq<char>,
    parent_rel: Seq<char>,
    ctx: ContextModel,
) -> NodeModel
    decreases e, 2int,
{
    match e {
        FsEntryModel::File { name, size_bytes, modified_at } => NodeModel {
            name,
            kind: NodeKind::File,
            absolute_path: spec_join(parent_abs, name),
            relative_path: spec_child_rel(parent_rel, name),
            children: None,
            repository_origin: None,
            size_bytes,
            modified_at,
            content_hash: None,
            last_synced_at: None,
            sync_session_id: Some(ctx.session_id),
            writer_id: Some(ctx.writer_id),
        },
        FsEntryModel::Folder(d) => spec_build_folder(
            d,
            spec_join(parent_abs, d.name),
            spec_child_rel(parent_rel, d.name),
            ctx,
        ),
    }
}

/// Join a parent path and a name with a slash.
fn join_path(parent: &String, name: &String) -> (r: String)
    ensures
        r@ == spec_join(parent@, name@),
{
    let mut s = parent.clone();
    s.append("/");
    s.append(name.as_str());
    proof {
        reveal_strlit("/");
        assert(s@ =~= spec_join(parent@, name@));
    }
    s
}

/// Derive a child's relative path from its parent's.
fn child_rel_path(parent_rel: &String, name: &String) -> (r: String)
    ensures
        r@ == spec_child_rel(parent_rel@, name@),
{
    let dot = String::from_str(".");
    if string_eq(parent_rel, &dot) {
        name.clone()
    } else {
        let mut s = parent_rel.clone();
        s.append("/");
        s.append(name.as_str());
        proof {
            reveal_strlit("/");
            assert(s@ =~= parent_rel@ + seq!['/'] + name@);
        }
        s
    }
}

/// Builds node trees from folder listings.
pub struct ReadFileTree;

impl ReadFileTree {
    /// Build the tree for a scanned folder. Every node receives the
    /// session and writer identity of `ctx`; every node starts
    /// unsynchronized, since a synchronization time is only ever recorded
    /// by a confirmed transfer or carried forward by the merger.
    pub fn generate_tree(root: &FsFolder, root_path: &String, ctx: &BuildContext) -> (r: FileNode)
        ensures
            r@ == spec_build_folder(root@, root_path@, "."@, ctx@),
    {
        build_folder(root, root_path, &String::from_str("."), ctx)
    }

    /// Build the tree for a scanned folder and carry the previous
    /// snapshot's synchronization metadata forward where it applies.
    pub fn generate_tree_preserving_sync_data(
        root: &FsFolder,
        root_path: &String,
        ctx: &BuildContext,
        previous: Option<&FileNode>,
    ) -> (r: FileNode)
        ensures
            r@ == match previous {
                Some(prev) => spec_merge(
                    spec_build_folder(root@, root_path@, "."@, ctx@),
                    prev@,
                ),
                None => spec_build_folder(root@, root_path@, "."@, ctx@),
            },
    {
        let mut tree = Self::generate_tree(root, root_path, ctx);
        match previous {
            Some(prev) => {
                Self::merge_sync_metadata(&mut tree, prev);
                tree
            },
            None => tree,
        }
    }

    /// Carry the previous tree's synchronization metadata into the new
    /// tree, in place: see [`crate::merge::spec_merge`].
    pub fn merge_sync_metadata(new_tree: &mut FileNode, existing_tree: &FileNode)
        ensures
            final(new_tree)@ == spec_merge(old(new_tree)@, existing_tree@),
    {
        let merged = merge_nodes(&*new_tree, existing_tree);
        *new_tree = merged;
    }
}

fn build_folder(d: &FsFolder, abs: &String, rel: &String, ctx: &BuildContext) -> (r: FileNode)
    ensures
        r@ == spec_build_folder(d@, abs@, rel@, ctx@),
    decreases *d, 1int,
{
    let children = if d.is_repository_root {
        None
    } else {
        {
            proof {
                assert(d.entries@.subrange(0, d.entries@.len() as int) =~= d.entries@);
            }
            let v = build_entries(&d.entries, 0, abs, rel, ctx);
            proof {
                lemma_seq_entry_models(d.entries@);
                assert(seq_entry_models(d.entries@).subrange(0, d.entries@.len() as int)
                    =~= seq_entry_models(d.entries@));
            }
            Some(v)
        }
    };
    let r = FileNode {
        name: d.name.clone(),
        kind: NodeKind::Folder,
        absolute_path: abs.clone(),
        relative_path: rel.clone(),
        children,
        repository_origin: crate::tree::clone_opt_string(&d.repository_origin),
        size_bytes: None,
        modified_at: None,
        content_hash: None,
        last_synced_at: None,
        sync_session_id: Some(ctx.session_id.clone()),
        writer_id: Some(ctx.writer_id.clone()),
    };
    r
}

fn build_entries(es: &Vec<FsEntry>, k: usize, parent_abs: &String, parent_rel: &String, ctx:
    &BuildContext) -> (r: Vec<FileNode>)
    requires
        k <= es@.len(),
    ensures
        crate::node::seq_node_models(r@) == spec_build_entries(
            seq_entry_models(es@).subrange(k as int, es@.len() as int),
            parent_abs@,
            parent_rel@,
            ctx@,
        ),
    decreases es@.subrange(k as int, es@.len() as int), 0int,
{
    proof {
        lemma_seq_entry_models(es@);
    }
    let ghost ms = seq_entry_models(es@);
    let ghost sub = ms.subrange(k as int, es@.len() as int);
    if k == es.len() {
        let r: Vec<FileNode> = Vec::new();
        proof {
            crate::node::lemma_seq_node_models(r@);
            assert(crate::node::seq_node_models(r@) =~= spec_build_entries(
                sub,
                parent_abs@,
                parent_rel@,
                ctx@,
            ));
        }
        r
    } else {
        proof {
            assert(es@.subrange(k as int, es@.len() as int)[0] == es@[k as int]);
            assert(sub[0] == entry_model(es@[k as int]));
            assert(es@.subrange(k + 1, es@.len() as int) =~= es@.subrange(
                k as int,
                es@.len() as int,
            ).subrange(1, es@.len() - k));
            assert(sub.subrange(1, sub.len() as int) =~= ms.subrange(k + 1, es@.len() as int));
        }
        let head = build_entry(&es[k], parent_abs, parent_rel, ctx);
        let mut rest = build_entries(es, k + 1, parent_abs, parent_rel, ctx);
        let ghost rest0 = rest@;
        rest.insert(0, head);
        proof {
            crate::node::lemma_seq_node_models(rest@);
            crate::node::lemma_seq_node_models(rest0);
            assert(rest@ =~= seq![head] + rest0);
            assert forall|j: int| 0 <= j < rest@.len() implies crate::node::seq_node_models(rest@)[j]
                == spec_build_entries(sub, parent_abs@, parent_rel@, ctx@)[j] by {
                if j == 0 {
                    assert(rest@[0] == head);
                } else {
                    assert(rest@[j] == rest0[j - 1]);
                    assert(crate::node::seq_node_models(rest0)[j - 1] == crate::node::node_model(
                        rest0[j - 1],
                    ));
                }
            }
            assert(crate::node::seq_node_models(rest@) =~= spec_build_entries(
                sub,
                parent_abs@,
                parent_rel@,
                ctx@,
            ));
        }
        rest
    }
}

fn build_entry(e: &FsEntry, parent_abs: &String, parent_rel: &String, ctx: &BuildContext) -> (r:
    FileNode)
    ensures
        r@ == spec_build_entry(entry_model(*e), parent_abs@, parent_rel@, ctx@),
    decreases *e, 2int,
{
    match e {
        FsEntry::File { name, size_bytes, modified_at } => {
            let r = FileNode {
                name: name.clone(),
                kind: NodeKind::File,
                absolute_path: join_path(parent_abs, name),
                relative_path: child_rel_path(parent_rel, name),
                children: None,
                repository_origin: None,
                size_bytes: *size_bytes,
                modified_at: *modified_at,
                content_hash: None,
                last_synced_at: None,
                sync_session_id: Some(ctx.session_id.clone()),
                writer_id: Some(ctx.writer_id.clone()),
            };
            r
        },
        FsEntry::Folder(d) => {
            let abs = join_path(parent_abs, &d.name);
            let rel = child_rel_path(parent_rel, &d.name);
            build_folder(d, &abs, &rel, ctx)
        },
    }
}

/// The session identifier written by one scan: `sync_` followed by the
/// scan's clock reading in seconds.
pub fn generate_sync_id(timestamp: u64) -> (r: String)
    ensures
        r@ == "sync_"@ + dec_digits(timestamp as nat),
{
    let mut out: Vec<char> = Vec::new();
    push_str_chars(&mut out, "sync_");
    push_u64_chars(&mut out, timestamp);
    chars_to_string(&out)
}

// ---------------------------------------------------------------------
// A valid listing builds a tree with portable, unique paths
// ---------------------------------------------------------------------
/// A usable directory-entry name: non-empty, free of path separators,
/// and not the root marker `.`. Real directory walks only yield such
/// names.
pub open spec fn valid_name(s: Seq<char>) -> bool {
    &&& s.len() > 0
    &&& forall|i: int| 0 <= i < s.len() ==> !crate::paths::is_sep(#[trigger] s[i])
    &&& s != "."@
}

pub open spec fn entry_name(e: FsEntryModel) -> Seq<char> {
    match e {
        FsEntryModel::File { name, .. } => name,
        FsEntryModel::Folder(d) => d.name,
    }
}

/// Whether a listing can come from a real directory walk: every entry
/// name is usable, and names are unique within each folder, recursively.
pub open spec fn listing_valid(d: FsFolderModel) -> bool
    decreases d, 16int,
{
    entries_valid(d.entries) && entry_names_unique(d.entries)
}

pub open spec fn entries_valid(es: Seq<FsEntryModel>) -> bool
    decreases es, 15int,
{
    if es.len() == 0 {
        true
    } else {
        entry_valid(es[0]) && entries_valid(es.subrange(1, es.len() as int))
    }
}

pub open spec fn entry_valid(e: FsEntryModel) -> bool
    decreases e, 17int,
{
    valid_name(entry_name(e)) && match e {
        FsEntryModel::Folder(d) => listing_valid(d),
        FsEntryModel::File { .. } => true,
    }
}

pub open spec fn entry_names_unique(es: Seq<FsEntryModel>) -> bool {
    forall|i: int, j: int| 0 <= i < j < es.len() ==> entry_name(es[i]) != entry_name(es[j])
}

/// The common prefix of every child path under a folder at `rel`.
pub open spec fn child_base(rel: Seq<char>) -> Seq<char> {
    if rel == "."@ {
        Seq::empty()
    } else {
        rel + seq!['/']
    }
}

proof fn lemma_child_rel_base(rel: Seq<char>, n: Seq<char>)
    ensures
        spec_child_rel(rel, n) == child_base(rel) + n,
{
    if rel == "."@ {
        assert(spec_child_rel(rel, n) =~= child_base(rel) + n);
    } else {
        assert(spec_child_rel(rel, n) =~= child_base(rel) + n);
    }
}

proof fn lemma_entries_valid_index(es: Seq<FsEntryModel>, i: int)
    requires
        entries_valid(es),
        0 <= i < es.len(),
    ensures
        entry_valid(es[i]),
    decreases i,
{
    if i > 0 {
        lemma_entries_valid_index(es.subrange(1, es.len() as int), i - 1);
    }
}

/// A child path under a portable parent path is itself portable and is
/// never the root marker.
proof fn lemma_child_path_portable(rel: Seq<char>, n: Seq<char>)
    requires
        crate::tree::portable_path(rel),
        valid_name(n),
    ensures
        crate::tree::portable_path(spec_child_rel(rel, n)),
        spec_child_rel(rel, n) != "."@,
        spec_child_rel(rel, n).len() >= n.len(),
{
    reveal_strlit(".");
    lemma_child_rel_base(rel, n);
    let q = spec_child_rel(rel, n);
    if rel == "."@ {
        assert(q =~= n);
        assert forall|i: int| 0 <= i < q.len() implies q[i] != '\\' by {
            assert(!crate::paths::is_sep(n[i]));
        }
    } else {
        assert(q == rel + seq!['/'] + n) by {
            assert((rel + seq!['/']) + n =~= rel + seq!['/'] + n);
        }
        assert(q[0] == rel[0]);
        assert forall|i: int| 0 <= i < q.len() implies q[i] != '\\' by {
            if i < rel.len() {
                assert(q[i] == rel[i]);
            } else if i == rel.len() {
                assert(q[i] == '/');
            } else {
                assert(q[i] == n[i - rel.len() - 1]);
                assert(!crate::paths::is_sep(n[i - rel.len() - 1]));
            }
        }
        assert(q.len() >= rel.len() + 1 + 1);
        assert("."@.len() == 1);
    }
}

/// Subtrees under two differently named siblings share no path.
proof fn lemma_rooted_disjoint(
    p1: Seq<char>,
    p2: Seq<char>,
    base: Seq<char>,
    n1: Seq<char>,
    n2: Seq<char>,
)
    requires
        valid_name(n1),
        valid_name(n2),
        n1 != n2,
        crate::tree::rooted_at(p1, base + n1),
        crate::tree::rooted_at(p2, base + n2),
    ensures
        p1 != p2,
{
    let q1 = base + n1;
    let q2 = base + n2;
    assert(q1.len() == base.len() + n1.len());
    assert(q2.len() == base.len() + n2.len());
    if p1 == p2 {
        let p = p1;
        if p == q1 && p == q2 {
            assert(n1.len() == n2.len());
            assert forall|i: int| 0 <= i < n1.len() implies n1[i] == n2[i] by {
                assert(q1[base.len() + i] == n1[i]);
                assert(q2[base.len() + i] == n2[i]);
            }
            assert(n1 =~= n2);
        } else if p == q1 && p != q2 {
            // p extends q2, so the name n1 carries a slash.
            assert(p.subrange(0, q2.len() as int) == q2);
            assert(p[q2.len() as int] == '/');
            assert(q1[base.len() + n2.len() as int] == n1[n2.len() as int]);
            assert(crate::paths::is_sep(n1[n2.len() as int]));
        } else if p != q1 && p == q2 {
            assert(p.subrange(0, q1.len() as int) == q1);
            assert(p[q1.len() as int] == '/');
            assert(q2[base.len() + n1.len() as int] == n2[n1.len() as int]);
            assert(crate::paths::is_sep(n2[n1.len() as int]));
        } else {
            assert(p.subrange(0, q1.len() as int) == q1);
            assert(p[q1.len() as int] == '/');
            assert(p.subrange(0, q2.len() as int) == q2);
            assert(p[q2.len() as int] == '/');
            if n1.len() == n2.len() {
                assert forall|i: int| 0 <= i < n1.len() implies n1[i] == n2[i] by {
                    assert(p.subrange(0, q1.len() as int)[base.len() + i] == p[base.len() + i]);
                    assert(q1[base.len() + i] == n1[i]);
                    assert(p.subrange(0, q2.len() as int)[base.len() + i] == p[base.len() + i]);
                    assert(q2[base.len() + i] == n2[i]);
                }
                assert(n1 =~= n2);
            } else if n1.len() < n2.len() {
                assert(p.subrange(0, q2.len() as int)[q1.len() as int] == p[q1.len() as int]);
                assert(q2[base.len() + n1.len() as int] == n2[n1.len() as int]);
                assert(crate::paths::is_sep(n2[n1.len() as int]));
            } else {
                assert(p.subrange(0, q1.len() as int)[q2.len() as int] == p[q2.len() as int]);
                assert(q1[base.len() + n2.len() as int] == n1[n2.len() as int]);
                assert(crate::paths::is_sep(n1[n2.len() as int]));
            }
        }
        assert(false);
    }
}

/// A path rooted below a child of the folder at `rel` is rooted at `rel`
/// itself (when `rel` is not the root marker).
proof fn lemma_rooted_through_child(p: Seq<char>, rel: Seq<char>, n: Seq<char>)
    requires
        rel != "."@,
        crate::tree::rooted_at(p, spec_child_rel(rel, n)),
    ensures
        crate::tree::rooted_at(p, rel),
{
    lemma_child_rel_base(rel, n);
    let q = spec_child_rel(rel, n);
    assert(q == (rel + seq!['/']) + n);
    assert(q.len() > rel.len());
    assert(q.subrange(0, rel.len() as int) =~= rel);
    assert(q[rel.len() as int] == '/');
    if p == q {
    } else {
        assert(p.subrange(0, q.len() as int) == q);
        assert forall|i: int| 0 <= i <= rel.len() implies p[i] == q[i] by {
            assert(p.subrange(0, q.len() as int)[i] == p[i]);
        }
        assert(p.subrange(0, rel.len() as int) =~= rel);
    }
}

/// The paths of the node built for one entry: all portable, all unique,
/// all rooted at the entry's own path.
proof fn lemma_build_entry_paths(
    e: FsEntryModel,
    parent_abs: Seq<char>,
    parent_rel: Seq<char>,
    ctx: ContextModel,
)
    requires
        entry_valid(e),
        crate::tree::portable_path(parent_rel),
    ensures
        ({
            let ps = crate::tree::node_paths(spec_build_entry(e, parent_abs, parent_rel, ctx));
            let fps = crate::tree::file_paths(spec_build_entry(e, parent_abs, parent_rel, ctx));
            let q = spec_child_rel(parent_rel, entry_name(e));
            &&& ps.len() > 0
            &&& ps[0] == q
            &&& crate::tree::paths_unique(ps)
            &&& forall|k: int|
                0 <= k < ps.len() ==> crate::tree::portable_path(#[trigger] ps[k])
                    && crate::tree::rooted_at(ps[k], q)
            &&& crate::tree::paths_unique(fps)
            &&& forall|k: int|
                0 <= k < fps.len() ==> crate::tree::portable_path(#[trigger] fps[k])
                    && crate::tree::rooted_at(fps[k], q)
        }),
    decreases e, 21int,
{
    lemma_child_path_portable(parent_rel, entry_name(e));
    let q = spec_child_rel(parent_rel, entry_name(e));
    match e {
        FsEntryModel::File { name, size_bytes, modified_at } => {
            let ps = crate::tree::node_paths(spec_build_entry(e, parent_abs, parent_rel, ctx));
            let fps = crate::tree::file_paths(spec_build_entry(e, parent_abs, parent_rel, ctx));
            assert(ps =~= seq![q]);
            assert(fps =~= seq![q]);
        },
        FsEntryModel::Folder(d) => {
            lemma_build_folder_paths(d, spec_join(parent_abs, d.name), q, ctx);
        },
    }
}

/// The paths of the whole tree built for a folder: all portable, unique
/// within the tree, the root's own path first, and — below the root
/// marker — all rooted at the folder's path.
proof fn lemma_build_folder_paths(d: FsFolderModel, abs: Seq<char>, rel: Seq<char>, ctx: ContextModel)
    requires
        listing_valid(d),
        crate::tree::portable_path(rel),
    ensures
        ({
            let ps = crate::tree::node_paths(spec_build_folder(d, abs, rel, ctx));
            let fps = crate::tree::file_paths(spec_build_folder(d, abs, rel, ctx));
            &&& ps.len() > 0
            &&& ps[0] == rel
            &&& crate::tree::paths_unique(ps)
            &&& forall|k: int| 0 <= k < ps.len() ==> crate::tree::portable_path(#[trigger] ps[k])
            &&& rel != "."@ ==> forall|k: int|
                0 <= k < ps.len() ==> crate::tree::rooted_at(#[trigger] ps[k], rel)
            &&& crate::tree::paths_unique(fps)
            &&& forall|k: int| 0 <= k < fps.len() ==> crate::tree::portable_path(#[trigger] fps[k])
            &&& rel != "."@ ==> forall|k: int|
                0 <= k < fps.len() ==> crate::tree::rooted_at(#[trigger] fps[k], rel)
        }),
    decreases d, 20int,
{
    reveal_strlit(".");
    let m = spec_build_folder(d, abs, rel, ctx);
    let ps = crate::tree::node_paths(m);
    let fps = crate::tree::file_paths(m);
    if d.is_repository_root {
        assert(ps =~= seq![rel]);
        assert(fps =~= Seq::<Seq<char>>::empty());
    } else {
        lemma_build_entries_paths(d.entries, abs, rel, ctx);
        let cs = spec_build_entries(d.entries, abs, rel, ctx);
        let cps = crate::tree::seq_node_paths(cs);
        let fcs = crate::tree::seq_file_paths(cs);
        assert(ps =~= seq![rel] + cps);
        assert(fps =~= fcs);
        assert forall|k: int| 0 <= k < cps.len() implies #[trigger] cps[k] != rel by {
            let i = choose|i: int|
                0 <= i < d.entries.len() && crate::tree::rooted_at(
                    cps[k],
                    spec_child_rel(rel, entry_name(d.entries[i])),
                );
            lemma_entries_valid_index(d.entries, i);
            let n = entry_name(d.entries[i]);
            let q = spec_child_rel(rel, n);
            lemma_child_rel_base(rel, n);
            lemma_child_path_portable(rel, n);
            if cps[k] == rel {
                if cps[k] == q {
                    if rel == "."@ {
                        assert(q != "."@);
                    } else {
                        assert(q.len() > rel.len());
                    }
                } else {
                    assert(cps[k].len() > q.len());
                    if rel == "."@ {
                        assert(rel.len() == 1);
                        assert(q.len() >= n.len() >= 1);
                    } else {
                        assert(q.len() > rel.len());
                    }
                }
            }
        }
        if rel != "."@ {
            assert forall|k: int| 0 <= k < ps.len() implies crate::tree::rooted_at(
                #[trigger] ps[k],
                rel,
            ) by {
                if k >= 1 {
                    let i = choose|i: int|
                        0 <= i < d.entries.len() && crate::tree::rooted_at(
                            cps[k - 1],
                            spec_child_rel(rel, entry_name(d.entries[i])),
                        );
                    lemma_rooted_through_child(cps[k - 1], rel, entry_name(d.entries[i]));
                }
            }
            assert forall|k: int| 0 <= k < fps.len() implies crate::tree::rooted_at(
                #[trigger] fps[k],
                rel,
            ) by {
                let i = choose|i: int|
                    0 <= i < d.entries.len() && crate::tree::rooted_at(
                        fcs[k],
                        spec_child_rel(rel, entry_name(d.entries[i])),
                    );
                lemma_rooted_through_child(fcs[k], rel, entry_name(d.entries[i]));
            }
        }
    }
}

/// The concatenated paths of the nodes built for a folder's entries.
proof fn lemma_build_entries_paths(
    es: Seq<FsEntryModel>,
    abs: Seq<char>,
    rel: Seq<char>,
    ctx: ContextModel,
)
    requires
        entries_valid(es),
        entry_names_unique(es),
        crate::tree::portable_path(rel),
    ensures
        ({
            let cps = crate::tree::seq_node_paths(spec_build_entries(es, abs, rel, ctx));
            let fcs = crate::tree::seq_file_paths(spec_build_entries(es, abs, rel, ctx));
            &&& crate::tree::paths_unique(cps)
            &&& forall|k: int| 0 <= k < cps.len() ==> crate::tree::portable_path(#[trigger] cps[k])
            &&& forall|k: int|
                0 <= k < cps.len() ==> exists|i: int|
                    0 <= i < es.len() && crate::tree::rooted_at(
                        #[trigger] cps[k],
                        spec_child_rel(rel, entry_name(es[i])),
                    )
            &&& crate::tree::paths_unique(fcs)
            &&& forall|k: int| 0 <= k < fcs.len() ==> crate::tree::portable_path(#[trigger] fcs[k])
            &&& forall|k: int|
                0 <= k < fcs.len() ==> exists|i: int|
                    0 <= i < es.len() && crate::tree::rooted_at(
                        #[trigger] fcs[k],
                        spec_child_rel(rel, entry_name(es[i])),
                    )
        }),
    decreases es, 19int,
{
    let cs = spec_build_entries(es, abs, rel, ctx);
    let cps = crate::tree::seq_node_paths(cs);
    let fcs = crate::tree::seq_file_paths(cs);
    if es.len() == 0 {
        assert(cps =~= Seq::<Seq<char>>::empty());
        assert(fcs =~= Seq::<Seq<char>>::empty());
    } else {
        let e0 = es[0];
        let es1 = es.subrange(1, es.len() as int);
        assert(entry_valid(e0));
        lemma_build_entry_paths(e0, abs, rel, ctx);
        assert(entry_names_unique(es1)) by {
            assert(forall|i: int, j: int|
                0 <= i < j < es1.len() ==> es1[i] == es[i + 1] && es1[j] == es[j + 1]);
        }
        lemma_build_entries_paths(es1, abs, rel, ctx);
        let c0 = spec_build_entry(e0, abs, rel, ctx);
        let cs1 = spec_build_entries(es1, abs, rel, ctx);
        let hp = crate::tree::node_paths(c0);
        let tp = crate::tree::seq_node_paths(cs1);
        let fhp = crate::tree::file_paths(c0);
        let ftp = crate::tree::seq_file_paths(cs1);
        assert(cs[0] == c0);
        assert(cs.subrange(1, cs.len() as int) =~= cs1);
        assert(cps == hp + tp);
        assert(fcs == fhp + ftp);
        let n0 = entry_name(e0);
        // Every path names the entry whose subtree it lies in.
        assert forall|k: int| 0 <= k < cps.len() implies exists|i: int|
            0 <= i < es.len() && crate::tree::rooted_at(
                #[trigger] cps[k],
                spec_child_rel(rel, entry_name(es[i])),
            ) by {
            if k < hp.len() {
                assert(cps[k] == hp[k]);
                assert(crate::tree::rooted_at(cps[k], spec_child_rel(rel, entry_name(es[0]))));
            } else {
                assert(cps[k] == tp[k - hp.len()]);
                let i1 = choose|i: int|
                    0 <= i < es1.len() && crate::tree::rooted_at(
                        tp[k - hp.len()],
                        spec_child_rel(rel, entry_name(es1[i])),
                    );
                assert(es1[i1] == es[i1 + 1]);
                assert(crate::tree::rooted_at(cps[k], spec_child_rel(rel, entry_name(es[i1 + 1]))));
            }
        }
        assert forall|k: int| 0 <= k < cps.len() implies crate::tree::portable_path(
            #[trigger] cps[k],
        ) by {
            if k < hp.len() {
                assert(cps[k] == hp[k]);
            } else {
                assert(cps[k] == tp[k - hp.len()]);
            }
        }
        assert forall|u: int, v: int| 0 <= u < v < cps.len() implies cps[u] != cps[v] by {
            if v < hp.len() {
                assert(cps[u] == hp[u] && cps[v] == hp[v]);
            } else if u >= hp.len() {
                assert(cps[u] == tp[u - hp.len()] && cps[v] == tp[v - hp.len()]);
            } else {
                // One path lies under the first entry, the other under a
                // later, differently named sibling.
                assert(cps[u] == hp[u]);
                assert(cps[v] == tp[v - hp.len()]);
                assert(crate::tree::rooted_at(hp[u], spec_child_rel(rel, n0)));
                let i1 = choose|i: int|
                    0 <= i < es1.len() && crate::tree::rooted_at(
                        tp[v - hp.len()],
                        spec_child_rel(rel, entry_name(es1[i])),
                    );
                lemma_entries_valid_index(es1, i1);
                let n1 = entry_name(es1[i1]);
                assert(es1[i1] == es[i1 + 1]);
                assert(n0 != n1);
                lemma_child_rel_base(rel, n0);
                lemma_child_rel_base(rel, n1);
                lemma_rooted_disjoint(cps[u], cps[v], child_base(rel), n0, n1);
            }
        }
        // The same three facts for the file paths alone.
        assert forall|k: int| 0 <= k < fcs.len() implies exists|i: int|
            0 <= i < es.len() && crate::tree::rooted_at(
                #[trigger] fcs[k],
                spec_child_rel(rel, entry_name(es[i])),
            ) by {
            if k < fhp.len() {
                assert(fcs[k] == fhp[k]);
                assert(crate::tree::rooted_at(fcs[k], spec_child_rel(rel, entry_name(es[0]))));
            } else {
                assert(fcs[k] == ftp[k - fhp.len()]);
                let i1 = choose|i: int|
                    0 <= i < es1.len() && crate::tree::rooted_at(
                        ftp[k - fhp.len()],
                        spec_child_rel(rel, entry_name(es1[i])),
                    );
                assert(es1[i1] == es[i1 + 1]);
                assert(crate::tree::rooted_at(fcs[k], spec_child_rel(rel, entry_name(es[i1 + 1]))));
            }
        }
        assert forall|k: int| 0 <= k < fcs.len() implies crate::tree::portable_path(
            #[trigger] fcs[k],
        ) by {
            if k < fhp.len() {
                assert(fcs[k] == fhp[k]);
            } else {
                assert(fcs[k] == ftp[k - fhp.len()]);
            }
        }
        assert forall|u: int, v: int| 0 <= u < v < fcs.len() implies fcs[u] != fcs[v] by {
            if v < fhp.len() {
                assert(fcs[u] == fhp[u] && fcs[v] == fhp[v]);
            } else if u >= fhp.len() {
                assert(fcs[u] == ftp[u - fhp.len()] && fcs[v] == ftp[v - fhp.len()]);
            } else {
                assert(fcs[u] == fhp[u]);
                assert(fcs[v] == ftp[v - fhp.len()]);
                assert(crate::tree::rooted_at(fhp[u], spec_child_rel(rel, n0)));
                let i1 = choose|i: int|
                    0 <= i < es1.len() && crate::tree::rooted_at(
                        ftp[v - fhp.len()],
                        spec_child_rel(rel, entry_name(es1[i])),
                    );
                lemma_entries_valid_index(es1, i1);
                let n1 = entry_name(es1[i1]);
                assert(es1[i1] == es[i1 + 1]);
                assert(n0 != n1);
                lemma_child_rel_base(rel, n0);
                lemma_child_rel_base(rel, n1);
                lemma_rooted_disjoint(fcs[u], fcs[v], child_base(rel), n0, n1);
            }
        }
    }
}

proof fn lemma_spec_build_entries_pointwise(
    es: Seq<FsEntryModel>,
    abs: Seq<char>,
    rel: Seq<char>,
    ctx: ContextModel,
)
    ensures
        spec_build_entries(es, abs, rel, ctx).len() == es.len(),
        forall|i: int|
            0 <= i < es.len() ==> spec_build_entries(es, abs, rel, ctx)[i] == spec_build_entry(
                es[i],
                abs,
                rel,
                ctx,
            ),
    decreases es.len(),
{
    if es.len() > 0 {
        lemma_spec_build_entries_pointwise(es.subrange(1, es.len() as int), abs, rel, ctx);
    }
}

proof fn lemma_build_entry_rel(e: FsEntryModel, abs: Seq<char>, rel: Seq<char>, ctx: ContextModel)
    ensures
        spec_build_entry(e, abs, rel, ctx).relative_path == spec_child_rel(rel, entry_name(e)),
{
    match e {
        FsEntryModel::File { .. } => {},
        FsEntryModel::Folder(_) => {},
    }
}

proof fn lemma_child_rel_injective(rel: Seq<char>, n1: Seq<char>, n2: Seq<char>)
    requires
        n1 != n2,
    ensures
        spec_child_rel(rel, n1) != spec_child_rel(rel, n2),
{
    lemma_child_rel_base(rel, n1);
    lemma_child_rel_base(rel, n2);
    let base = child_base(rel);
    if spec_child_rel(rel, n1) == spec_child_rel(rel, n2) {
        assert((base + n1).len() == base.len() + n1.len());
        assert((base + n2).len() == base.len() + n2.len());
        assert(n1.len() == n2.len());
        assert forall|i: int| 0 <= i < n1.len() implies n1[i] == n2[i] by {
            assert((base + n1)[base.len() + i] == n1[i]);
            assert((base + n2)[base.len() + i] == n2[i]);
        }
        assert(n1 =~= n2);
    }
}

/// Two builds of one listing — whatever their sessions, writers, or
/// clock readings — are scans of the same folder state, so the merge
/// no-op law applies to any pair of fresh scans of an unmodified folder.
pub proof fn lemma_fresh_builds_agree(
    d: FsFolderModel,
    abs: Seq<char>,
    c1: ContextModel,
    c2: ContextModel,
)
    requires
        listing_valid(d),
    ensures
        crate::merge::scan_agree(
            spec_build_folder(d, abs, "."@, c1),
            spec_build_folder(d, abs, "."@, c2),
        ),
{
    lemma_build_agree_folder(d, abs, "."@, c1, c2);
}

proof fn lemma_build_agree_folder(
    d: FsFolderModel,
    abs: Seq<char>,
    rel: Seq<char>,
    c1: ContextModel,
    c2: ContextModel,
)
    requires
        listing_valid(d),
    ensures
        crate::merge::scan_agree(
            spec_build_folder(d, abs, rel, c1),
            spec_build_folder(d, abs, rel, c2),
        ),
    decreases d, 24int,
{
    if !d.is_repository_root {
        lemma_build_agree_entries(d.entries, abs, rel, c1, c2);
    }
}

proof fn lemma_build_agree_entries(
    es: Seq<FsEntryModel>,
    abs: Seq<char>,
    rel: Seq<char>,
    c1: ContextModel,
    c2: ContextModel,
)
    requires
        entries_valid(es),
        entry_names_unique(es),
    ensures
        ({
            let cs1 = spec_build_entries(es, abs, rel, c1);
            let cs2 = spec_build_entries(es, abs, rel, c2);
            &&& cs1.len() == es.len()
            &&& cs2.len() == es.len()
            &&& crate::merge::child_paths_unique(cs1)
            &&& crate::merge::child_paths_unique(cs2)
            &&& crate::merge::seq_scan_agree(cs1, cs2)
        }),
    decreases es, 23int,
{
    let cs1 = spec_build_entries(es, abs, rel, c1);
    let cs2 = spec_build_entries(es, abs, rel, c2);
    lemma_spec_build_entries_pointwise(es, abs, rel, c1);
    lemma_spec_build_entries_pointwise(es, abs, rel, c2);
    assert forall|i: int, j: int| 0 <= i < j < cs1.len() implies cs1[i].relative_path
        != cs1[j].relative_path by {
        lemma_build_entry_rel(es[i], abs, rel, c1);
        lemma_build_entry_rel(es[j], abs, rel, c1);
        lemma_child_rel_injective(rel, entry_name(es[i]), entry_name(es[j]));
    }
    assert forall|i: int, j: int| 0 <= i < j < cs2.len() implies cs2[i].relative_path
        != cs2[j].relative_path by {
        lemma_build_entry_rel(es[i], abs, rel, c2);
        lemma_build_entry_rel(es[j], abs, rel, c2);
        lemma_child_rel_injective(rel, entry_name(es[i]), entry_name(es[j]));
    }
    if es.len() > 0 {
        lemma_build_agree_entry(es[0], abs, rel, c1, c2);
        let es1 = es.subrange(1, es.len() as int);
        assert(entry_names_unique(es1)) by {
            assert(forall|i: int, j: int|
                0 <= i < j < es1.len() ==> es1[i] == es[i + 1] && es1[j] == es[j + 1]);
        }
        lemma_build_agree_entries(es1, abs, rel, c1, c2);
        assert(cs1.subrange(1, cs1.len() as int) =~= spec_build_entries(es1, abs, rel, c1));
        assert(cs2.subrange(1, cs2.len() as int) =~= spec_build_entries(es1, abs, rel, c2));
    }
}

proof fn lemma_build_agree_entry(
    e: FsEntryModel,
    abs: Seq<char>,
    rel: Seq<char>,
    c1: ContextModel,
    c2: ContextModel,
)
    requires
        entry_valid(e),
    ensures
        crate::merge::scan_agree(
            spec_build_entry(e, abs, rel, c1),
            spec_build_entry(e, abs, rel, c2),
        ),
    decreases e, 25int,
{
    match e {
        FsEntryModel::File { .. } => {},
        FsEntryModel::Folder(d) => {
            lemma_build_agree_folder(
                d,
                spec_join(abs, d.name),
                spec_child_rel(rel, d.name),
                c1,
                c2,
            );
        },
    }
}

/// A tree built from a valid listing satisfies the tree invariant: the
/// root's relative path is the root marker `.`, every node's relative
/// path is portable and unique within the whole tree, and so, in
/// particular, are the relative paths of its files.
pub proof fn lemma_generate_tree_paths(d: FsFolderModel, abs: Seq<char>, ctx: ContextModel)
    requires
        listing_valid(d),
    ensures
        ({
            let ps = crate::tree::node_paths(spec_build_folder(d, abs, "."@, ctx));
            let fps = crate::tree::file_paths(spec_build_folder(d, abs, "."@, ctx));
            &&& ps.len() > 0
            &&& ps[0] == "."@
            &&& crate::tree::paths_unique(ps)
            &&& forall|k: int| 0 <= k < ps.len() ==> crate::tree::portable_path(#[trigger] ps[k])
            &&& crate::tree::paths_unique(fps)
            &&& forall|k: int| 0 <= k < fps.len() ==> crate::tree::portable_path(#[trigger] fps[k])
        }),
{
    reveal_strlit(".");
    assert(crate::tree::portable_path("."@));
    lemma_build_folder_paths(d, abs, "."@, ctx);
}

} // verus!
