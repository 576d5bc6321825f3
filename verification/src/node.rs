//! The tree data model and the per-file synchronization decision engine.

use vstd::prelude::*;
use vstd::string::StringExecFns;

use crate::snapshot_file_name;
use crate::snapshot_file_name_str;

verus! {

/// Whether a node stands for a regular file or for a folder.
#[derive(Clone, Copy, Debug, PartialEq, Eq, Structural)]
pub enum NodeKind {
    File,
    Folder,
}

/// Direction in which a conflict between a local and a remote version of
/// the same file is resolved.
#[derive(Clone, Copy, Debug, PartialEq, Eq, Structural)]
pub enum SyncAction {
    /// The local file is newer; it should be sent to the remote store.
    Upload,
    /// The remote file is newer; it should be fetched.
    Download,
    /// The two versions are in sync, or no decision can be made.
    NoAction,
}

/// Mathematical model of a [`FileNode`]: every string is a sequence of
/// characters and the children form a sequence of models. Two nodes are
/// observably equal exactly when their models are equal.
pub ghost struct NodeModel {
    pub name: Seq<char>,
    pub kind: NodeKind,
    pub absolute_path: Seq<char>,
    pub relative_path: Seq<char>,
    pub children: Option<Seq<NodeModel>>,
    pub repository_origin: Option<Seq<char>>,
    pub size_bytes: Option<u64>,
    pub modified_at: Option<u64>,
    pub content_hash: Option<Seq<char>>,
    pub last_synced_at: Option<u64>,
    pub sync_session_id: Option<Seq<char>>,
    pub writer_id: Option<Seq<char>>,
}

/// One entry of the tracked directory tree: a file or a folder together
/// with its synchronization metadata.
///
/// `relative_path` is anchored at the synchronization root, uses forward
/// slashes, and never starts with a slash; it is the portable identity of
/// the node across machines. `size_bytes` and `modified_at` are only
/// meaningful for files and may be absent when the file could not be
/// inspected; absence is treated conservatively by the decision engine.
/// `last_synced_at` is only ever set after a confirmed transfer or carried
/// forward from the previous snapshot by the merger. `content_hash` is
/// reserved and never set by this engine.
#[derive(Debug)]
pub struct FileNode {
    pub name: String,
    pub kind: NodeKind,
    pub absolute_path: String,
    pub relative_path: String,
    pub children: Option<Vec<FileNode>>,
    pub repository_origin: Option<String>,
    pub size_bytes: Option<u64>,
    pub modified_at: Option<u64>,
    pub content_hash: Option<String>,
    pub last_synced_at: Option<u64>,
    pub sync_session_id: Option<String>,
    pub writer_id: Option<String>,
}

pub open spec fn opt_string_view(o: Option<String>) -> Option<Seq<char>> {
    match o {
        Some(s) => Some(s@),
        None => None,
    }
}

/// The model of a node: its strings as character sequences and its
/// children, recursively, as models.
pub open spec fn node_model(n: FileNode) -> NodeModel
    decreases n, 1int,
{
    NodeModel {
        name: n.name@,
        kind: n.kind,
        absolute_path: n.absolute_path@,
        relative_path: n.relative_path@,
        children: match n.children {
            Some(cs) => Some(seq_node_models(cs@)),
            None => None,
        },
        repository_origin: opt_string_view(n.repository_origin),
        size_bytes: n.size_bytes,
        modified_at: n.modified_at,
        content_hash: opt_string_view(n.content_hash),
        last_synced_at: n.last_synced_at,
        sync_session_id: opt_string_view(n.sync_session_id),
        writer_id: opt_string_view(n.writer_id),
    }
}

/// The models of a sequence of nodes, in order.
pub open spec fn seq_node_models(s: Seq<FileNode>) -> Seq<NodeModel>
    decreases s, 0int,
{
    if s.len() == 0 {
        Seq::empty()
    } else {
        seq![node_model(s[0])] + seq_node_models(s.subrange(1, s.len() as int))
    }
}

/// `seq_node_models` maps the sequence pointwise.
pub proof fn lemma_seq_node_models(s: Seq<FileNode>)
    ensures
        seq_node_models(s).len() == s.len(),
        forall|i: int| 0 <= i < s.len() ==> seq_node_models(s)[i] == node_model(s[i]),
    decreases s.len(),
{
    if s.len() > 0 {
        lemma_seq_node_models(s.subrange(1, s.len() as int));
    }
}

impl View for FileNode {
    type V = NodeModel;

    open spec fn view(&self) -> NodeModel {
        node_model(*self)
    }
}

/// Whether a file is stale: it has a known modification time and either
/// was never synchronized or was modified after its last synchronization.
/// Folders and the snapshot document itself are never stale, and a file
/// whose modification time is unknown is conservatively left alone.
pub open spec fn spec_needs_sync(m: NodeModel) -> bool {
    &&& m.kind is File
    &&& m.relative_path != snapshot_file_name()
    &&& match (m.modified_at, m.last_synced_at) {
        (Some(modified), Some(last_synced)) => modified > last_synced,
        (Some(_), None) => true,
        _ => false,
    }
}

/// Whether `a`'s content is more recent than `b`'s, treating an unknown
/// modification time as oldest.
pub open spec fn spec_is_newer_than(a: NodeModel, b: NodeModel) -> bool {
    match (a.modified_at, b.modified_at) {
        (Some(a_mod), Some(b_mod)) => a_mod > b_mod,
        (Some(_), None) => true,
        _ => false,
    }
}

/// Last-writer-wins conflict resolution between a local (`a`) and a remote
/// (`b`) version of one file. Mismatched paths yield no action; a size
/// difference is resolved by recency; equal sizes are resolved by
/// comparing modification times directly, with ties (and double unknowns)
/// resolving to no action. Content is never inspected.
pub open spec fn spec_compare_for_sync(a: NodeModel, b: NodeModel) -> SyncAction {
    if a.relative_path != b.relative_path {
        SyncAction::NoAction
    } else if a.size_bytes != b.size_bytes {
        if spec_is_newer_than(a, b) {
            SyncAction::Upload
        } else {
            SyncAction::Download
        }
    } else {
        match (a.modified_at, b.modified_at) {
            (Some(a_mod), Some(b_mod)) => if a_mod > b_mod {
                SyncAction::Upload
            } else if b_mod > a_mod {
                SyncAction::Download
            } else {
                SyncAction::NoAction
            },
            (Some(_), None) => SyncAction::Upload,
            (None, Some(_)) => SyncAction::Download,
            (None, None) => SyncAction::NoAction,
        }
    }
}

impl FileNode {
    /// Whether this node represents a file.
    pub fn is_file(&self) -> (r: bool)
        ensures
            r == (self@.kind is File),
    {
        match self.kind {
            NodeKind::File => true,
            NodeKind::Folder => false,
        }
    }

    /// Whether this node represents a folder.
    pub fn is_folder(&self) -> (r: bool)
        ensures
            r == (self@.kind is Folder),
    {
        match self.kind {
            NodeKind::File => false,
            NodeKind::Folder => true,
        }
    }

    /// Whether this file was modified strictly after `timestamp`; a node
    /// with no known modification time counts as unmodified.
    pub fn is_modified_since(&self, timestamp: u64) -> (r: bool)
        ensures
            r == match self@.modified_at {
                Some(modified) => modified > timestamp,
                None => false,
            },
    {
        match self.modified_at {
            Some(modified) => modified > timestamp,
            None => false,
        }
    }

    /// Whether this file must be transferred: see [`spec_needs_sync`].
    pub fn needs_sync(&self) -> (r: bool)
        ensures
            r == spec_needs_sync(self@),
    {
        if self.is_folder() {
            return false;
        }
        let snapshot_name = String::from_str(snapshot_file_name_str());
        if self.relative_path == snapshot_name {
            return false;
        }
        match (self.modified_at, self.last_synced_at) {
            (Some(modified), Some(last_synced)) => modified > last_synced,
            (Some(_), None) => true,
            _ => false,
        }
    }

    /// The portable, forward-slash relative path of this node.
    pub fn get_cross_platform_path(&self) -> (r: &str)
        ensures
            r@ == self@.relative_path,
    {
        self.relative_path.as_str()
    }

    /// Whether this version is more recent than `other`: see
    /// [`spec_is_newer_than`].
    pub fn is_newer_than(&self, other: &FileNode) -> (r: bool)
        ensures
            r == spec_is_newer_than(self@, other@),
    {
        match (self.modified_at, other.modified_at) {
            (Some(self_mod), Some(other_mod)) => self_mod > other_mod,
            (Some(_), None) => true,
            _ => false,
        }
    }

    /// Resolve a conflict between this (local) version and `other` (the
    /// remote version): see [`spec_compare_for_sync`].
    pub fn compare_for_sync(&self, other: &FileNode) -> (r: SyncAction)
        ensures
            r == spec_compare_for_sync(self@, other@),
    {
        if !(self.relative_path == other.relative_path) {
            return SyncAction::NoAction;
        }
        let sizes_equal = match (self.size_bytes, other.size_bytes) {
            (Some(a), Some(b)) => a == b,
            (None, None) => true,
            _ => false,
        };
        if !sizes_equal {
            return if self.is_newer_than(other) {
                SyncAction::Upload
            } else {
                SyncAction::Download
            };
        }
        match (self.modified_at, other.modified_at) {
            (Some(self_mod), Some(other_mod)) => if self_mod > other_mod {
                SyncAction::Upload
            } else if other_mod > self_mod {
                SyncAction::Download
            } else {
                SyncAction::NoAction
            },
            (Some(_), None) => SyncAction::Upload,
            (None, Some(_)) => SyncAction::Download,
            (None, None) => SyncAction::NoAction,
        }
    }
}

/// A file about which nothing is known — neither a modification time nor
/// a previous synchronization — is never considered stale: missing
/// metadata must not trigger transfers.
pub proof fn lemma_unknown_metadata_never_syncs(m: NodeModel)
    requires
        m.modified_at is None,
        m.last_synced_at is None,
    ensures
        !spec_needs_sync(m),
{
}

/// Exact characterization of staleness for an ordinary file (one that is
/// not the snapshot document itself): it needs synchronization exactly
/// when it was modified but never synchronized, or modified after its
/// last synchronization.
pub proof fn lemma_needs_sync_characterization(m: NodeModel)
    requires
        m.kind is File,
        m.relative_path != snapshot_file_name(),
    ensures
        spec_needs_sync(m) <==> ((m.last_synced_at is None && m.modified_at is Some) || (
        m.modified_at is Some && m.last_synced_at is Some && m.modified_at->0
            > m.last_synced_at->0)),
{
}

/// Conflict resolution is anti-symmetric: when one side must upload, the
/// opposite point of view must download, and "nothing to do" is its own
/// mirror image.
pub proof fn lemma_compare_for_sync_antisymmetric(a: NodeModel, b: NodeModel)
    ensures
        spec_compare_for_sync(a, b) is Upload ==> spec_compare_for_sync(b, a) is Download,
        spec_compare_for_sync(a, b) is NoAction <==> spec_compare_for_sync(b, a) is NoAction,
{
}

} // verus!
