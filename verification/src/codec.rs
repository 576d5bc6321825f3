//! Executable renderer and parser for the snapshot document, verified
//! against the ghost forms in [`crate::snapshot`].

use vstd::prelude::*;

use crate::jsontext::chars_to_string;
use crate::jsontext::expect_lit;
use crate::jsontext::lemma_sp_strbody_bounds;
use crate::jsontext::parse_string_body;
use crate::jsontext::parse_u64;
use crate::jsontext::push_escaped_chars;
use crate::jsontext::push_str_chars;
use crate::jsontext::push_u64_chars;
use crate::node::FileNode;
use crate::node::NodeKind;
use crate::node::NodeModel;
use crate::node::lemma_seq_node_models;
use crate::node::node_model;
use crate::node::opt_string_view;
use crate::node::seq_node_models;
use crate::snapshot::l_absolute_path;
use crate::snapshot::l_children;
use crate::snapshot::l_content_hash;
use crate::snapshot::l_kind;
use crate::snapshot::l_last_synced_at;
use crate::snapshot::l_modified_at;
use crate::snapshot::l_name;
use crate::snapshot::l_relative_path;
use crate::snapshot::l_repository_origin;
use crate::snapshot::l_size_bytes;
use crate::snapshot::l_sync_session_id;
use crate::snapshot::l_writer_id;
use crate::snapshot::render_children;
use crate::snapshot::render_children_opt;
use crate::snapshot::render_kind;
use crate::snapshot::render_model;
use crate::snapshot::render_after_name;
use crate::snapshot::render_after_kind;
use crate::snapshot::render_after_abs;
use crate::snapshot::render_after_rel;
use crate::snapshot::render_after_children;
use crate::snapshot::render_after_origin;
use crate::snapshot::render_after_size;
use crate::snapshot::render_after_modified;
use crate::snapshot::render_after_hash;
use crate::snapshot::render_after_synced;
use crate::snapshot::render_after_session;
use crate::snapshot::render_opt_string;
use crate::snapshot::render_opt_u64;
use crate::snapshot::render_string;
use crate::snapshot::sp_children;
use crate::snapshot::sp_children_opt;
use crate::snapshot::sp_kind;
use crate::snapshot::sp_node;
use crate::snapshot::sp_opt_string;
use crate::snapshot::sp_opt_u64;
use crate::snapshot::sp_string;

verus! {

/// The models of an optional child vector.
pub open spec fn opt_children_models(oc: Option<Vec<FileNode>>) -> Option<Seq<NodeModel>> {
    match oc {
        Some(v) => Some(seq_node_models(v@)),
        None => None,
    }
}

// ---------------------------------------------------------------------
// Rendering
// ---------------------------------------------------------------------
/// Append a quoted, escaped string.
fn push_string_render(out: &mut Vec<char>, s: &String)
    ensures
        final(out)@ == old(out)@ + render_string(s@),
{
    out.push('"');
    push_escaped_chars(out, s.as_str());
    out.push('"');
    proof {
        assert(out@ =~= old(out)@ + render_string(s@));
    }
}

/// Append `null` or a quoted string.
fn push_opt_string_render(out: &mut Vec<char>, o: &Option<String>)
    ensures
        final(out)@ == old(out)@ + render_opt_string(opt_string_view(*o)),
{
    match o {
        None => push_str_chars(out, "null"),
        Some(s) => push_string_render(out, s),
    }
}

/// Append `null` or a decimal numeral.
fn push_opt_u64_render(out: &mut Vec<char>, o: Option<u64>)
    ensures
        final(out)@ == old(out)@ + render_opt_u64(o),
{
    match o {
        None => push_str_chars(out, "null"),
        Some(v) => push_u64_chars(out, v),
    }
}

/// Append the document of one node.
pub(crate) fn render_node_into(out: &mut Vec<char>, n: &FileNode)
    ensures
        final(out)@ == old(out)@ + render_model(n@),
    decreases *n, 13int,
{
    push_str_chars(out, "{\"name\":");
    push_string_render(out, &n.name);
    render_after_name_into(out, n);
    proof {
        assert(out@ =~= old(out)@ + render_model(n@));
    }
}

/// Append the `kind` field and what follows it.
fn render_after_name_into(out: &mut Vec<char>, n: &FileNode)
    ensures
        final(out)@ == old(out)@ + render_after_name(n@),
    decreases *n, 12int,
{
    push_str_chars(out, ",\"kind\":");
    match n.kind {
        NodeKind::File => push_str_chars(out, "\"file\""),
        NodeKind::Folder => push_str_chars(out, "\"folder\""),
    }
    render_after_kind_into(out, n);
    proof {
        assert(out@ =~= old(out)@ + render_after_name(n@));
    }
}

/// Append the `absolute_path` field and what follows it.
fn render_after_kind_into(out: &mut Vec<char>, n: &FileNode)
    ensures
        final(out)@ == old(out)@ + render_after_kind(n@),
    decreases *n, 11int,
{
    push_str_chars(out, ",\"absolute_path\":");
    push_string_render(out, &n.absolute_path);
    render_after_abs_into(out, n);
    proof {
        assert(out@ =~= old(out)@ + render_after_kind(n@));
    }
}

/// Append the `relative_path` field and what follows it.
fn render_after_abs_into(out: &mut Vec<char>, n: &FileNode)
    ensures
        final(out)@ == old(out)@ + render_after_abs(n@),
    decreases *n, 10int,
{
    push_str_chars(out, ",\"relative_path\":");
    push_string_render(out, &n.relative_path);
    render_after_rel_into(out, n);
    proof {
        assert(out@ =~= old(out)@ + render_after_abs(n@));
    }
}

/// Append the `children` field and what follows it.
fn render_after_rel_into(out: &mut Vec<char>, n: &FileNode)
    ensures
        final(out)@ == old(out)@ + render_after_rel(n@),
    decreases *n, 9int,
{
    push_str_chars(out, ",\"children\":");
    match &n.children {
        None => push_str_chars(out, "null"),
        Some(cs) => {
            out.push('[');
            if cs.len() > 0 {
                proof {
                    assert(cs@.subrange(0, cs@.len() as int) =~= cs@);
                }
                render_children_into(out, cs, 0);
            }
            out.push(']');
            proof {
                lemma_seq_node_models(cs@);
                if cs@.len() == 0 {
                    assert(seq_node_models(cs@) =~= Seq::<NodeModel>::empty());
                } else {
                    assert(seq_node_models(cs@).subrange(0, cs@.len() as int) =~= seq_node_models(
                        cs@,
                    ));
                }
                assert(n@.children == Some(seq_node_models(cs@)));
                assert(render_children_opt(n@.children) =~= seq!['['] + (render_children(
                    seq_node_models(cs@),
                ) + seq![']']));
            }
        },
    }
    render_after_children_into(out, n);
    proof {
        assert(out@ =~= old(out)@ + render_after_rel(n@));
    }
}

/// Append the `repository_origin` field and what follows it.
fn render_after_children_into(out: &mut Vec<char>, n: &FileNode)
    ensures
        final(out)@ == old(out)@ + render_after_children(n@),
    decreases *n, 8int,
{
    push_str_chars(out, ",\"repository_origin\":");
    push_opt_string_render(out, &n.repository_origin);
    render_after_origin_into(out, n);
    proof {
        assert(out@ =~= old(out)@ + render_after_children(n@));
    }
}

/// Append the `size_bytes` field and what follows it.
fn render_after_origin_into(out: &mut Vec<char>, n: &FileNode)
    ensures
        final(out)@ == old(out)@ + render_after_origin(n@),
    decreases *n, 7int,
{
    push_str_chars(out, ",\"size_bytes\":");
    push_opt_u64_render(out, n.size_bytes);
    render_after_size_into(out, n);
    proof {
        assert(out@ =~= old(out)@ + render_after_origin(n@));
    }
}

/// Append the `modified_at` field and what follows it.
fn render_after_size_into(out: &mut Vec<char>, n: &FileNode)
    ensures
        final(out)@ == old(out)@ + render_after_size(n@),
    decreases *n, 6int,
{
    push_str_chars(out, ",\"modified_at\":");
    push_opt_u64_render(out, n.modified_at);
    render_after_modified_into(out, n);
    proof {
        assert(out@ =~= old(out)@ + render_after_size(n@));
    }
}

/// Append the `content_hash` field and what follows it.
fn render_after_modified_into(out: &mut Vec<char>, n: &FileNode)
    ensures
        final(out)@ == old(out)@ + render_after_modified(n@),
    decreases *n, 5int,
{
    push_str_chars(out, ",\"content_hash\":");
    push_opt_string_render(out, &n.content_hash);
    render_after_hash_into(out, n);
    proof {
        assert(out@ =~= old(out)@ + render_after_modified(n@));
    }
}

/// Append the `last_synced_at` field and what follows it.
fn render_after_hash_into(out: &mut Vec<char>, n: &FileNode)
    ensures
        final(out)@ == old(out)@ + render_after_hash(n@),
    decreases *n, 4int,
{
    push_str_chars(out, ",\"last_synced_at\":");
    push_opt_u64_render(out, n.last_synced_at);
    render_after_synced_into(out, n);
    proof {
        assert(out@ =~= old(out)@ + render_after_hash(n@));
    }
}

/// Append the `sync_session_id` field and what follows it.
fn render_after_synced_into(out: &mut Vec<char>, n: &FileNode)
    ensures
        final(out)@ == old(out)@ + render_after_synced(n@),
    decreases *n, 3int,
{
    push_str_chars(out, ",\"sync_session_id\":");
    push_opt_string_render(out, &n.sync_session_id);
    render_after_session_into(out, n);
    proof {
        assert(out@ =~= old(out)@ + render_after_synced(n@));
    }
}

/// Append the `writer_id` field and what follows it.
fn render_after_session_into(out: &mut Vec<char>, n: &FileNode)
    ensures
        final(out)@ == old(out)@ + render_after_session(n@),
    decreases *n, 2int,
{
    push_str_chars(out, ",\"writer_id\":");
    push_opt_string_render(out, &n.writer_id);
    out.push('}');
    proof {
        assert(out@ =~= old(out)@ + render_after_session(n@));
    }
}

/// Append the documents of `cs[k..]`, comma separated.
fn render_children_into(out: &mut Vec<char>, cs: &Vec<FileNode>, k: usize)
    requires
        k < cs@.len(),
    ensures
        final(out)@ == old(out)@ + render_children(
            seq_node_models(cs@).subrange(k as int, cs@.len() as int),
        ),
    decreases cs@.subrange(k as int, cs@.len() as int), 0int,
{
    proof {
        lemma_seq_node_models(cs@);
        assert(cs@.subrange(k as int, cs@.len() as int)[0] == cs@[k as int]);
    }
    render_node_into(out, &cs[k]);
    let ghost ms = seq_node_models(cs@);
    let ghost sub = ms.subrange(k as int, cs@.len() as int);
    if k < cs.len() - 1 {
        out.push(',');
        proof {
            assert(cs@.subrange(k + 1, cs@.len() as int) =~= cs@.subrange(
                k as int,
                cs@.len() as int,
            ).subrange(1, cs@.len() - k));
        }
        render_children_into(out, cs, k + 1);
        proof {
            assert(sub.subrange(1, sub.len() as int) =~= ms.subrange(k + 1, cs@.len() as int));
            assert(sub[0] == node_model(cs@[k as int]));
            assert(render_children(sub) == render_model(sub[0]) + (seq![','] + render_children(
                sub.subrange(1, sub.len() as int),
            )));
            assert(out@ =~= old(out)@ + render_children(sub));
        }
    } else {
        proof {
            assert(sub.len() == 1);
            assert(sub[0] == node_model(cs@[k as int]));
            assert(render_children(sub) == render_model(sub[0]));
        }
    }
}

/// Render the whole snapshot document for a tree.
pub fn render_snapshot(tree: &FileNode) -> (out: Vec<char>)
    ensures
        out@ == render_model(tree@),
{
    let mut out: Vec<char> = Vec::new();
    render_node_into(&mut out, tree);
    proof {
        assert(Seq::<char>::empty() + render_model(tree@) =~= render_model(tree@));
    }
    out
}

// ---------------------------------------------------------------------
// Parsing
// ---------------------------------------------------------------------
/// Read a quoted string.
fn parse_string(t: &Vec<char>, i: usize) -> (r: Option<(String, usize)>)
    ensures
        match r {
            Some(p) => sp_string(t@, i as int) == Some((p.0@, p.1 as int)) && i < p.1 <= t@.len(),
            None => sp_string(t@, i as int) is None,
        },
{
    if i < t.len() && t[i] == '"' {
        proof {
            lemma_sp_strbody_bounds(t@, i + 1);
        }
        parse_string_body(t, i + 1)
    } else {
        None
    }
}

/// Read `null` or a quoted string.
fn parse_opt_string(t: &Vec<char>, i: usize) -> (r: Option<(Option<String>, usize)>)
    ensures
        match r {
            Some(p) => sp_opt_string(t@, i as int) == Some((opt_string_view(p.0), p.1 as int))
                && i <= p.1 <= t@.len(),
            None => sp_opt_string(t@, i as int) is None,
        },
{
    match expect_lit(t, i, "null") {
        Some(j) => Some((None, j)),
        None => match parse_string(t, i) {
            Some((s, j)) => Some((Some(s), j)),
            None => None,
        },
    }
}

/// Read `null` or a decimal numeral.
fn parse_opt_u64(t: &Vec<char>, i: usize) -> (r: Option<(Option<u64>, usize)>)
    ensures
        match r {
            Some(p) => sp_opt_u64(t@, i as int) == Some((p.0, p.1 as int)) && i <= p.1
                <= t@.len(),
            None => sp_opt_u64(t@, i as int) is None,
        },
{
    match expect_lit(t, i, "null") {
        Some(j) => Some((None, j)),
        None => match parse_u64(t, i) {
            Some((v, j)) => Some((Some(v), j)),
            None => None,
        },
    }
}

/// Read a node kind.
fn parse_kind(t: &Vec<char>, i: usize) -> (r: Option<(NodeKind, usize)>)
    ensures
        match r {
            Some(p) => sp_kind(t@, i as int) == Some((p.0, p.1 as int)) && i <= p.1 <= t@.len(),
            None => sp_kind(t@, i as int) is None,
        },
{
    match expect_lit(t, i, "\"file\"") {
        Some(j) => Some((NodeKind::File, j)),
        None => match expect_lit(t, i, "\"folder\"") {
            Some(j) => Some((NodeKind::Folder, j)),
            None => None,
        },
    }
}

/// Read one whole node document.
#[verifier::rlimit(100)]
pub(crate) fn parse_node(t: &Vec<char>, i: usize) -> (r: Option<(FileNode, usize)>)
    ensures
        match r {
            Some(p) => sp_node(t@, i as int) == Some((p.0@, p.1 as int)) && i < p.1 <= t@.len(),
            None => sp_node(t@, i as int) is None,
        },
    decreases t@.len() - i, 1int,
{
    let i1 = match expect_lit(t, i, "{\"name\":") {
        Some(j) => j,
        None => {
            return None;
        },
    };
    let (name, i2) = match parse_string(t, i1) {
        Some(p) => p,
        None => {
            return None;
        },
    };
    let i3 = match expect_lit(t, i2, ",\"kind\":") {
        Some(j) => j,
        None => {
            return None;
        },
    };
    let (kind, i4) = match parse_kind(t, i3) {
        Some(p) => p,
        None => {
            return None;
        },
    };
    let i5 = match expect_lit(t, i4, ",\"absolute_path\":") {
        Some(j) => j,
        None => {
            return None;
        },
    };
    let (absolute_path, i6) = match parse_string(t, i5) {
        Some(p) => p,
        None => {
            return None;
        },
    };
    let i7 = match expect_lit(t, i6, ",\"relative_path\":") {
        Some(j) => j,
        None => {
            return None;
        },
    };
    let (relative_path, i8) = match parse_string(t, i7) {
        Some(p) => p,
        None => {
            return None;
        },
    };
    let i9 = match expect_lit(t, i8, ",\"children\":") {
        Some(j) => j,
        None => {
            return None;
        },
    };
    proof {
        reveal_strlit(",\"children\":");
        assert(l_children().len() > 0);
        assert(i < i9);
    }
    let (children, i10) = match parse_children_opt(t, i9) {
        Some(p) => p,
        None => {
            return None;
        },
    };
    let i11 = match expect_lit(t, i10, ",\"repository_origin\":") {
        Some(j) => j,
        None => {
            return None;
        },
    };
    let (repository_origin, i12) = match parse_opt_string(t, i11) {
        Some(p) => p,
        None => {
            return None;
        },
    };
    let i13 = match expect_lit(t, i12, ",\"size_bytes\":") {
        Some(j) => j,
        None => {
            return None;
        },
    };
    let (size_bytes, i14) = match parse_opt_u64(t, i13) {
        Some(p) => p,
        None => {
            return None;
        },
    };
    let i15 = match expect_lit(t, i14, ",\"modified_at\":") {
        Some(j) => j,
        None => {
            return None;
        },
    };
    let (modified_at, i16) = match parse_opt_u64(t, i15) {
        Some(p) => p,
        None => {
            return None;
        },
    };
    let i17 = match expect_lit(t, i16, ",\"content_hash\":") {
        Some(j) => j,
        None => {
            return None;
        },
    };
    let (content_hash, i18) = match parse_opt_string(t, i17) {
        Some(p) => p,
        None => {
            return None;
        },
    };
    let i19 = match expect_lit(t, i18, ",\"last_synced_at\":") {
        Some(j) => j,
        None => {
            return None;
        },
    };
    let (last_synced_at, i20) = match parse_opt_u64(t, i19) {
        Some(p) => p,
        None => {
            return None;
        },
    };
    let i21 = match expect_lit(t, i20, ",\"sync_session_id\":") {
        Some(j) => j,
        None => {
            return None;
        },
    };
    let (sync_session_id, i22) = match parse_opt_string(t, i21) {
        Some(p) => p,
        None => {
            return None;
        },
    };
    let i23 = match expect_lit(t, i22, ",\"writer_id\":") {
        Some(j) => j,
        None => {
            return None;
        },
    };
    let (writer_id, i24) = match parse_opt_string(t, i23) {
        Some(p) => p,
        None => {
            return None;
        },
    };
    if i24 < t.len() && t[i24] == '}' {
        let node = FileNode {
            name,
            kind,
            absolute_path,
            relative_path,
            children,
            repository_origin,
            size_bytes,
            modified_at,
            content_hash,
            last_synced_at,
            sync_session_id,
            writer_id,
        };
        proof {
            assert(sp_node(t@, i as int) is Some);
            assert((sp_node(t@, i as int)->0).0 == node@);
        }
        Some((node, i24 + 1))
    } else {
        None
    }
}

/// Read the children field: `null`, `[]`, or a bracketed list.
fn parse_children_opt(t: &Vec<char>, i: usize) -> (r: Option<(Option<Vec<FileNode>>, usize)>)
    ensures
        match r {
            Some(p) => sp_children_opt(t@, i as int) == Some((opt_children_models(p.0), p.1 as int))
                && i < p.1 <= t@.len(),
            None => sp_children_opt(t@, i as int) is None,
        },
    decreases t@.len() - i, 0int,
{
    match expect_lit(t, i, "null") {
        Some(j) => {
            proof {
                reveal_strlit("null");
            }
            Some((None, j))
        },
        None => {
            if i < t.len() && t[i] == '[' {
                if i + 1 < t.len() && t[i + 1] == ']' {
                    let empty: Vec<FileNode> = Vec::new();
                    proof {
                        assert(seq_node_models(empty@) =~= Seq::<NodeModel>::empty());
                    }
                    Some((Some(empty), i + 2))
                } else {
                    match parse_children(t, i + 1) {
                        Some((v, j)) => Some((Some(v), j)),
                        None => None,
                    }
                }
            } else {
                None
            }
        },
    }
}

/// Read a non-empty comma-separated child list and its closing bracket.
fn parse_children(t: &Vec<char>, i: usize) -> (r: Option<(Vec<FileNode>, usize)>)
    ensures
        match r {
            Some(p) => sp_children(t@, i as int) == Some((seq_node_models(p.0@), p.1 as int)) && i
                < p.1 <= t@.len(),
            None => sp_children(t@, i as int) is None,
        },
    decreases t@.len() - i, 2int,
{
    let (node, j) = match parse_node(t, i) {
        Some(p) => p,
        None => {
            return None;
        },
    };
    if j < t.len() && t[j] == ',' {
        match parse_children(t, j + 1) {
            Some((mut rest, k)) => {
                let ghost rest0 = rest@;
                rest.insert(0, node);
                proof {
                    lemma_seq_node_models(rest@);
                    lemma_seq_node_models(rest0);
                    assert(rest@ =~= seq![node] + rest0);
                    assert(seq_node_models(rest@) =~= seq![node_model(node)] + seq_node_models(
                        rest0,
                    ));
                }
                Some((rest, k))
            },
            None => None,
        }
    } else if j < t.len() && t[j] == ']' {
        let mut v: Vec<FileNode> = Vec::new();
        v.push(node);
        proof {
            lemma_seq_node_models(v@);
            assert(seq_node_models(v@) =~= seq![node_model(node)]);
        }
        Some((v, j + 1))
    } else {
        None
    }
}

// ---------------------------------------------------------------------
// The whole document
// ---------------------------------------------------------------------
/// A full snapshot text parses exactly when it is one node document with
/// nothing after it.
pub open spec fn sp_snapshot(t: Seq<char>) -> Option<NodeModel> {
    match sp_node(t, 0) {
        Some((m, j)) => if j == t.len() {
            Some(m)
        } else {
            None
        },
        None => None,
    }
}

/// Parse a whole snapshot document.
pub fn parse_snapshot(text: &Vec<char>) -> (r: Option<FileNode>)
    ensures
        match r {
            Some(node) => sp_snapshot(text@) == Some(node@),
            None => sp_snapshot(text@) is None,
        },
{
    match parse_node(text, 0) {
        Some((node, j)) => if j == text.len() {
            Some(node)
        } else {
            None
        },
        None => None,
    }
}

/// Round trip: the snapshot document rendered from any tree parses back
/// to a tree equal to the original in every field.
pub proof fn lemma_snapshot_round_trip(m: NodeModel)
    ensures
        sp_snapshot(render_model(m)) == Some(m),
{
    let t = render_model(m);
    assert(t.subrange(0, t.len() as int) =~= t + Seq::<char>::empty());
    crate::snapshot::lemma_sp_node_of_render(t, 0, m, Seq::empty());
}

/// Checks that a text is a well-formed snapshot document.
pub struct JsonValidator;

impl JsonValidator {
    /// Whether `text` parses as a snapshot document.
    pub fn validate_json_format(text: &Vec<char>) -> (r: bool)
        ensures
            r == (sp_snapshot(text@) is Some),
    {
        parse_snapshot(text).is_some()
    }
}

} // verus!
