//! The durable snapshot document: a canonical JSON rendering of a node
//! tree, its parser, and the proof that parsing a rendered tree gives the
//! tree back unchanged.
//!
//! The document lists every field of every node explicitly, writing
//! absent optional fields as `null` so the schema stays stable. The
//! parser accepts exactly the canonical form the renderer produces; a
//! malformed or foreign document is rejected rather than partially
//! recovered.

use vstd::prelude::*;

use crate::jsontext::dec_digits;
use crate::jsontext::esc;
use crate::jsontext::is_digit;
use crate::jsontext::lemma_dec_digits;
use crate::jsontext::lemma_sp_strbody_of_esc;
use crate::jsontext::lit_at;
use crate::jsontext::sp_strbody;
use crate::jsontext::sp_u64;
use crate::jsontext::lemma_sp_u64_of_dec;
use crate::node::NodeKind;
use crate::node::NodeModel;

verus! {

// ---------------------------------------------------------------------
// The fixed pieces of the document
// ---------------------------------------------------------------------
pub open spec fn l_name() -> Seq<char> {
    "{\"name\":"@
}

pub open spec fn l_kind() -> Seq<char> {
    ",\"kind\":"@
}

pub open spec fn l_absolute_path() -> Seq<char> {
    ",\"absolute_path\":"@
}

pub open spec fn l_relative_path() -> Seq<char> {
    ",\"relative_path\":"@
}

pub open spec fn l_children() -> Seq<char> {
    ",\"children\":"@
}

pub open spec fn l_repository_origin() -> Seq<char> {
    ",\"repository_origin\":"@
}

pub open spec fn l_size_bytes() -> Seq<char> {
    ",\"size_bytes\":"@
}

pub open spec fn l_modified_at() -> Seq<char> {
    ",\"modified_at\":"@
}

pub open spec fn l_content_hash() -> Seq<char> {
    ",\"content_hash\":"@
}

pub open spec fn l_last_synced_at() -> Seq<char> {
    ",\"last_synced_at\":"@
}

pub open spec fn l_sync_session_id() -> Seq<char> {
    ",\"sync_session_id\":"@
}

pub open spec fn l_writer_id() -> Seq<char> {
    ",\"writer_id\":"@
}

pub open spec fn l_null() -> Seq<char> {
    "null"@
}

pub open spec fn l_file() -> Seq<char> {
    "\"file\""@
}

pub open spec fn l_folder() -> Seq<char> {
    "\"folder\""@
}

// ---------------------------------------------------------------------
// Rendering
// ---------------------------------------------------------------------
/// A quoted, escaped string.
pub open spec fn render_string(s: Seq<char>) -> Seq<char> {
    seq!['"'] + esc(s) + seq!['"']
}

/// An optional string: `null` or the quoted form.
pub open spec fn render_opt_string(o: Option<Seq<char>>) -> Seq<char> {
    match o {
        None => l_null(),
        Some(s) => render_string(s),
    }
}

/// An optional number: `null` or its decimal numeral.
pub open spec fn render_opt_u64(o: Option<u64>) -> Seq<char> {
    match o {
        None => l_null(),
        Some(v) => dec_digits(v as nat),
    }
}

pub open spec fn render_kind(k: NodeKind) -> Seq<char> {
    match k {
        NodeKind::File => l_file(),
        NodeKind::Folder => l_folder(),
    }
}

/// The full document for one node. Defined as a chain of suffix
/// functions, one per field, so that proofs can peel one field at a time.
pub open spec fn render_model(m: NodeModel) -> Seq<char>
    decreases m, 13int,
{
    l_name() + (render_string(m.name) + render_after_name(m))
}

pub open spec fn render_after_name(m: NodeModel) -> Seq<char>
    decreases m, 12int,
{
    l_kind() + (render_kind(m.kind) + render_after_kind(m))
}

pub open spec fn render_after_kind(m: NodeModel) -> Seq<char>
    decreases m, 11int,
{
    l_absolute_path() + (render_string(m.absolute_path) + render_after_abs(m))
}

pub open spec fn render_after_abs(m: NodeModel) -> Seq<char>
    decreases m, 10int,
{
    l_relative_path() + (render_string(m.relative_path) + render_after_rel(m))
}

pub open spec fn render_after_rel(m: NodeModel) -> Seq<char>
    decreases m, 9int,
{
    l_children() + (render_children_opt(m.children) + render_after_children(m))
}

pub open spec fn render_after_children(m: NodeModel) -> Seq<char>
    decreases m, 8int,
{
    l_repository_origin() + (render_opt_string(m.repository_origin) + render_after_origin(m))
}

pub open spec fn render_after_origin(m: NodeModel) -> Seq<char>
    decreases m, 7int,
{
    l_size_bytes() + (render_opt_u64(m.size_bytes) + render_after_size(m))
}

pub open spec fn render_after_size(m: NodeModel) -> Seq<char>
    decreases m, 6int,
{
    l_modified_at() + (render_opt_u64(m.modified_at) + render_after_modified(m))
}

pub open spec fn render_after_modified(m: NodeModel) -> Seq<char>
    decreases m, 5int,
{
    l_content_hash() + (render_opt_string(m.content_hash) + render_after_hash(m))
}

pub open spec fn render_after_hash(m: NodeModel) -> Seq<char>
    decreases m, 4int,
{
    l_last_synced_at() + (render_opt_u64(m.last_synced_at) + render_after_synced(m))
}

pub open spec fn render_after_synced(m: NodeModel) -> Seq<char>
    decreases m, 3int,
{
    l_sync_session_id() + (render_opt_string(m.sync_session_id) + render_after_session(m))
}

pub open spec fn render_after_session(m: NodeModel) -> Seq<char>
    decreases m, 2int,
{
    l_writer_id() + (render_opt_string(m.writer_id) + seq!['}'])
}

/// The children field: `null`, `[]`, or a bracketed comma-separated list.
pub open spec fn render_children_opt(oc: Option<Seq<NodeModel>>) -> Seq<char>
    decreases oc, 15int,
{
    match oc {
        None => l_null(),
        Some(cs) => seq!['['] + (render_children(cs) + seq![']']),
    }
}

/// A non-empty comma-separated list renders each child in order; the
/// empty list renders as nothing (the brackets come from the caller).
pub open spec fn render_children(cs: Seq<NodeModel>) -> Seq<char>
    decreases cs, 14int,
{
    if cs.len() == 0 {
        Seq::empty()
    } else if cs.len() == 1 {
        render_model(cs[0])
    } else {
        render_model(cs[0]) + (seq![','] + render_children(cs.subrange(1, cs.len() as int)))
    }
}

// ---------------------------------------------------------------------
// Parsing
// ---------------------------------------------------------------------
/// Consume the exact literal `lit` at `i`.
pub open spec fn sp_lit(t: Seq<char>, i: int, lit: Seq<char>) -> Option<int> {
    if lit_at(t, i, lit) {
        Some(i + lit.len() as int)
    } else {
        None
    }
}

/// Consume a quoted string at `i`.
pub open spec fn sp_string(t: Seq<char>, i: int) -> Option<(Seq<char>, int)> {
    if 0 <= i && i < t.len() && t[i] == '"' {
        sp_strbody(t, i + 1)
    } else {
        None
    }
}

/// Consume `null` or a quoted string at `i`.
pub open spec fn sp_opt_string(t: Seq<char>, i: int) -> Option<(Option<Seq<char>>, int)> {
    if lit_at(t, i, l_null()) {
        Some((None, i + l_null().len() as int))
    } else {
        match sp_string(t, i) {
            Some((s, j)) => Some((Some(s), j)),
            None => None,
        }
    }
}

/// Consume `null` or a decimal numeral at `i`.
pub open spec fn sp_opt_u64(t: Seq<char>, i: int) -> Option<(Option<u64>, int)> {
    if lit_at(t, i, l_null()) {
        Some((None, i + l_null().len() as int))
    } else {
        match sp_u64(t, i) {
            Some((v, j)) => Some((Some(v), j)),
            None => None,
        }
    }
}

/// Consume a node kind at `i`.
pub open spec fn sp_kind(t: Seq<char>, i: int) -> Option<(NodeKind, int)> {
    if lit_at(t, i, l_file()) {
        Some((NodeKind::File, i + l_file().len() as int))
    } else if lit_at(t, i, l_folder()) {
        Some((NodeKind::Folder, i + l_folder().len() as int))
    } else {
        None
    }
}

/// Consume one whole node document at `i`.
pub open spec fn sp_node(t: Seq<char>, i: int) -> Option<(NodeModel, int)>
    decreases t.len() - i, 1int,
{
    match sp_lit(t, i, l_name()) {
        None => None,
        Some(i1) => match sp_string(t, i1) {
            None => None,
            Some((name, i2)) => match sp_lit(t, i2, l_kind()) {
                None => None,
                Some(i3) => match sp_kind(t, i3) {
                    None => None,
                    Some((kind, i4)) => match sp_lit(t, i4, l_absolute_path()) {
                        None => None,
                        Some(i5) => match sp_string(t, i5) {
                            None => None,
                            Some((absolute_path, i6)) => match sp_lit(t, i6, l_relative_path()) {
                                None => None,
                                Some(i7) => match sp_string(t, i7) {
                                    None => None,
                                    Some((relative_path, i8)) => sp_node_fields(
                                        t,
                                        i,
                                        i8,
                                        name,
                                        kind,
                                        absolute_path,
                                        relative_path,
                                    ),
                                },
                            },
                        },
                    },
                },
            },
        },
    }
}

/// Continuation of [`sp_node`] from the `children` field on, carrying the
/// fields already read.
pub open spec fn sp_node_fields(
    t: Seq<char>,
    start: int,
    i8: int,
    name: Seq<char>,
    kind: NodeKind,
    absolute_path: Seq<char>,
    relative_path: Seq<char>,
) -> Option<(NodeModel, int)>
    decreases t.len() - start, 0int,
{
    if !(start <= i8) {
        None
    } else {
        match sp_lit(t, i8, l_children()) {
            None => None,
            Some(i9) => match (if start < i9 {
                sp_children_opt(t, i9)
            } else {
                None
            }) {
                None => None,
                Some((children, i10)) => match sp_lit(t, i10, l_repository_origin()) {
                    None => None,
                    Some(i11) => match sp_opt_string(t, i11) {
                        None => None,
                        Some((repository_origin, i12)) => match sp_lit(t, i12, l_size_bytes()) {
                            None => None,
                            Some(i13) => match sp_opt_u64(t, i13) {
                                None => None,
                                Some((size_bytes, i14)) => match sp_lit(t, i14, l_modified_at()) {
                                    None => None,
                                    Some(i15) => match sp_opt_u64(t, i15) {
                                        None => None,
                                        Some((modified_at, i16)) => sp_node_tail(
                                            t,
                                            i16,
                                            NodeModel {
                                                name,
                                                kind,
                                                absolute_path,
                                                relative_path,
                                                children,
                                                repository_origin,
                                                size_bytes,
                                                modified_at,
                                                content_hash: None,
                                                last_synced_at: None,
                                                sync_session_id: None,
                                                writer_id: None,
                                            },
                                        ),
                                    },
                                },
                            },
                        },
                    },
                },
            },
        }
    }
}

/// Final fields of a node document: hash, synchronization metadata, and
/// the closing brace.
pub open spec fn sp_node_tail(t: Seq<char>, i16: int, partial: NodeModel) -> Option<
    (NodeModel, int),
> {
    match sp_lit(t, i16, l_content_hash()) {
        None => None,
        Some(i17) => match sp_opt_string(t, i17) {
            None => None,
            Some((content_hash, i18)) => match sp_lit(t, i18, l_last_synced_at()) {
                None => None,
                Some(i19) => match sp_opt_u64(t, i19) {
                    None => None,
                    Some((last_synced_at, i20)) => match sp_lit(t, i20, l_sync_session_id()) {
                        None => None,
                        Some(i21) => match sp_opt_string(t, i21) {
                            None => None,
                            Some((sync_session_id, i22)) => match sp_lit(t, i22, l_writer_id()) {
                                None => None,
                                Some(i23) => match sp_opt_string(t, i23) {
                                    None => None,
                                    Some((writer_id, i24)) => if i24 < t.len() && t[i24] == '}' {
                                        Some(
                                            (
                                                NodeModel {
                                                    content_hash,
                                                    last_synced_at,
                                                    sync_session_id,
                                                    writer_id,
                                                    ..partial
                                                },
                                                i24 + 1,
                                            ),
                                        )
                                    } else {
                                        None
                                    },
                                },
                            },
                        },
                    },
                },
            },
        },
    }
}

/// Consume `null`, `[]`, or a bracketed child list at `i`.
pub open spec fn sp_children_opt(t: Seq<char>, i: int) -> Option<(Option<Seq<NodeModel>>, int)>
    decreases t.len() - i, 0int,
{
    if lit_at(t, i, l_null()) {
        Some((None, i + l_null().len() as int))
    } else if 0 <= i && i < t.len() && t[i] == '[' {
        if i + 1 < t.len() && t[i + 1] == ']' {
            Some((Some(Seq::empty()), i + 2))
        } else {
            match sp_children(t, i + 1) {
                None => None,
                Some((ms, j)) => Some((Some(ms), j)),
            }
        }
    } else {
        None
    }
}

/// Consume a non-empty comma-separated child list, up to and including
/// the closing bracket.
pub open spec fn sp_children(t: Seq<char>, i: int) -> Option<(Seq<NodeModel>, int)>
    decreases t.len() - i, 2int,
{
    match sp_node(t, i) {
        None => None,
        Some((m, j)) => if !(i < j && j <= t.len()) {
            None
        } else if j < t.len() && t[j] == ',' {
            match sp_children(t, j + 1) {
                None => None,
                Some((ms, k)) => Some((seq![m] + ms, k)),
            }
        } else if j < t.len() && t[j] == ']' {
            Some((seq![m], j + 1))
        } else {
            None
        },
    }
}

// ---------------------------------------------------------------------
// Round trip: parsing a rendered document recovers the model
// ---------------------------------------------------------------------
/// The remainder at `i + d` is the remainder at `i` with its first `d`
/// characters dropped.
pub proof fn lemma_shift(t: Seq<char>, i: int, d: int)
    requires
        0 <= i,
        0 <= d,
        i + d <= t.len(),
    ensures
        t.subrange(i + d, t.len() as int) == t.subrange(i, t.len() as int).subrange(
            d,
            t.len() - i,
        ),
{
    let lhs = t.subrange(i + d, t.len() as int);
    let rhs = t.subrange(i, t.len() as int).subrange(d, t.len() - i);
    assert forall|k: int| 0 <= k < t.len() - i - d implies lhs[k] == rhs[k] by {
        assert(t.subrange(i, t.len() as int)[k + d] == t[i + d + k]);
    }
    assert(lhs =~= rhs);
}

/// Peel a known literal off the front of the remaining text.
pub proof fn lemma_step3(t: Seq<char>, i: int, a: Seq<char>, b: Seq<char>, c: Seq<char>)
    requires
        0 <= i <= t.len(),
        t.subrange(i, t.len() as int) == (a + b) + c,
    ensures
        i + a.len() <= t.len(),
        lit_at(t, i, a),
        sp_lit(t, i, a) == Some(i + a.len() as int),
        t.subrange(i + a.len(), t.len() as int) == b + c,
{
    assert(t.subrange(i, t.len() as int).len() == a.len() + b.len() + c.len());
    assert(t.subrange(i, i + a.len() as int) =~= a);
    lemma_shift(t, i, a.len() as int);
    let rem = t.subrange(i, t.len() as int);
    assert(rem.subrange(a.len() as int, rem.len() as int) =~= b + c);
}

/// Peel a rendered string off the front of the remaining text.
pub proof fn lemma_string_step(t: Seq<char>, i: int, s: Seq<char>, b: Seq<char>, c: Seq<char>)
    requires
        0 <= i <= t.len(),
        t.subrange(i, t.len() as int) == (render_string(s) + b) + c,
    ensures
        i + render_string(s).len() <= t.len(),
        sp_string(t, i) == Some((s, i + render_string(s).len())),
        t.subrange(i + render_string(s).len(), t.len() as int) == b + c,
{
    let a = render_string(s);
    let rem = t.subrange(i, t.len() as int);
    assert(a == seq!['"'] + esc(s) + seq!['"']);
    assert(rem.len() == a.len() + b.len() + c.len());
    assert(t[i] == rem[0]);
    assert(rem[0] == a[0]);
    assert(a[0] == '"');
    lemma_shift(t, i, 1);
    assert(rem.subrange(1, rem.len() as int) =~= esc(s) + seq!['"'] + (b + c));
    lemma_sp_strbody_of_esc(t, i + 1, s, b + c);
    assert(a.len() == esc(s).len() + 2);
    lemma_shift(t, i, a.len() as int);
    assert(rem.subrange(a.len() as int, rem.len() as int) =~= b + c);
}

/// Peel a rendered optional string off the front.
pub proof fn lemma_opt_string_step(
    t: Seq<char>,
    i: int,
    o: Option<Seq<char>>,
    b: Seq<char>,
    c: Seq<char>,
)
    requires
        0 <= i <= t.len(),
        t.subrange(i, t.len() as int) == (render_opt_string(o) + b) + c,
    ensures
        i + render_opt_string(o).len() <= t.len(),
        sp_opt_string(t, i) == Some((o, i + render_opt_string(o).len())),
        t.subrange(i + render_opt_string(o).len(), t.len() as int) == b + c,
{
    reveal_strlit("null");
    let a = render_opt_string(o);
    let rem = t.subrange(i, t.len() as int);
    assert(rem.len() == a.len() + b.len() + c.len());
    match o {
        None => {
            lemma_step3(t, i, l_null(), b, c);
        },
        Some(s) => {
            assert(t[i] == rem[0]);
            assert(rem[0] == render_string(s)[0]);
            assert(render_string(s) == seq!['"'] + esc(s) + seq!['"']);
            assert(t[i] == '"');
            if lit_at(t, i, l_null()) {
                assert(t.subrange(i, i + l_null().len() as int)[0] == t[i]);
                assert(l_null()[0] == 'n');
            }
            assert(!lit_at(t, i, l_null()));
            lemma_string_step(t, i, s, b, c);
        },
    }
}

/// Peel a rendered optional number off the front. The following piece
/// must not begin with a digit, so the numeral's extent is unambiguous.
pub proof fn lemma_opt_u64_step(t: Seq<char>, i: int, o: Option<u64>, b: Seq<char>, c: Seq<char>)
    requires
        0 <= i <= t.len(),
        t.subrange(i, t.len() as int) == (render_opt_u64(o) + b) + c,
        b.len() > 0,
        !is_digit(b[0]),
    ensures
        i + render_opt_u64(o).len() <= t.len(),
        sp_opt_u64(t, i) == Some((o, i + render_opt_u64(o).len())),
        t.subrange(i + render_opt_u64(o).len(), t.len() as int) == b + c,
{
    reveal_strlit("null");
    let a = render_opt_u64(o);
    let rem = t.subrange(i, t.len() as int);
    assert(rem.len() == a.len() + b.len() + c.len());
    match o {
        None => {
            lemma_step3(t, i, l_null(), b, c);
        },
        Some(v) => {
            lemma_dec_digits(v as nat);
            assert(t[i] == rem[0]);
            assert(rem[0] == dec_digits(v as nat)[0]);
            assert(is_digit(t[i]));
            if lit_at(t, i, l_null()) {
                assert(t.subrange(i, i + l_null().len() as int)[0] == t[i]);
                assert(l_null()[0] == 'n');
            }
            assert(!lit_at(t, i, l_null()));
            assert(t.subrange(i, t.len() as int) =~= dec_digits(v as nat) + (b + c));
            assert((b + c)[0] == b[0]);
            lemma_sp_u64_of_dec(t, i, v, b + c);
            lemma_shift(t, i, a.len() as int);
            assert(rem.subrange(a.len() as int, rem.len() as int) =~= b + c);
        },
    }
}

/// Peel a rendered node kind off the front.
pub proof fn lemma_kind_step(t: Seq<char>, i: int, k: NodeKind, b: Seq<char>, c: Seq<char>)
    requires
        0 <= i <= t.len(),
        t.subrange(i, t.len() as int) == (render_kind(k) + b) + c,
    ensures
        i + render_kind(k).len() <= t.len(),
        sp_kind(t, i) == Some((k, i + render_kind(k).len())),
        t.subrange(i + render_kind(k).len(), t.len() as int) == b + c,
{
    reveal_strlit("\"file\"");
    reveal_strlit("\"folder\"");
    let a = render_kind(k);
    let rem = t.subrange(i, t.len() as int);
    assert(rem.len() == a.len() + b.len() + c.len());
    match k {
        NodeKind::File => {
            lemma_step3(t, i, l_file(), b, c);
        },
        NodeKind::Folder => {
            if lit_at(t, i, l_folder()) {
            }
            if lit_at(t, i, l_file()) {
                assert(t.subrange(i, i + l_file().len() as int)[2] == t[i + 2]);
                assert(t[i + 2] == rem[2]);
                assert(rem[2] == l_folder()[2]);
            }
            assert(!lit_at(t, i, l_file()));
            lemma_step3(t, i, l_folder(), b, c);
        },
    }
}

/// Round trip for one node: parsing its rendered document at `i` yields
/// the model itself and stops exactly at the end of the document.
#[verifier::rlimit(100)]
pub proof fn lemma_sp_node_of_render(t: Seq<char>, i: int, m: NodeModel, tail: Seq<char>)
    requires
        0 <= i <= t.len(),
        t.subrange(i, t.len() as int) == render_model(m) + tail,
    ensures
        sp_node(t, i) == Some((m, i + render_model(m).len())),
        i + render_model(m).len() <= t.len(),
        t.subrange(i + render_model(m).len(), t.len() as int) == tail,
    decreases m, 5int,
{
    reveal_strlit("{\"name\":");
    reveal_strlit(",\"children\":");
    reveal_strlit(",\"modified_at\":");
    reveal_strlit(",\"content_hash\":");
    reveal_strlit(",\"sync_session_id\":");
    lemma_step3(t, i, l_name(), render_string(m.name) + render_after_name(m), tail);
    let i1 = i + l_name().len() as int;
    lemma_string_step(t, i1, m.name, render_after_name(m), tail);
    let i2 = i1 + render_string(m.name).len() as int;
    lemma_step3(t, i2, l_kind(), render_kind(m.kind) + render_after_kind(m), tail);
    let i3 = i2 + l_kind().len() as int;
    lemma_kind_step(t, i3, m.kind, render_after_kind(m), tail);
    let i4 = i3 + render_kind(m.kind).len() as int;
    lemma_step3(
        t,
        i4,
        l_absolute_path(),
        render_string(m.absolute_path) + render_after_abs(m),
        tail,
    );
    let i5 = i4 + l_absolute_path().len() as int;
    lemma_string_step(t, i5, m.absolute_path, render_after_abs(m), tail);
    let i6 = i5 + render_string(m.absolute_path).len() as int;
    lemma_step3(
        t,
        i6,
        l_relative_path(),
        render_string(m.relative_path) + render_after_rel(m),
        tail,
    );
    let i7 = i6 + l_relative_path().len() as int;
    lemma_string_step(t, i7, m.relative_path, render_after_rel(m), tail);
    let i8 = i7 + render_string(m.relative_path).len() as int;
    lemma_sp_node_fields_of_render(t, i, i8, m, tail);
    assert(sp_node(t, i) is Some);
    let parsed = (sp_node(t, i)->0).0;
    assert(parsed == m);
    assert(i8 + render_after_rel(m).len() == i + render_model(m).len());
}

/// Round trip for the fields of a node from `children` through
/// `modified_at`, continuing into the tail fields.
#[verifier::rlimit(80)]
pub proof fn lemma_sp_node_fields_of_render(
    t: Seq<char>,
    start: int,
    i8: int,
    m: NodeModel,
    tail: Seq<char>,
)
    requires
        0 <= start <= i8 <= t.len(),
        t.subrange(i8, t.len() as int) == render_after_rel(m) + tail,
    ensures
        sp_node_fields(t, start, i8, m.name, m.kind, m.absolute_path, m.relative_path) == Some(
            (m, i8 + render_after_rel(m).len()),
        ),
        i8 + render_after_rel(m).len() <= t.len(),
        t.subrange(i8 + render_after_rel(m).len(), t.len() as int) == tail,
    decreases m, 4int,
{
    reveal_strlit(",\"children\":");
    reveal_strlit(",\"modified_at\":");
    reveal_strlit(",\"content_hash\":");
    lemma_step3(
        t,
        i8,
        l_children(),
        render_children_opt(m.children) + render_after_children(m),
        tail,
    );
    let i9 = i8 + l_children().len() as int;
    assert(l_children().len() > 0);
    lemma_children_opt_step(t, i9, m.children, render_after_children(m), tail);
    let i10 = i9 + render_children_opt(m.children).len() as int;
    lemma_step3(
        t,
        i10,
        l_repository_origin(),
        render_opt_string(m.repository_origin) + render_after_origin(m),
        tail,
    );
    let i11 = i10 + l_repository_origin().len() as int;
    lemma_opt_string_step(t, i11, m.repository_origin, render_after_origin(m), tail);
    let i12 = i11 + render_opt_string(m.repository_origin).len() as int;
    lemma_step3(
        t,
        i12,
        l_size_bytes(),
        render_opt_u64(m.size_bytes) + render_after_size(m),
        tail,
    );
    let i13 = i12 + l_size_bytes().len() as int;
    assert(render_after_size(m)[0] == l_modified_at()[0]);
    assert(!is_digit(render_after_size(m)[0]));
    lemma_opt_u64_step(t, i13, m.size_bytes, render_after_size(m), tail);
    let i14 = i13 + render_opt_u64(m.size_bytes).len() as int;
    lemma_step3(
        t,
        i14,
        l_modified_at(),
        render_opt_u64(m.modified_at) + render_after_modified(m),
        tail,
    );
    let i15 = i14 + l_modified_at().len() as int;
    assert(render_after_modified(m)[0] == l_content_hash()[0]);
    assert(!is_digit(render_after_modified(m)[0]));
    lemma_opt_u64_step(t, i15, m.modified_at, render_after_modified(m), tail);
    let i16 = i15 + render_opt_u64(m.modified_at).len() as int;
    let partial = NodeModel {
        content_hash: None,
        last_synced_at: None,
        sync_session_id: None,
        writer_id: None,
        ..m
    };
    lemma_sp_node_tail_of_render(t, i16, m, partial, tail);
    assert(i16 + render_after_modified(m).len() == i8 + render_after_rel(m).len());
}

/// Round trip for the tail fields of a node, `content_hash` through
/// `writer_id`, and the closing brace.
#[verifier::rlimit(80)]
pub proof fn lemma_sp_node_tail_of_render(
    t: Seq<char>,
    i16: int,
    m: NodeModel,
    partial: NodeModel,
    tail: Seq<char>,
)
    requires
        0 <= i16 <= t.len(),
        t.subrange(i16, t.len() as int) == render_after_modified(m) + tail,
        partial == (NodeModel {
            content_hash: None,
            last_synced_at: None,
            sync_session_id: None,
            writer_id: None,
            ..m
        }),
    ensures
        sp_node_tail(t, i16, partial) == Some((m, i16 + render_after_modified(m).len())),
        i16 + render_after_modified(m).len() <= t.len(),
        t.subrange(i16 + render_after_modified(m).len(), t.len() as int) == tail,
{
    reveal_strlit(",\"sync_session_id\":");
    lemma_step3(
        t,
        i16,
        l_content_hash(),
        render_opt_string(m.content_hash) + render_after_hash(m),
        tail,
    );
    let i17 = i16 + l_content_hash().len() as int;
    lemma_opt_string_step(t, i17, m.content_hash, render_after_hash(m), tail);
    let i18 = i17 + render_opt_string(m.content_hash).len() as int;
    lemma_step3(
        t,
        i18,
        l_last_synced_at(),
        render_opt_u64(m.last_synced_at) + render_after_synced(m),
        tail,
    );
    let i19 = i18 + l_last_synced_at().len() as int;
    assert(render_after_synced(m)[0] == l_sync_session_id()[0]);
    assert(!is_digit(render_after_synced(m)[0]));
    lemma_opt_u64_step(t, i19, m.last_synced_at, render_after_synced(m), tail);
    let i20 = i19 + render_opt_u64(m.last_synced_at).len() as int;
    lemma_step3(
        t,
        i20,
        l_sync_session_id(),
        render_opt_string(m.sync_session_id) + render_after_session(m),
        tail,
    );
    let i21 = i20 + l_sync_session_id().len() as int;
    lemma_opt_string_step(t, i21, m.sync_session_id, render_after_session(m), tail);
    let i22 = i21 + render_opt_string(m.sync_session_id).len() as int;
    lemma_step3(t, i22, l_writer_id(), render_opt_string(m.writer_id) + seq!['}'], tail);
    let i23 = i22 + l_writer_id().len() as int;
    lemma_opt_string_step(t, i23, m.writer_id, seq!['}'], tail);
    let i24 = i23 + render_opt_string(m.writer_id).len() as int;
    assert(t.subrange(i24, t.len() as int) == seq!['}'] + tail);
    assert(i24 < t.len());
    assert(t[i24] == t.subrange(i24, t.len() as int)[0]);
    assert(t[i24] == '}');
    let rem24 = t.subrange(i24, t.len() as int);
    lemma_shift(t, i24, 1);
    assert(rem24.subrange(1, rem24.len() as int) =~= tail);
    assert(sp_node_tail(t, i16, partial) is Some);
    assert((sp_node_tail(t, i16, partial)->0).0 == m);
    assert(i24 + 1 == i16 + render_after_modified(m).len());
}

/// Round trip for the children field.
#[verifier::rlimit(50)]
pub proof fn lemma_children_opt_step(
    t: Seq<char>,
    i: int,
    oc: Option<Seq<NodeModel>>,
    b: Seq<char>,
    c: Seq<char>,
)
    requires
        0 <= i <= t.len(),
        t.subrange(i, t.len() as int) == (render_children_opt(oc) + b) + c,
    ensures
        i + render_children_opt(oc).len() <= t.len(),
        sp_children_opt(t, i) == Some((oc, i + render_children_opt(oc).len())),
        t.subrange(i + render_children_opt(oc).len(), t.len() as int) == b + c,
    decreases oc, 3int,
{
    reveal_strlit("null");
    reveal_strlit("{\"name\":");
    let a = render_children_opt(oc);
    let rem = t.subrange(i, t.len() as int);
    assert(rem.len() == a.len() + b.len() + c.len());
    match oc {
        None => {
            lemma_step3(t, i, l_null(), b, c);
        },
        Some(cs) => {
            assert(a == seq!['['] + (render_children(cs) + seq![']']));
            assert(t[i] == rem[0]);
            assert(rem[0] == '[');
            if lit_at(t, i, l_null()) {
                assert(t.subrange(i, i + l_null().len() as int)[0] == t[i]);
                assert(l_null()[0] == 'n');
            }
            assert(!lit_at(t, i, l_null()));
            if cs.len() == 0 {
                assert(render_children(cs) == Seq::<char>::empty());
                assert(a.len() == 2);
                assert(t[i + 1] == rem[1]);
                assert(rem[1] == ']');
                assert(i + 1 < t.len());
                assert(sp_children_opt(t, i) == Some((Some(Seq::<NodeModel>::empty()), i + 2)));
                assert(Some(Seq::<NodeModel>::empty()) == oc);
                lemma_shift(t, i, 2);
                assert(rem.subrange(2, rem.len() as int) =~= b + c);
            } else {
                assert(render_model(cs[0]) == l_name() + (render_string(cs[0].name)
                    + render_after_name(cs[0])));
                assert(render_children(cs)[0] == render_model(cs[0])[0]);
                assert(render_model(cs[0])[0] == l_name()[0]);
                assert(t[i + 1] == rem[1]);
                assert(rem[1] == render_children(cs)[0]);
                assert(t[i + 1] == '{');
                assert(i + 1 < t.len());
                lemma_shift(t, i, 1);
                assert(rem.subrange(1, rem.len() as int) =~= render_children(cs) + (seq![']'] + (b
                    + c)));
                lemma_children(t, i + 1, cs, b + c);
                assert(t.subrange(i + a.len(), t.len() as int) == b + c);
            }
        },
    }
}

/// Round trip for a non-empty child list followed by its closing bracket.
#[verifier::rlimit(50)]
pub proof fn lemma_children(t: Seq<char>, i: int, cs: Seq<NodeModel>, rest: Seq<char>)
    requires
        cs.len() > 0,
        0 <= i <= t.len(),
        t.subrange(i, t.len() as int) == render_children(cs) + (seq![']'] + rest),
    ensures
        i + render_children(cs).len() + 1 <= t.len(),
        sp_children(t, i) == Some((cs, i + render_children(cs).len() + 1)),
        t.subrange(i + render_children(cs).len() + 1, t.len() as int) == rest,
    decreases cs, 4int,
{
    reveal_strlit("{\"name\":");
    let rc = render_children(cs);
    let rem = t.subrange(i, t.len() as int);
    assert(rem.len() == rc.len() + 1 + rest.len());
    if cs.len() == 1 {
        assert(rc == render_model(cs[0]));
        lemma_sp_node_of_render(t, i, cs[0], seq![']'] + rest);
        let j = i + render_model(cs[0]).len();
        assert(render_model(cs[0]) == l_name() + (render_string(cs[0].name) + render_after_name(
            cs[0],
        )));
        assert(render_model(cs[0]).len() > 0);
        assert(i < j);
        assert(t[j] == t.subrange(j, t.len() as int)[0]);
        assert(t[j] == ']');
        assert(j < t.len());
        assert(seq![cs[0]] =~= cs);
        let remj = t.subrange(j, t.len() as int);
        lemma_shift(t, j, 1);
        assert(remj.subrange(1, remj.len() as int) =~= rest);
    } else {
        let cs1 = cs.subrange(1, cs.len() as int);
        assert(rc == render_model(cs[0]) + (seq![','] + render_children(cs1)));
        assert(t.subrange(i, t.len() as int) =~= render_model(cs[0]) + (seq![','] + (
        render_children(cs1) + (seq![']'] + rest))));
        lemma_sp_node_of_render(t, i, cs[0], seq![','] + (render_children(cs1) + (seq![']']
            + rest)));
        let j = i + render_model(cs[0]).len();
        assert(render_model(cs[0]) == l_name() + (render_string(cs[0].name) + render_after_name(
            cs[0],
        )));
        assert(render_model(cs[0]).len() > 0);
        assert(i < j);
        assert(t[j] == t.subrange(j, t.len() as int)[0]);
        assert(t[j] == ',');
        assert(j < t.len());
        let remj = t.subrange(j, t.len() as int);
        lemma_shift(t, j, 1);
        assert(remj.subrange(1, remj.len() as int) =~= render_children(cs1) + (seq![']'] + rest));
        lemma_children(t, j + 1, cs1, rest);
        assert(seq![cs[0]] + cs1 =~= cs);
    }
}

} // verus!
