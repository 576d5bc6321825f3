//! Normalizing absolute paths to portable, root-anchored relative paths.

use vstd::prelude::*;

use crate::jsontext::chars_to_string;
use crate::jsontext::push_str_chars;

verus! {

pub open spec fn is_sep(c: char) -> bool {
    c == '/' || c == '\\'
}

/// Every path separator replaced by a forward slash.
pub open spec fn replace_seps(s: Seq<char>) -> Seq<char> {
    s.map_values(
        |c: char|
            if c == '\\' {
                '/'
            } else {
                c
            },
    )
}

/// The bare file name: everything after the last separator. A path that
/// ends in a separator has no file name.
pub open spec fn spec_file_name(s: Seq<char>) -> Seq<char>
    decreases s.len(),
{
    if s.len() == 0 {
        Seq::empty()
    } else if is_sep(s.last()) {
        Seq::empty()
    } else {
        spec_file_name(s.drop_last()).push(s.last())
    }
}

/// First position at or after `i` that does not hold a separator.
pub open spec fn sep_run_end(t: Seq<char>, i: int) -> int
    decreases t.len() - i,
{
    if i < 0 || i >= t.len() {
        i
    } else if is_sep(t[i]) {
        sep_run_end(t, i + 1)
    } else {
        i
    }
}

pub proof fn lemma_sep_run_end(t: Seq<char>, i: int)
    requires
        0 <= i <= t.len(),
    ensures
        i <= sep_run_end(t, i) <= t.len(),
        forall|k: int| i <= k < sep_run_end(t, i) ==> is_sep(#[trigger] t[k]),
        sep_run_end(t, i) == t.len() || !is_sep(t[sep_run_end(t, i)]),
    decreases t.len() - i,
{
    if i < t.len() && is_sep(t[i]) {
        lemma_sep_run_end(t, i + 1);
    }
}

/// The portable relative form of `abs` under the root `root`: empty when
/// the two are equal; when `abs` continues past `root` at a separator,
/// the remainder after that whole separator run (so the result never
/// starts with a slash), with separators normalized; otherwise — a path
/// that does not lie under the root must never abort a scan — the bare
/// file name.
pub open spec fn spec_relativize(abs: Seq<char>, root: Seq<char>) -> Seq<char> {
    if abs == root {
        Seq::empty()
    } else if abs.len() > root.len() && abs.subrange(0, root.len() as int) == root && is_sep(
        abs[root.len() as int],
    ) {
        replace_seps(abs.subrange(sep_run_end(abs, root.len() as int), abs.len() as int))
    } else {
        spec_file_name(abs)
    }
}

/// What `spec_relativize` produces under a proper root never begins with
/// a separator.
pub proof fn lemma_relativize_no_leading_separator(abs: Seq<char>, root: Seq<char>)
    requires
        abs.len() > root.len(),
        abs.subrange(0, root.len() as int) == root,
        is_sep(abs[root.len() as int]),
    ensures
        spec_relativize(abs, root).len() > 0 ==> !is_sep(spec_relativize(abs, root)[0]),
{
    assert(abs != root);
    lemma_sep_run_end(abs, root.len() as int);
    let e = sep_run_end(abs, root.len() as int);
    let rem = abs.subrange(e, abs.len() as int);
    if rem.len() > 0 {
        assert(rem[0] == abs[e]);
        assert(!is_sep(abs[e]));
        assert(spec_relativize(abs, root)[0] == if rem[0] == '\\' {
            '/'
        } else {
            rem[0]
        });
    }
}

/// The file name is the suffix that follows the last separator.
proof fn lemma_file_name_suffix(s: Seq<char>, start: int)
    requires
        0 <= start <= s.len(),
        forall|k: int| start <= k < s.len() ==> !is_sep(#[trigger] s[k]),
        start == 0 || is_sep(s[start - 1]),
    ensures
        spec_file_name(s) == s.subrange(start, s.len() as int),
    decreases s.len(),
{
    if s.len() == 0 {
        assert(spec_file_name(s) =~= s.subrange(start, s.len() as int));
    } else if is_sep(s.last()) {
        assert(start == s.len());
        assert(spec_file_name(s) =~= s.subrange(start, s.len() as int));
    } else {
        assert(start < s.len());
        let head = s.drop_last();
        assert(head =~= s.subrange(0, s.len() - 1));
        lemma_file_name_suffix(head, start);
        assert(spec_file_name(s) == spec_file_name(head).push(s.last()));
        assert(head.subrange(start, head.len() as int).push(s.last()) =~= s.subrange(
            start,
            s.len() as int,
        ));
    }
}

/// Convert an absolute path to its portable relative form under a
/// synchronization root: see [`spec_relativize`].
pub fn to_relative_path(absolute_path: &str, sync_root: &str) -> (r: String)
    ensures
        r@ == spec_relativize(absolute_path@, sync_root@),
{
    let mut a: Vec<char> = Vec::new();
    push_str_chars(&mut a, absolute_path);
    let mut ro: Vec<char> = Vec::new();
    push_str_chars(&mut ro, sync_root);
    proof {
        assert(a@ =~= absolute_path@);
        assert(ro@ =~= sync_root@);
    }
    // Does the root occur as a proper prefix, or equal the whole path?
    let mut prefix_len: usize = 0;
    while prefix_len < ro.len() && prefix_len < a.len() && a[prefix_len] == ro[prefix_len]
        invariant
            prefix_len <= ro@.len(),
            prefix_len <= a@.len(),
            forall|k: int| 0 <= k < prefix_len ==> a@[k] == ro@[k],
        decreases ro@.len() - prefix_len,
    {
        prefix_len = prefix_len + 1;
    }
    if prefix_len == ro.len() && a.len() == ro.len() {
        proof {
            assert(a@ =~= ro@);
        }
        return chars_to_string(&Vec::new());
    }
    if prefix_len == ro.len() && a.len() > ro.len() && (a[prefix_len] == '/' || a[prefix_len]
        == '\\') {
        proof {
            assert(a@.subrange(0, ro@.len() as int) =~= ro@);
            lemma_sep_run_end(a@, prefix_len as int);
        }
        // Skip the whole separator run, so the result never begins with
        // a slash even when the path doubles its separators.
        let mut start = prefix_len;
        while start < a.len() && (a[start] == '/' || a[start] == '\\')
            invariant
                prefix_len <= start <= a@.len(),
                sep_run_end(a@, prefix_len as int) == sep_run_end(a@, start as int),
            decreases a@.len() - start,
        {
            start = start + 1;
        }
        proof {
            assert(sep_run_end(a@, start as int) == start);
        }
        let mut out: Vec<char> = Vec::new();
        let mut k = start;
        while k < a.len()
            invariant
                start <= k <= a@.len(),
                out@ == replace_seps(a@.subrange(start as int, k as int)),
            decreases a@.len() - k,
        {
            let c = a[k];
            if c == '\\' {
                out.push('/');
            } else {
                out.push(c);
            }
            k = k + 1;
            proof {
                assert(out@ =~= replace_seps(a@.subrange(start as int, k as int)));
            }
        }
        proof {
            assert(a@.subrange(start as int, a@.len() as int) =~= a@.subrange(
                start as int,
                k as int,
            ));
        }
        return chars_to_string(&out);
    }
    // Fallback: the path does not lie under the root; degrade gracefully
    // to the bare file name.
    proof {
        if absolute_path@ == sync_root@ {
            assert(a@.len() == ro@.len());
            assert(forall|k: int| 0 <= k < a@.len() ==> a@[k] == ro@[k]);
            assert(prefix_len < ro@.len() ==> a@[prefix_len as int] != ro@[prefix_len as int]);
            assert(false);
        }
        if absolute_path@.len() > sync_root@.len() && absolute_path@.subrange(
            0,
            sync_root@.len() as int,
        ) == sync_root@ && is_sep(absolute_path@[sync_root@.len() as int]) {
            assert(forall|k: int|
                0 <= k < ro@.len() ==> a@[k] == #[trigger] a@.subrange(0, ro@.len() as int)[k]);
            assert(prefix_len < ro@.len() ==> a@[prefix_len as int] == ro@[prefix_len as int]);
            assert(prefix_len == ro@.len());
            assert(false);
        }
    }
    let mut start: usize = 0;
    let mut k: usize = 0;
    while k < a.len()
        invariant
            0 <= start <= k <= a@.len(),
            forall|m: int| start <= m < k ==> !is_sep(#[trigger] a@[m]),
            start == 0 || is_sep(a@[start - 1]),
        decreases a@.len() - k,
    {
        let c = a[k];
        if c == '/' || c == '\\' {
            start = k + 1;
        }
        k = k + 1;
    }
    proof {
        lemma_file_name_suffix(a@, start as int);
    }
    let mut out: Vec<char> = Vec::new();
    let mut m = start;
    while m < a.len()
        invariant
            start <= m <= a@.len(),
            out@ == a@.subrange(start as int, m as int),
        decreases a@.len() - m,
    {
        out.push(a[m]);
        m = m + 1;
        proof {
            assert(out@ =~= a@.subrange(start as int, m as int));
        }
    }
    chars_to_string(&out)
}

} // verus!
