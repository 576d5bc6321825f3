//! Character-level building blocks of the snapshot document: string
//! escaping, decimal numerals, and literal matching, with the lemmas that
//! make the snapshot round trip provable.

use vstd::prelude::*;
use vstd::string::StrSliceExecFns;

verus! {

// ---------------------------------------------------------------------
// String escaping
// ---------------------------------------------------------------------
/// How one character is written inside a quoted string: quotes and
/// backslashes get a backslash prefix, everything else stands for itself.
pub open spec fn esc_char(c: char) -> Seq<char> {
    if c == '"' || c == '\\' {
        seq!['\\', c]
    } else {
        seq![c]
    }
}

/// The escaped form of a whole string.
pub open spec fn esc(s: Seq<char>) -> Seq<char>
    decreases s.len(),
{
    if s.len() == 0 {
        Seq::empty()
    } else {
        esc_char(s[0]) + esc(s.subrange(1, s.len() as int))
    }
}

/// Escaping distributes over appending one character at the end.
pub proof fn lemma_esc_snoc(s: Seq<char>, c: char)
    ensures
        esc(s.push(c)) == esc(s) + esc_char(c),
    decreases s.len(),
{
    if s.len() == 0 {
        assert(s.push(c) =~= seq![c]);
        assert(s.push(c)[0] == c);
        assert(s.push(c).subrange(1, 1) =~= Seq::<char>::empty());
        assert(esc(s.push(c)) == esc_char(c) + esc(s.push(c).subrange(1, 1)));
        assert(esc(s.push(c)) =~= esc(s) + esc_char(c));
    } else {
        assert(s.push(c).subrange(1, s.len() as int + 1) =~= s.subrange(1, s.len() as int).push(
            c,
        ));
        lemma_esc_snoc(s.subrange(1, s.len() as int), c);
        assert(esc(s.push(c)) =~= esc(s) + esc_char(c));
    }
}

/// Parse the interior of a quoted string starting at `i`, undoing the
/// escaping, up to and including the closing quote. Returns the decoded
/// characters and the position just after the closing quote.
pub open spec fn sp_strbody(t: Seq<char>, i: int) -> Option<(Seq<char>, int)>
    decreases t.len() - i,
{
    if i < 0 || i >= t.len() {
        None
    } else if t[i] == '"' {
        Some((Seq::empty(), i + 1))
    } else if t[i] == '\\' {
        if i + 1 < t.len() && (t[i + 1] == '"' || t[i + 1] == '\\') {
            match sp_strbody(t, i + 2) {
                Some((s, j)) => Some((seq![t[i + 1]] + s, j)),
                None => None,
            }
        } else {
            None
        }
    } else {
        match sp_strbody(t, i + 1) {
            Some((s, j)) => Some((seq![t[i]] + s, j)),
            None => None,
        }
    }
}

/// A successful string-body parse always makes progress and stays in
/// bounds.
pub proof fn lemma_sp_strbody_bounds(t: Seq<char>, i: int)
    ensures
        sp_strbody(t, i) is Some ==> i < (sp_strbody(t, i)->0).1 <= t.len(),
    decreases t.len() - i,
{
    if 0 <= i < t.len() {
        if t[i] == '"' {
        } else if t[i] == '\\' {
            if i + 1 < t.len() {
                lemma_sp_strbody_bounds(t, i + 2);
            }
        } else {
            lemma_sp_strbody_bounds(t, i + 1);
        }
    }
}

/// Round trip for strings: parsing the escaped form of `s` followed by a
/// closing quote recovers exactly `s` and stops just after that quote.
pub proof fn lemma_sp_strbody_of_esc(t: Seq<char>, i: int, s: Seq<char>, tail: Seq<char>)
    requires
        0 <= i <= t.len(),
        t.subrange(i, t.len() as int) == esc(s) + seq!['"'] + tail,
    ensures
        sp_strbody(t, i) == Some((s, i + esc(s).len() + 1)),
    decreases s.len(),
{
    let rem = t.subrange(i, t.len() as int);
    assert(rem.len() == esc(s).len() + 1 + tail.len());
    if s.len() == 0 {
        assert(esc(s) =~= Seq::<char>::empty());
        assert(t[i] == rem[0]);
        assert(rem[0] == '"');
    } else {
        let c = s[0];
        let s1 = s.subrange(1, s.len() as int);
        assert(esc(s) == esc_char(c) + esc(s1));
        if c == '"' || c == '\\' {
            assert(t[i] == rem[0]);
            assert(rem[0] == '\\');
            assert(t[i + 1] == rem[1]);
            assert(rem[1] == c);
            assert(i + 2 <= t.len());
            assert(t.subrange(i + 2, t.len() as int) =~= rem.subrange(2, rem.len() as int));
            assert(rem.subrange(2, rem.len() as int) =~= esc(s1) + seq!['"'] + tail);
            lemma_sp_strbody_of_esc(t, i + 2, s1, tail);
            assert(seq![t[i + 1]] + s1 =~= s);
            assert(esc(s).len() == 2 + esc(s1).len());
        } else {
            assert(t[i] == rem[0]);
            assert(rem[0] == c);
            assert(t[i] != '"' && t[i] != '\\');
            assert(i + 1 <= t.len());
            assert(t.subrange(i + 1, t.len() as int) =~= rem.subrange(1, rem.len() as int));
            assert(rem.subrange(1, rem.len() as int) =~= esc(s1) + seq!['"'] + tail);
            lemma_sp_strbody_of_esc(t, i + 1, s1, tail);
            assert(seq![t[i]] + s1 =~= s);
            assert(esc(s).len() == 1 + esc(s1).len());
        }
    }
}

// ---------------------------------------------------------------------
// Decimal numerals
// ---------------------------------------------------------------------
pub open spec fn is_digit(c: char) -> bool {
    48 <= (c as u32) && (c as u32) <= 57
}

pub open spec fn digit_val(c: char) -> nat {
    ((c as u32) - 48) as nat
}

pub open spec fn digit_char(d: nat) -> char {
    (((d + 48) as u8) as char)
}

/// The usual decimal numeral of `n`, most significant digit first, with
/// no leading zeros (and `0` written as one digit).
pub open spec fn dec_digits(n: nat) -> Seq<char>
    decreases n,
{
    if n < 10 {
        seq![digit_char(n)]
    } else {
        dec_digits(n / 10) + seq![digit_char(n % 10)]
    }
}

/// The value of a sequence of digit characters, most significant first.
pub open spec fn digits_val(ds: Seq<char>) -> nat
    decreases ds.len(),
{
    if ds.len() == 0 {
        0
    } else {
        digits_val(ds.drop_last()) * 10 + digit_val(ds.last())
    }
}

/// The numeral of `n` consists of digits and evaluates back to `n`.
pub proof fn lemma_dec_digits(n: nat)
    ensures
        dec_digits(n).len() >= 1,
        forall|k: int| 0 <= k < dec_digits(n).len() ==> is_digit(#[trigger] dec_digits(n)[k]),
        digits_val(dec_digits(n)) == n,
    decreases n,
{
    if n < 10 {
        let ds = dec_digits(n);
        assert(ds =~= seq![digit_char(n)]);
        assert(ds.drop_last() =~= Seq::<char>::empty());
        assert(ds.last() == digit_char(n));
        assert(digit_val(digit_char(n)) == n);
        assert(digits_val(ds) == digits_val(ds.drop_last()) * 10 + digit_val(ds.last()));
        assert(digits_val(ds) == n);
    } else {
        lemma_dec_digits(n / 10);
        let hi = dec_digits(n / 10);
        let ds = dec_digits(n);
        assert(ds == hi + seq![digit_char(n % 10)]);
        assert(ds.drop_last() =~= hi);
        assert(ds.last() == digit_char(n % 10));
        assert(digit_val(digit_char(n % 10)) == n % 10);
        assert(digits_val(ds) == digits_val(hi) * 10 + n % 10);
        assert((n / 10) * 10 + n % 10 == n) by (nonlinear_arith);
        assert forall|k: int| 0 <= k < ds.len() implies is_digit(#[trigger] ds[k]) by {
            if k < hi.len() {
                assert(ds[k] == hi[k]);
            } else {
                assert(ds[k] == digit_char(n % 10));
            }
        }
    }
}

/// Appending one digit multiplies the value by ten and adds it.
pub proof fn lemma_digits_val_snoc(s: Seq<char>, c: char)
    ensures
        digits_val(s.push(c)) == digits_val(s) * 10 + digit_val(c),
{
    assert(s.push(c).drop_last() =~= s);
    assert(s.push(c).last() == c);
}

/// A digit sequence never evaluates below any of its prefixes.
pub proof fn lemma_digits_val_prefix_le(s1: Seq<char>, s2: Seq<char>)
    ensures
        digits_val(s1) <= digits_val(s1 + s2),
    decreases s2.len(),
{
    if s2.len() == 0 {
        assert(s1 + s2 =~= s1);
    } else {
        let s2h = s2.drop_last();
        lemma_digits_val_prefix_le(s1, s2h);
        assert((s1 + s2) =~= (s1 + s2h).push(s2.last()));
        lemma_digits_val_snoc(s1 + s2h, s2.last());
    }
}

/// First position at or after `i` that does not hold a digit.
pub open spec fn digit_run_end(t: Seq<char>, i: int) -> int
    decreases t.len() - i,
{
    if i < 0 || i >= t.len() {
        i
    } else if is_digit(t[i]) {
        digit_run_end(t, i + 1)
    } else {
        i
    }
}

pub proof fn lemma_digit_run_end(t: Seq<char>, i: int)
    requires
        0 <= i <= t.len(),
    ensures
        i <= digit_run_end(t, i) <= t.len(),
        forall|k: int| i <= k < digit_run_end(t, i) ==> is_digit(#[trigger] t[k]),
        digit_run_end(t, i) == t.len() || !is_digit(t[digit_run_end(t, i)]),
    decreases t.len() - i,
{
    if i < t.len() && is_digit(t[i]) {
        lemma_digit_run_end(t, i + 1);
    }
}

/// The digit run that starts a known digit block ends exactly where the
/// block ends, provided the next character is not a digit.
pub proof fn lemma_digit_run_end_exact(t: Seq<char>, i: int, e: int)
    requires
        0 <= i <= e <= t.len(),
        forall|k: int| i <= k < e ==> is_digit(#[trigger] t[k]),
        e == t.len() || !is_digit(t[e]),
    ensures
        digit_run_end(t, i) == e,
    decreases e - i,
{
    if i < e {
        lemma_digit_run_end_exact(t, i + 1, e);
    }
}

/// Parse an unsigned 64-bit decimal numeral at `i`: the maximal digit run
/// starting there, rejected when empty or when its value exceeds
/// `u64::MAX`.
pub open spec fn sp_u64(t: Seq<char>, i: int) -> Option<(u64, int)> {
    let e = digit_run_end(t, i);
    if e == i {
        None
    } else {
        let v = digits_val(t.subrange(i, e));
        if v <= u64::MAX {
            Some(((v as u64), e))
        } else {
            None
        }
    }
}

// ---------------------------------------------------------------------
// Literal matching
// ---------------------------------------------------------------------
/// Whether the characters `lit` occur in `t` starting exactly at `i`.
pub open spec fn lit_at(t: Seq<char>, i: int, lit: Seq<char>) -> bool {
    &&& 0 <= i
    &&& i + lit.len() <= t.len()
    &&& t.subrange(i, i + lit.len() as int) == lit
}

/// Round trip for numerals: parsing the numeral of `n` followed by a
/// non-digit recovers `n`.
pub proof fn lemma_sp_u64_of_dec(t: Seq<char>, i: int, n: u64, tail: Seq<char>)
    requires
        0 <= i <= t.len(),
        t.subrange(i, t.len() as int) == dec_digits(n as nat) + tail,
        tail.len() > 0,
        !is_digit(tail[0]),
    ensures
        sp_u64(t, i) == Some((n, i + dec_digits(n as nat).len())),
{
    let ds = dec_digits(n as nat);
    let e = i + ds.len();
    lemma_dec_digits(n as nat);
    let rem = t.subrange(i, t.len() as int);
    assert(rem == ds + tail);
    assert(rem.len() == ds.len() + tail.len());
    assert(rem.len() == t.len() - i);
    assert forall|k: int| i <= k < e implies is_digit(#[trigger] t[k]) by {
        assert(t[k] == rem[k - i]);
        assert(rem[k - i] == ds[k - i]);
    }
    assert(e < t.len());
    assert(t[e] == rem[e - i]);
    assert(rem[e - i] == tail[0]);
    lemma_digit_run_end_exact(t, i, e);
    assert(t.subrange(i, e) =~= ds);
}

// ---------------------------------------------------------------------
// Executable writers
// ---------------------------------------------------------------------
/// Relies on String's `FromIterator<char>` implementation: collecting
/// characters yields a string of exactly those characters, in order.
#[verifier::external_body]
pub(crate) fn chars_to_string(v: &Vec<char>) -> (s: String)
    ensures
        s@ == v@,
{
    v.iter().collect()
}

/// Append the characters of `s` to `out`.
pub(crate) fn push_str_chars(out: &mut Vec<char>, s: &str)
    ensures
        final(out)@ == old(out)@ + s@,
{
    let n = s.unicode_len();
    let mut k: usize = 0;
    while k < n
        invariant
            k <= n,
            n == s@.len(),
            out@ == old(out)@ + s@.subrange(0, k as int),
        decreases n - k,
    {
        out.push(s.get_char(k));
        proof {
            assert(s@.subrange(0, k as int).push(s@[k as int]) =~= s@.subrange(0, k + 1));
        }
        k = k + 1;
    }
    proof {
        assert(s@.subrange(0, n as int) =~= s@);
    }
}

/// Append the escaped form of `s` to `out`.
pub(crate) fn push_escaped_chars(out: &mut Vec<char>, s: &str)
    ensures
        final(out)@ == old(out)@ + esc(s@),
{
    let n = s.unicode_len();
    let mut k: usize = 0;
    proof {
        assert(s@.subrange(0, 0) =~= Seq::<char>::empty());
    }
    while k < n
        invariant
            k <= n,
            n == s@.len(),
            out@ == old(out)@ + esc(s@.subrange(0, k as int)),
        decreases n - k,
    {
        let c = s.get_char(k);
        if c == '"' || c == '\\' {
            out.push('\\');
        }
        out.push(c);
        proof {
            lemma_esc_snoc(s@.subrange(0, k as int), c);
            assert(s@.subrange(0, k as int).push(s@[k as int]) =~= s@.subrange(0, k + 1));
        }
        k = k + 1;
    }
    proof {
        assert(s@.subrange(0, n as int) =~= s@);
    }
}

/// Append the decimal numeral of `n` to `out`.
pub(crate) fn push_u64_chars(out: &mut Vec<char>, n: u64)
    ensures
        final(out)@ == old(out)@ + dec_digits(n as nat),
    decreases n,
{
    if n < 10 {
        out.push(((n as u8) + 48) as char);
        proof {
            assert(((n as u8) + 48) as char == digit_char(n as nat));
        }
    } else {
        push_u64_chars(out, n / 10);
        out.push((((n % 10) as u8) + 48) as char);
        proof {
            assert((((n % 10) as u8) + 48) as char == digit_char((n % 10) as nat));
        }
    }
}

// ---------------------------------------------------------------------
// Executable readers
// ---------------------------------------------------------------------
/// Match `lit` at position `i` of `t`, returning the position just after
/// it on success.
pub(crate) fn expect_lit(t: &Vec<char>, i: usize, lit: &str) -> (r: Option<usize>)
    ensures
        match r {
            Some(j) => lit_at(t@, i as int, lit@) && j as int == i + lit@.len(),
            None => !lit_at(t@, i as int, lit@),
        },
{
    let n = lit.unicode_len();
    let tl = t.len();
    if i > tl || n > tl - i {
        return None;
    }
    let mut k: usize = 0;
    while k < n
        invariant
            k <= n,
            n == lit@.len(),
            tl == t@.len(),
            i + n <= tl,
            forall|m: int| 0 <= m < k ==> t@[i + m] == lit@[m],
        decreases n - k,
    {
        let c = lit.get_char(k);
        if !(t[i + k] == c) {
            proof {
                if lit_at(t@, i as int, lit@) {
                    assert(t@.subrange(i as int, i + lit@.len() as int)[k as int] == t@[i + k]);
                }
            }
            return None;
        }
        k = k + 1;
    }
    proof {
        assert(t@.subrange(i as int, i + lit@.len() as int) =~= lit@);
    }
    Some(i + n)
}

/// Whether the invariant of the string-body loop holds: finishing the
/// parse from `cur` and prepending `acc` gives the parse from `start`.
pub open spec fn strbody_cont(t: Seq<char>, start: int, acc: Seq<char>, cur: int) -> bool {
    sp_strbody(t, start) == match sp_strbody(t, cur) {
        Some((s, j)) => Some((acc + s, j)),
        None => None::<(Seq<char>, int)>,
    }
}

/// Read a quoted string's interior starting at `i` (just after the
/// opening quote), undoing the escaping; returns the decoded string and
/// the position just after the closing quote.
pub(crate) fn parse_string_body(t: &Vec<char>, i: usize) -> (r: Option<(String, usize)>)
    ensures
        match r {
            Some(p) => sp_strbody(t@, i as int) == Some((p.0@, p.1 as int)),
            None => sp_strbody(t@, i as int) is None,
        },
{
    if i > t.len() {
        return None;
    }
    let mut acc: Vec<char> = Vec::new();
    let mut cur = i;
    proof {
        if sp_strbody(t@, i as int) is Some {
            let (s, j) = sp_strbody(t@, i as int)->0;
            assert(Seq::<char>::empty() + s =~= s);
        }
    }
    loop
        invariant
            i <= cur <= t@.len(),
            strbody_cont(t@, i as int, acc@, cur as int),
        decreases t@.len() - cur,
    {
        if cur >= t.len() {
            return None;
        }
        let c = t[cur];
        if c == '"' {
            proof {
                assert(sp_strbody(t@, cur as int) == Some((Seq::<char>::empty(), cur + 1)));
                assert(acc@ + Seq::<char>::empty() =~= acc@);
            }
            return Some((chars_to_string(&acc), cur + 1));
        } else if c == '\\' {
            if cur + 1 >= t.len() {
                return None;
            }
            let cc = t[cur + 1];
            if cc == '"' || cc == '\\' {
                let ghost acc0 = acc@;
                acc.push(cc);
                proof {
                    if sp_strbody(t@, cur + 2) is Some {
                        let (s, j) = sp_strbody(t@, cur + 2)->0;
                        assert(sp_strbody(t@, cur as int) == Some((seq![t@[cur + 1]] + s, j)));
                        assert(acc0 + (seq![t@[cur + 1]] + s) =~= acc0.push(t@[cur + 1]) + s);
                    } else {
                        assert(sp_strbody(t@, cur as int) is None);
                    }
                    assert(strbody_cont(t@, i as int, acc@, cur + 2));
                }
                cur = cur + 2;
            } else {
                return None;
            }
        } else {
            let ghost acc0 = acc@;
            acc.push(c);
            proof {
                if sp_strbody(t@, cur + 1) is Some {
                    let (s, j) = sp_strbody(t@, cur + 1)->0;
                    assert(sp_strbody(t@, cur as int) == Some((seq![t@[cur as int]] + s, j)));
                    assert(acc0 + (seq![t@[cur as int]] + s) =~= acc0.push(t@[cur as int]) + s);
                } else {
                    assert(sp_strbody(t@, cur as int) is None);
                }
                assert(strbody_cont(t@, i as int, acc@, cur + 1));
            }
            cur = cur + 1;
        }
    }
}

/// Read an unsigned 64-bit decimal numeral starting at `i`.
pub(crate) fn parse_u64(t: &Vec<char>, i: usize) -> (r: Option<(u64, usize)>)
    ensures
        match r {
            Some(p) => sp_u64(t@, i as int) == Some((p.0, p.1 as int)) && i < p.1 <= t@.len(),
            None => sp_u64(t@, i as int) is None,
        },
{
    if i >= t.len() {
        return None;
    }
    proof {
        lemma_digit_run_end(t@, i as int);
    }
    let ghost e = digit_run_end(t@, i as int);
    let mut cur = i;
    let mut acc: u64 = 0;
    proof {
        assert(t@.subrange(i as int, i as int) =~= Seq::<char>::empty());
    }
    loop
        invariant
            i <= cur <= e <= t@.len(),
            e == digit_run_end(t@, i as int),
            acc == digits_val(t@.subrange(i as int, cur as int)),
            forall|k: int| i <= k < e ==> is_digit(#[trigger] t@[k]),
            e == t@.len() || !is_digit(t@[e as int]),
        ensures
            cur == e,
            acc == digits_val(t@.subrange(i as int, e as int)),
        decreases e - cur,
    {
        if cur == t.len() {
            proof {
                assert(cur == e);
            }
            break;
        }
        let u = t[cur] as u32;
        if !(48 <= u && u <= 57) {
            proof {
                assert(!is_digit(t@[cur as int]));
                assert(cur == e);
            }
            break;
        }
        proof {
            assert(is_digit(t@[cur as int]));
            assert(cur < e);
        }
        let d = (u - 48) as u64;
        if acc > (u64::MAX - d) / 10 {
            // The full digit run exceeds the representable range.
            proof {
                let pre = t@.subrange(i as int, cur as int);
                let pre1 = t@.subrange(i as int, cur + 1);
                assert(pre1 =~= pre.push(t@[cur as int]));
                lemma_digits_val_snoc(pre, t@[cur as int]);
                assert(digit_val(t@[cur as int]) == d);
                assert(digits_val(pre1) == acc * 10 + d);
                assert(acc * 10 + d > u64::MAX) by (nonlinear_arith)
                    requires
                        acc > (u64::MAX - d) / 10,
                        d <= 9,
                ;
                let run = t@.subrange(i as int, e as int);
                assert(run =~= pre1 + t@.subrange(cur + 1, e as int));
                lemma_digits_val_prefix_le(pre1, t@.subrange(cur + 1, e as int));
                assert(digits_val(run) > u64::MAX);
            }
            return None;
        }
        proof {
            assert(acc * 10 + d <= u64::MAX) by (nonlinear_arith)
                requires
                    acc <= (u64::MAX - d) / 10,
                    d <= 9,
            ;
            let pre = t@.subrange(i as int, cur as int);
            let pre1 = t@.subrange(i as int, cur + 1);
            assert(pre1 =~= pre.push(t@[cur as int]));
            lemma_digits_val_snoc(pre, t@[cur as int]);
        }
        acc = acc * 10 + d;
        cur = cur + 1;
    }
    if cur == i {
        return None;
    }
    Some((acc, cur))
}

} // verus!
