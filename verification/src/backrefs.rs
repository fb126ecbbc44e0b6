//! Positional back-references: runs of a repeated token character address
//! entries of the expansion history.
//!
//! A run of exactly N back-reference characters (1 <= N <= history length)
//! stands for the N-th entry resolved so far, 1-indexed in chronological
//! order.  Candidate run lengths are tried from the history length down to
//! one; at each length every non-overlapping occurrence is substituted left
//! to right before the next smaller length is tried on the updated string.
//! A run is thus always attributed first to the single longest addressable
//! reference, and what such a run leaves over is consumed later at a smaller
//! length.  With an empty history the token passes through unchanged.

use vstd::prelude::*;

use crate::chars::{lemma_concat_free, lemma_subrange_free};

verus! {

/// `n` copies of `c`.
pub open spec fn repeat_char(c: char, n: int) -> Seq<char> {
    Seq::new(if n < 0 {
        0
    } else {
        n as nat
    }, |i: int| c)
}

/// Start of the first occurrence of `pat` in `s` at or after `from`.
pub open spec fn find_sub(s: Seq<char>, pat: Seq<char>, from: int) -> Option<int>
    decreases s.len() - from,
{
    if pat.len() == 0 || from < 0 || from + pat.len() > s.len() {
        None
    } else if s.subrange(from, from + pat.len() as int) == pat {
        Some(from)
    } else {
        find_sub(s, pat, from + 1)
    }
}

/// `s` with every non-overlapping occurrence of `pat` replaced by `rep`,
/// left to right; replaced text is not scanned again.
pub open spec fn replace_all(s: Seq<char>, pat: Seq<char>, rep: Seq<char>) -> Seq<char>
    decreases s.len(),
{
    if pat.len() == 0 {
        s
    } else {
        match find_sub(s, pat, 0) {
            None => s,
            Some(i) => if 0 <= i && i + pat.len() <= s.len() {
                s.subrange(0, i) + rep + replace_all(s.skip(i + pat.len() as int), pat, rep)
            } else {
                s
            },
        }
    }
}

/// Runs of `c` applied from length `n` down to one, each against the entry
/// the length addresses.
pub open spec fn apply_runs(t: Seq<char>, hist: Seq<Seq<char>>, c: char, n: int) -> Seq<char>
    decreases n,
{
    if n <= 0 || n > hist.len() {
        t
    } else {
        apply_runs(replace_all(t, repeat_char(c, n), hist[n - 1]), hist, c, n - 1)
    }
}

/// The token with every back-reference run resolved against `hist`.
pub open spec fn resolved_backrefs(t: Seq<char>, hist: Seq<Seq<char>>, c: char) -> Seq<char> {
    apply_runs(t, hist, c, hist.len() as int)
}

/// What a `find_sub` result means.
pub proof fn lemma_find_sub(s: Seq<char>, pat: Seq<char>, from: int)
    requires
        0 <= from <= s.len(),
        pat.len() >= 1,
    ensures
        match find_sub(s, pat, from) {
            Some(i) => from <= i && i + pat.len() <= s.len() && s.subrange(
                i,
                i + pat.len() as int,
            ) == pat,
            None => true,
        },
    decreases s.len() - from,
{
    if from + pat.len() <= s.len() && s.subrange(from, from + pat.len() as int) != pat {
        lemma_find_sub(s, pat, from + 1);
    }
}

/// Replacement keeps a character absent when neither the text nor the
/// replacement holds it.
pub proof fn lemma_replace_all_free(s: Seq<char>, pat: Seq<char>, rep: Seq<char>, c: char)
    requires
        !s.contains(c),
        !rep.contains(c),
    ensures
        !replace_all(s, pat, rep).contains(c),
    decreases s.len(),
{
    if pat.len() > 0 {
        match find_sub(s, pat, 0) {
            None => {},
            Some(i) => {
                if 0 <= i && i + pat.len() <= s.len() {
                    let tail = s.skip(i + pat.len() as int);
                    assert(tail =~= s.subrange(i + pat.len() as int, s.len() as int));
                    lemma_subrange_free(s, 0, i, c);
                    lemma_subrange_free(s, i + pat.len() as int, s.len() as int, c);
                    lemma_replace_all_free(tail, pat, rep, c);
                    lemma_concat_free(s.subrange(0, i), rep, c);
                    lemma_concat_free(s.subrange(0, i) + rep, replace_all(tail, pat, rep), c);
                }
            },
        }
    }
}

/// Back-reference resolution keeps a character absent when neither the token
/// nor any history entry holds it.
pub proof fn lemma_apply_runs_free(t: Seq<char>, hist: Seq<Seq<char>>, tok: char, n: int, c: char)
    requires
        !t.contains(c),
        forall|i: int| 0 <= i < hist.len() ==> !(#[trigger] hist[i]).contains(c),
    ensures
        !apply_runs(t, hist, tok, n).contains(c),
    decreases n,
{
    if 0 < n <= hist.len() {
        lemma_replace_all_free(t, repeat_char(tok, n), hist[n - 1], c);
        lemma_apply_runs_free(replace_all(t, repeat_char(tok, n), hist[n - 1]), hist, tok, n - 1, c);
    }
}

/// So a fully resolved token is free of `c` when the token and every entry
/// are.
pub proof fn lemma_resolved_backrefs_free(t: Seq<char>, hist: Seq<Seq<char>>, tok: char, c: char)
    requires
        !t.contains(c),
        forall|i: int| 0 <= i < hist.len() ==> !(#[trigger] hist[i]).contains(c),
    ensures
        !resolved_backrefs(t, hist, tok).contains(c),
{
    lemma_apply_runs_free(t, hist, tok, hist.len() as int, c);
}

/// Whether the `n` characters of `s` starting at `i` are all `c`.
fn run_at(s: &str, c: char, n: usize, i: usize) -> (r: bool)
    requires
        n >= 1,
        i + n <= s@.len(),
    ensures
        r == (s@.subrange(i as int, i + n) == repeat_char(c, n as int)),
{
    let len = s.unicode_len();
    let mut j: usize = 0;
    while j < n
        invariant
            j <= n,
            n >= 1,
            len == s@.len(),
            i + n <= s@.len(),
            forall|k: int| 0 <= k < j ==> #[trigger] s@[i + k] == c,
        decreases n - j,
    {
        if s.get_char(i + j) != c {
            proof {
                assert(s@.subrange(i as int, i + n)[j as int] == s@[i + j]);
                assert(repeat_char(c, n as int)[j as int] == c);
            }
            return false;
        }
        j = j + 1;
    }
    proof {
        assert forall|k: int| 0 <= k < n implies s@.subrange(i as int, i + n)[k] == repeat_char(
            c,
            n as int,
        )[k] by {
            assert(s@.subrange(i as int, i + n)[k] == s@[i + k]);
            assert(s@[i + k] == c);
        }
        assert(s@.subrange(i as int, i + n) =~= repeat_char(c, n as int));
    }
    true
}

/// Start of the first run of exactly `n` consecutive `c` in `s`, scanning
/// left to right.
fn find_run(s: &str, c: char, n: usize) -> (r: Option<usize>)
    requires
        n >= 1,
    ensures
        match r {
            Some(i) => find_sub(s@, repeat_char(c, n as int), 0) == Some(i as int) && i + n
                <= s@.len(),
            None => find_sub(s@, repeat_char(c, n as int), 0) is None,
        },
{
    let len = s.unicode_len();
    if n > len {
        return None;
    }
    let mut i: usize = 0;
    while i <= len - n
        invariant
            n >= 1,
            n <= len,
            i <= len,
            len == s@.len(),
            find_sub(s@, repeat_char(c, n as int), 0) == find_sub(
                s@,
                repeat_char(c, n as int),
                i as int,
            ),
        decreases len - i,
    {
        if run_at(s, c, n, i) {
            return Some(i);
        }
        i = i + 1;
    }
    None
}

/// `s` with every non-overlapping run of exactly `n` consecutive `c`
/// replaced by `rep`, left to right.
fn replace_run(s: &str, c: char, n: usize, rep: &str) -> (r: String)
    requires
        n >= 1,
    ensures
        r@ == replace_all(s@, repeat_char(c, n as int), rep@),
{
    let ghost whole = s@;
    let mut out = String::new();
    let mut rest: &str = s;
    loop
        invariant_except_break
            replace_all(whole, repeat_char(c, n as int), rep@) == out@ + replace_all(
                rest@,
                repeat_char(c, n as int),
                rep@,
            ),
        invariant
            n >= 1,
        ensures
            out@ == replace_all(whole, repeat_char(c, n as int), rep@),
        decreases rest@.len(),
    {
        match find_run(rest, c, n) {
            None => {
                out.append(rest);
                break;
            },
            Some(i) => {
                proof {
                    lemma_find_sub(rest@, repeat_char(c, n as int), 0);
                }
                out.append(rest.substring_char(0, i));
                out.append(rep);
                let rlen = rest.unicode_len();
                rest = rest.substring_char(i + n, rlen);
            },
        }
    }
    out
}

/// The token with every back-reference run of the token character resolved
/// against `history`: a run of N stands for the N-th entry, longest
/// addressable runs first.
pub fn expand_last(token: &str, history: &Vec<String>, backref_token: char) -> (r: String)
    ensures
        r@ == resolved_backrefs(token@, history.deep_view(), backref_token),
{
    let mut cur: String = token.to_owned();
    let mut n: usize = history.len();
    while n >= 1
        invariant
            n <= history@.len(),
            history.deep_view().len() == history@.len(),
            resolved_backrefs(token@, history.deep_view(), backref_token) == apply_runs(
                cur@,
                history.deep_view(),
                backref_token,
                n as int,
            ),
        decreases n,
    {
        let next = replace_run(cur.as_str(), backref_token, n, history[n - 1].as_str());
        proof {
            assert(history.deep_view()[n - 1] == history@[n - 1]@);
        }
        cur = next;
        n = n - 1;
    }
    cur
}

} // verus!
