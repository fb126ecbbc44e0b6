//! One substitution pass over a string, and its fixed point.
//!
//! A pass walks the text left to right.  At each directly resolvable span it
//! copies the untouched prefix, takes the token strictly between the
//! delimiters, resolves back-reference runs in it against the history, looks
//! the resolved token up in the code table (an unknown token passes through
//! unchanged), appends the looked-up text to the output, and appends the
//! resolved-but-pre-lookup token to the history.  Scanning resumes after the
//! consumed span.  One pass only resolves the spans visible at the innermost
//! available level; full resolution of nested spans is the fixed point of
//! repeated passes.

use vstd::prelude::*;

use crate::backrefs::{expand_last, lemma_resolved_backrefs_free, resolved_backrefs};
use crate::chars::{
    count_char, count_of, lemma_count_concat, lemma_count_single, lemma_count_zero,
};
use crate::codes::{lookup_or_self, Codes};
use crate::scan::{
    find_char, find_char_from, find_first_valid_opening_bracket, find_resolvable,
    lemma_find_char, lemma_find_resolvable, lemma_no_begin_no_resolvable,
};

verus! {

/// One pass: the rewritten text and the history grown by the resolved
/// tokens, in the order their spans were consumed.
pub open spec fn expanded(
    s: Seq<char>,
    m: Map<Seq<char>, Seq<char>>,
    begin: char,
    end: char,
    hist: Seq<Seq<char>>,
    tok: char,
) -> (Seq<char>, Seq<Seq<char>>)
    decreases s.len(),
{
    match find_resolvable(s, begin, end, 0) {
        None => (s, hist),
        Some(b) => match find_char(s, end, b + 1) {
            Some(e) => if 0 <= b && b < e && e < s.len() {
                let resolved = resolved_backrefs(s.subrange(b + 1, e), hist, tok);
                let rest = expanded(
                    s.subrange(e + 1, s.len() as int),
                    m,
                    begin,
                    end,
                    hist.push(resolved),
                    tok,
                );
                (s.subrange(0, b) + lookup_or_self(m, resolved) + rest.0, rest.1)
            } else {
                (s, hist)
            },
            None => (s, hist),
        },
    }
}

/// Passes repeated until no resolvable span is left.  Every pass that
/// resolves a span removes one begin delimiter, and can fail to lower their
/// number only when a spliced-in code value or history entry carries that
/// delimiter itself; repeated passes over such a configuration have no
/// bound, so scanning stops with that pass's result instead of spinning.
/// [`lemma_fully_expanded_resolves`] shows that with delimiter-free values
/// and entries this stop never fires and a true fixed point is reached.
pub open spec fn fully_expanded(
    s: Seq<char>,
    m: Map<Seq<char>, Seq<char>>,
    begin: char,
    end: char,
    hist: Seq<Seq<char>>,
    tok: char,
) -> (Seq<char>, Seq<Seq<char>>)
    decreases count_char(s, begin),
{
    if find_resolvable(s, begin, end, 0) is None {
        (s, hist)
    } else {
        let r = expanded(s, m, begin, end, hist, tok);
        if count_char(r.0, begin) < count_char(s, begin) {
            fully_expanded(r.0, m, begin, end, r.1, tok)
        } else {
            r
        }
    }
}

/// No value of the table holds the character `c`.
pub open spec fn values_free(m: Map<Seq<char>, Seq<char>>, c: char) -> bool {
    forall|k: Seq<char>| m.contains_key(k) ==> !(#[trigger] m[k]).contains(c)
}

/// No entry of the history holds the character `c`.
pub open spec fn entries_free(h: Seq<Seq<char>>, c: char) -> bool {
    forall|i: int| 0 <= i < h.len() ==> !(#[trigger] h[i]).contains(c)
}

/// One pass over a text with no resolvable span changes nothing: once a
/// fixed point is reached, a further pass returns its input and leaves the
/// history alone.
pub proof fn lemma_expand_fixed_point(
    s: Seq<char>,
    m: Map<Seq<char>, Seq<char>>,
    begin: char,
    end: char,
    hist: Seq<Seq<char>>,
    tok: char,
)
    requires
        find_resolvable(s, begin, end, 0) is None,
    ensures
        expanded(s, m, begin, end, hist, tok) == (s, hist),
{
}

/// A text without the begin delimiter passes through a pass unchanged.
pub proof fn lemma_expand_no_delimiters(
    s: Seq<char>,
    m: Map<Seq<char>, Seq<char>>,
    begin: char,
    end: char,
    hist: Seq<Seq<char>>,
    tok: char,
)
    requires
        forall|i: int| 0 <= i < s.len() ==> s[i] != begin,
    ensures
        expanded(s, m, begin, end, hist, tok) == (s, hist),
        fully_expanded(s, m, begin, end, hist, tok) == (s, hist),
{
    lemma_no_begin_no_resolvable(s, begin, end);
}

/// With table values and history entries free of the begin delimiter, a
/// pass keeps the history entries free, never raises the number of begin
/// delimiters, and lowers it when it resolved a span.
pub proof fn lemma_expanded_begin_count(
    s: Seq<char>,
    m: Map<Seq<char>, Seq<char>>,
    begin: char,
    end: char,
    hist: Seq<Seq<char>>,
    tok: char,
)
    requires
        begin != end,
        values_free(m, begin),
        entries_free(hist, begin),
    ensures
        ({
            let r = expanded(s, m, begin, end, hist, tok);
            &&& entries_free(r.1, begin)
            &&& count_char(r.0, begin) <= count_char(s, begin)
            &&& find_resolvable(s, begin, end, 0) is Some ==> count_char(r.0, begin) < count_char(
                s,
                begin,
            )
        }),
    decreases s.len(),
{
    let len = s.len() as int;
    lemma_find_resolvable(s, begin, end, 0);
    match find_resolvable(s, begin, end, 0) {
        None => {},
        Some(b) => {
            let e = find_char(s, end, b + 1)->0;
            lemma_find_char(s, end, b + 1);
            let pre = s.subrange(0, b);
            let mid = s.subrange(b + 1, e);
            let rest_in = s.subrange(e + 1, len);
            assert forall|k: int| 0 <= k < mid.len() implies mid[k] != begin by {
                assert(mid[k] == s[b + 1 + k]);
            }
            let resolved = resolved_backrefs(mid, hist, tok);
            lemma_resolved_backrefs_free(mid, hist, tok, begin);
            let hist2 = hist.push(resolved);
            assert(entries_free(hist2, begin));
            let looked = lookup_or_self(m, resolved);
            assert(!looked.contains(begin));
            lemma_count_zero(looked, begin);
            lemma_expanded_begin_count(rest_in, m, begin, end, hist2, tok);
            let rest = expanded(rest_in, m, begin, end, hist2, tok);

            // The source splits around the consumed span.
            assert(s =~= pre + seq![s[b]] + mid + seq![s[e]] + rest_in);
            lemma_count_concat(pre + seq![s[b]] + mid + seq![s[e]], rest_in, begin);
            lemma_count_concat(pre + seq![s[b]] + mid, seq![s[e]], begin);
            lemma_count_concat(pre + seq![s[b]], mid, begin);
            lemma_count_concat(pre, seq![s[b]], begin);
            lemma_count_single(s[b], begin);
            lemma_count_single(s[e], begin);
            lemma_count_zero(mid, begin);
            assert(count_char(s, begin) == count_char(pre, begin) + 1 + count_char(
                rest_in,
                begin,
            ));

            // The output splits around the spliced-in value.
            lemma_count_concat(pre + looked, rest.0, begin);
            lemma_count_concat(pre, looked, begin);
        },
    }
}

/// With table values and history entries free of the begin delimiter, the
/// fixed point is truly reached: no resolvable span is left in the result,
/// and the grown history is still free of the delimiter.
pub proof fn lemma_fully_expanded_resolves(
    s: Seq<char>,
    m: Map<Seq<char>, Seq<char>>,
    begin: char,
    end: char,
    hist: Seq<Seq<char>>,
    tok: char,
)
    requires
        begin != end,
        values_free(m, begin),
        entries_free(hist, begin),
    ensures
        find_resolvable(fully_expanded(s, m, begin, end, hist, tok).0, begin, end, 0) is None,
        entries_free(fully_expanded(s, m, begin, end, hist, tok).1, begin),
    decreases count_char(s, begin),
{
    if find_resolvable(s, begin, end, 0) is Some {
        lemma_expanded_begin_count(s, m, begin, end, hist, tok);
        let r = expanded(s, m, begin, end, hist, tok);
        lemma_fully_expanded_resolves(r.0, m, begin, end, r.1, tok);
    }
}

/// With table values and history entries free of the begin delimiter, the
/// fixed point is stable: one more pass over what `fully_expanded` produced
/// returns it unchanged and grows no history.
pub proof fn lemma_fully_expanded_stable(
    s: Seq<char>,
    m: Map<Seq<char>, Seq<char>>,
    begin: char,
    end: char,
    hist: Seq<Seq<char>>,
    tok: char,
    h2: Seq<Seq<char>>,
)
    requires
        begin != end,
        values_free(m, begin),
        entries_free(hist, begin),
    ensures
        expanded(fully_expanded(s, m, begin, end, hist, tok).0, m, begin, end, h2, tok) == (
            fully_expanded(s, m, begin, end, hist, tok).0,
            h2,
        ),
{
    lemma_fully_expanded_resolves(s, m, begin, end, hist, tok);
    lemma_expand_fixed_point(fully_expanded(s, m, begin, end, hist, tok).0, m, begin, end, h2, tok);
}

/// One expansion pass over `input`.
///
/// `known_start` may hand in a precomputed result of
/// [`find_first_valid_opening_bracket`] for `input`; `None` makes this
/// function locate the first resolvable span itself.  Resolved tokens are
/// appended to `history`, which back-reference runs inside later tokens
/// address by position.
pub fn expand(
    input: &str,
    codes: &Codes,
    begin_var: char,
    end_var: char,
    known_start: Option<usize>,
    history: &mut Vec<String>,
    backref_token: char,
) -> (r: String)
    requires
        codes.wf(),
        known_start matches Some(k) ==> find_resolvable(input@, begin_var, end_var, 0) == Some(
            k as int,
        ),
    ensures
        r@ == expanded(
            input@,
            codes@,
            begin_var,
            end_var,
            old(history).deep_view(),
            backref_token,
        ).0,
        final(history).deep_view() == expanded(
            input@,
            codes@,
            begin_var,
            end_var,
            old(history).deep_view(),
            backref_token,
        ).1,
{
    let ghost m = codes@;
    let ghost hist0 = history.deep_view();
    let first = match known_start {
        Some(k) => Some(k),
        None => find_first_valid_opening_bracket(input, begin_var, end_var),
    };
    match first {
        None => {
            return input.to_owned();
        },
        Some(b0) => {
            let mut rest: &str = input;
            let mut next: usize = b0;
            let mut out = String::new();
            proof {
                assert(Seq::<char>::empty() + expanded(
                    rest@,
                    m,
                    begin_var,
                    end_var,
                    hist0,
                    backref_token,
                ).0 =~= expanded(rest@, m, begin_var, end_var, hist0, backref_token).0);
            }
            loop
                invariant_except_break
                    codes.wf(),
                    m == codes@,
                    find_resolvable(rest@, begin_var, end_var, 0) == Some(next as int),
                    expanded(input@, m, begin_var, end_var, hist0, backref_token).0 == out@
                        + expanded(
                        rest@,
                        m,
                        begin_var,
                        end_var,
                        history.deep_view(),
                        backref_token,
                    ).0,
                    expanded(input@, m, begin_var, end_var, hist0, backref_token).1 == expanded(
                        rest@,
                        m,
                        begin_var,
                        end_var,
                        history.deep_view(),
                        backref_token,
                    ).1,
                ensures
                    out@ == expanded(input@, m, begin_var, end_var, hist0, backref_token).0,
                    history.deep_view() == expanded(
                        input@,
                        m,
                        begin_var,
                        end_var,
                        hist0,
                        backref_token,
                    ).1,
                decreases rest@.len(),
            {
                proof {
                    lemma_find_resolvable(rest@, begin_var, end_var, 0);
                }
                let rlen = rest.unicode_len();
                let e_pos = match find_char_from(rest, end_var, next + 1) {
                    Some(x) => x,
                    None => {
                        proof {
                            assert(false);
                        }
                        next
                    },
                };
                let ghost h_before = history.deep_view();
                let ghost out_before = out@;
                let token_s = rest.substring_char(next + 1, e_pos);
                let resolved = expand_last(token_s, history, backref_token);
                let ghost r0 = resolved@;
                let looked = codes.get_or_self(&resolved);
                out.append(rest.substring_char(0, next));
                out.append(looked.as_str());
                let ghost hv_before = history@;
                history.push(resolved);
                proof {
                    assert forall|j: int| 0 <= j < history@.len() implies history.deep_view()[j]
                        == h_before.push(r0)[j] by {
                        if j < hv_before.len() {
                            assert(history@[j] == hv_before[j]);
                        } else {
                            assert(history@[j]@ == r0);
                        }
                    }
                    assert(history.deep_view() =~= h_before.push(r0));
                }
                let new_rest = rest.substring_char(e_pos + 1, rlen);
                proof {
                    let full = expanded(rest@, m, begin_var, end_var, h_before, backref_token);
                    let tail = expanded(
                        new_rest@,
                        m,
                        begin_var,
                        end_var,
                        h_before.push(r0),
                        backref_token,
                    );
                    assert(full.0 == rest@.subrange(0, next as int) + looked@ + tail.0);
                    assert(full.1 == tail.1);
                    assert(out@ + tail.0 =~= out_before + full.0);
                }
                match find_first_valid_opening_bracket(new_rest, begin_var, end_var) {
                    Some(nb) => {
                        rest = new_rest;
                        next = nb;
                    },
                    None => {
                        out.append(new_rest);
                        break;
                    },
                }
            }
            out
        },
    }
}

/// `seg` expanded pass after pass until no resolvable span is left (or until
/// a pass stopped lowering the number of begin delimiters, which only a code
/// value holding that delimiter can bring about).
pub fn expand_fully(
    seg: &str,
    codes: &Codes,
    begin_var: char,
    end_var: char,
    history: &mut Vec<String>,
    backref_token: char,
) -> (r: String)
    requires
        codes.wf(),
    ensures
        r@ == fully_expanded(
            seg@,
            codes@,
            begin_var,
            end_var,
            old(history).deep_view(),
            backref_token,
        ).0,
        final(history).deep_view() == fully_expanded(
            seg@,
            codes@,
            begin_var,
            end_var,
            old(history).deep_view(),
            backref_token,
        ).1,
{
    let ghost m = codes@;
    let ghost hist0 = history.deep_view();
    let mut cur: String = seg.to_owned();
    let mut cnt = count_of(cur.as_str(), begin_var);
    loop
        invariant_except_break
            codes.wf(),
            m == codes@,
            cnt == count_char(cur@, begin_var),
            fully_expanded(seg@, m, begin_var, end_var, hist0, backref_token) == fully_expanded(
                cur@,
                m,
                begin_var,
                end_var,
                history.deep_view(),
                backref_token,
            ),
        ensures
            cur@ == fully_expanded(seg@, m, begin_var, end_var, hist0, backref_token).0,
            history.deep_view() == fully_expanded(
                seg@,
                m,
                begin_var,
                end_var,
                hist0,
                backref_token,
            ).1,
        decreases count_char(cur@, begin_var),
    {
        match find_first_valid_opening_bracket(cur.as_str(), begin_var, end_var) {
            None => {
                break;
            },
            Some(k) => {
                let next = expand(
                    cur.as_str(),
                    codes,
                    begin_var,
                    end_var,
                    Some(k),
                    history,
                    backref_token,
                );
                let ncnt = count_of(next.as_str(), begin_var);
                if ncnt < cnt {
                    cur = next;
                    cnt = ncnt;
                } else {
                    cur = next;
                    break;
                }
            },
        }
    }
    cur
}

} // verus!
