//! Decomposing one bare filename into destination path segments.
//!
//! While the remaining tail of the name holds more separators than the
//! threshold, the text before the first separator is split off as a segment,
//! expanded to its fixed point, and appended as the next destination path
//! component; the fully expanded, pre-lookup text of every segment joins the
//! expansion history, which back-references inside later segments address.
//! A segment with no delimiter span at all gets exactly one direct
//! code-table lookup instead.  What the loop leaves of the name — the final
//! threshold's worth of separators and the extension — stays untouched as
//! the leaf filename.  Paths are sequences of components; turning them into
//! the platform's paths is the caller's business.

use vstd::prelude::*;

use crate::chars::{count_char, count_of, lemma_count_zero};
use crate::codes::{lookup_or_self, Codes};
use crate::dates::{date_folders, DateError, DateFolders};
use crate::expand::{expand_fully, fully_expanded};
use crate::scan::{
    find_char, find_char_from, find_first_valid_opening_bracket, find_resolvable, lemma_find_char,
};

verus! {

/// One segment: its destination text and the history after it.  The fully
/// expanded text joins the history either way; the one direct lookup happens
/// only when the segment had no delimiter span at all, since otherwise the
/// per-span lookups of the expansion already did the looking up.
pub open spec fn composed_segment(
    seg: Seq<char>,
    m: Map<Seq<char>, Seq<char>>,
    begin: char,
    end: char,
    tok: char,
    hist: Seq<Seq<char>>,
) -> (Seq<char>, Seq<Seq<char>>) {
    let r = fully_expanded(seg, m, begin, end, hist, tok);
    let text = if find_resolvable(seg, begin, end, 0) is None {
        lookup_or_self(m, seg)
    } else {
        r.0
    };
    (text, r.1.push(r.0))
}

/// The destination texts of the segments consumed while the tail holds more
/// than `thr` separators, and the untouched final tail.
pub open spec fn consumed(
    tail: Seq<char>,
    m: Map<Seq<char>, Seq<char>>,
    sep: char,
    thr: int,
    begin: char,
    end: char,
    tok: char,
    hist: Seq<Seq<char>>,
) -> (Seq<Seq<char>>, Seq<char>)
    decreases tail.len(),
{
    if count_char(tail, sep) <= thr {
        (Seq::empty(), tail)
    } else {
        match find_char(tail, sep, 0) {
            Some(i) => if 0 <= i < tail.len() {
                let sr = composed_segment(tail.subrange(0, i), m, begin, end, tok, hist);
                let more = consumed(
                    tail.subrange(i + 1, tail.len() as int),
                    m,
                    sep,
                    thr,
                    begin,
                    end,
                    tok,
                    sr.1,
                );
                (seq![sr.0] + more.0, more.1)
            } else {
                (Seq::empty(), tail)
            },
            None => (Seq::empty(), tail),
        }
    }
}

/// The move target for one bare filename: the full path's components, whose
/// last is the leaf filename, and the parent directory's components.  A date
/// puts its year right after the destination root and its month last before
/// the leaf.
pub open spec fn composed(
    name: Seq<char>,
    dest: Seq<Seq<char>>,
    m: Map<Seq<char>, Seq<char>>,
    date: Option<(Seq<char>, Seq<char>)>,
    sep: char,
    thr: int,
    begin: char,
    end: char,
    tok: char,
) -> (Seq<Seq<char>>, Seq<Seq<char>>) {
    let base = match date {
        Some(d) => dest.push(d.0),
        None => dest,
    };
    let cr = consumed(name, m, sep, thr, begin, end, tok, Seq::empty());
    let parent = match date {
        Some(d) => base + cr.0 + seq![d.1],
        None => base + cr.0,
    };
    (parent.push(cr.1), parent)
}

/// The segment loop stops exactly where it should: the tail it leaves holds
/// at most `thr` separators.
pub proof fn lemma_consumed_tail_within_threshold(
    tail: Seq<char>,
    m: Map<Seq<char>, Seq<char>>,
    sep: char,
    thr: int,
    begin: char,
    end: char,
    tok: char,
    hist: Seq<Seq<char>>,
)
    requires
        thr >= 0,
    ensures
        count_char(consumed(tail, m, sep, thr, begin, end, tok, hist).1, sep) <= thr,
    decreases tail.len(),
{
    if count_char(tail, sep) > thr {
        lemma_find_char(tail, sep, 0);
        match find_char(tail, sep, 0) {
            Some(i) => {
                let sr = composed_segment(tail.subrange(0, i), m, begin, end, tok, hist);
                lemma_consumed_tail_within_threshold(
                    tail.subrange(i + 1, tail.len() as int),
                    m,
                    sep,
                    thr,
                    begin,
                    end,
                    tok,
                    sr.1,
                );
            },
            None => {
                lemma_count_zero(tail, sep);
            },
        }
    }
}

/// The leaf filename of a composed move target keeps at most the
/// threshold's worth of separators: what the segment loop does not consume
/// stays untouched as the last component.
pub proof fn lemma_leaf_keeps_threshold_tail(
    name: Seq<char>,
    dest: Seq<Seq<char>>,
    m: Map<Seq<char>, Seq<char>>,
    date: Option<(Seq<char>, Seq<char>)>,
    sep: char,
    thr: int,
    begin: char,
    end: char,
    tok: char,
)
    requires
        thr >= 0,
    ensures
        ({
            let r = composed(name, dest, m, date, sep, thr, begin, end, tok);
            &&& r.0.len() == r.1.len() + 1
            &&& r.0.last() == consumed(name, m, sep, thr, begin, end, tok, Seq::empty()).1
            &&& count_char(r.0.last(), sep) <= thr
        }),
{
    lemma_consumed_tail_within_threshold(
        name,
        m,
        sep,
        thr,
        begin,
        end,
        tok,
        Seq::<Seq<char>>::empty(),
    );
}

/// The component views of an optional date.
pub open spec fn date_view(d: Option<&DateFolders>) -> Option<(Seq<char>, Seq<char>)> {
    match d {
        Some(df) => Some((df.year@, df.month@)),
        None => None,
    }
}

/// A component list with the same texts.
fn clone_strings(v: &Vec<String>) -> (r: Vec<String>)
    ensures
        r.deep_view() == v.deep_view(),
{
    let n = v.len();
    let mut out: Vec<String> = Vec::new();
    let mut i: usize = 0;
    while i < n
        invariant
            i <= n,
            n == v.len(),
            out@.len() == i,
            forall|j: int| 0 <= j < i ==> (#[trigger] out@[j])@ == v@[j]@,
        decreases n - i,
    {
        out.push(v[i].clone());
        i = i + 1;
    }
    proof {
        assert forall|j: int| 0 <= j < n implies out.deep_view()[j] == v.deep_view()[j] by {
            assert(out@[j]@ == v@[j]@);
        }
        assert(out.deep_view() =~= v.deep_view());
    }
    out
}

/// The move target for `name` under `dest`, with the date folders already
/// resolved.  Exact in every argument: the result is `composed` of the
/// views.
pub fn compose_path(
    name: &str,
    dest: &Vec<String>,
    codes: &Codes,
    date: Option<&DateFolders>,
    separator: char,
    filename_separators: usize,
    begin_var: char,
    end_var: char,
    backref_token: char,
) -> (r: (Vec<String>, Vec<String>))
    requires
        codes.wf(),
    ensures
        r.0.deep_view() == composed(
            name@,
            dest.deep_view(),
            codes@,
            date_view(date),
            separator,
            filename_separators as int,
            begin_var,
            end_var,
            backref_token,
        ).0,
        r.1.deep_view() == composed(
            name@,
            dest.deep_view(),
            codes@,
            date_view(date),
            separator,
            filename_separators as int,
            begin_var,
            end_var,
            backref_token,
        ).1,
{
    let ghost m = codes@;
    let ghost thr = filename_separators as int;
    let mut parent = clone_strings(dest);
    if let Some(df) = date {
        let ghost pv = parent.deep_view();
        let ghost yv = df.year@;
        parent.push(df.year.clone());
        proof {
            assert forall|j: int| 0 <= j < parent@.len() implies parent.deep_view()[j] == pv.push(
                yv,
            )[j] by {}
            assert(parent.deep_view() =~= pv.push(yv));
        }
    }
    let ghost base_v = parent.deep_view();
    let ghost c0 = consumed(
        name@,
        m,
        separator,
        thr,
        begin_var,
        end_var,
        backref_token,
        Seq::empty(),
    );
    let mut history: Vec<String> = Vec::new();
    let mut tail: &str = name;
    let ghost mut done: Seq<Seq<char>> = Seq::empty();
    proof {
        assert(history.deep_view() =~= Seq::<Seq<char>>::empty());
        assert(parent.deep_view() =~= base_v + done);
        assert(done + c0.0 =~= c0.0);
    }
    while count_of(tail, separator) > filename_separators
        invariant
            codes.wf(),
            m == codes@,
            thr == filename_separators as int,
            parent.deep_view() == base_v + done,
            c0 == consumed(
                name@,
                m,
                separator,
                thr,
                begin_var,
                end_var,
                backref_token,
                Seq::<Seq<char>>::empty(),
            ),
            ({
                let more = consumed(
                    tail@,
                    m,
                    separator,
                    thr,
                    begin_var,
                    end_var,
                    backref_token,
                    history.deep_view(),
                );
                c0 == (done + more.0, more.1)
            }),
        decreases tail@.len(),
    {
        let ghost h_pre = history.deep_view();
        let tlen = tail.unicode_len();
        let idx = match find_char_from(tail, separator, 0) {
            Some(i) => i,
            None => {
                proof {
                    lemma_find_char(tail@, separator, 0);
                    lemma_count_zero(tail@, separator);
                    assert(false);
                }
                0
            },
        };
        proof {
            lemma_find_char(tail@, separator, 0);
        }
        let seg = tail.substring_char(0, idx);
        let new_tail = tail.substring_char(idx + 1, tlen);
        let had_span = find_first_valid_opening_bracket(seg, begin_var, end_var);
        let expanded_txt = expand_fully(
            seg,
            codes,
            begin_var,
            end_var,
            &mut history,
            backref_token,
        );
        let text: String = match had_span {
            None => codes.get_or_self(&expanded_txt),
            Some(_) => expanded_txt.clone(),
        };
        let ghost e0 = expanded_txt@;
        let ghost hv_mid = history@;
        let ghost h_mid = history.deep_view();
        history.push(expanded_txt);
        proof {
            assert forall|j: int| 0 <= j < history@.len() implies history.deep_view()[j]
                == h_mid.push(e0)[j] by {
                if j < hv_mid.len() {
                    assert(history@[j] == hv_mid[j]);
                } else {
                    assert(history@[j]@ == e0);
                }
            }
            assert(history.deep_view() =~= h_mid.push(e0));
        }
        let ghost t0 = text@;
        let ghost pv = parent.deep_view();
        parent.push(text);
        proof {
            assert forall|j: int| 0 <= j < parent@.len() implies parent.deep_view()[j] == pv.push(
                t0,
            )[j] by {}
            assert(parent.deep_view() =~= pv.push(t0));

            let sr = composed_segment(seg@, m, begin_var, end_var, backref_token, h_pre);
            assert(seg@ == tail@.subrange(0, idx as int));
            assert(sr.0 == t0);
            assert(sr.1 == history.deep_view());
            let more = consumed(
                new_tail@,
                m,
                separator,
                thr,
                begin_var,
                end_var,
                backref_token,
                history.deep_view(),
            );
            assert(consumed(
                tail@,
                m,
                separator,
                thr,
                begin_var,
                end_var,
                backref_token,
                h_pre,
            ) == (seq![sr.0] + more.0, more.1));
            assert(done + (seq![sr.0] + more.0) =~= done.push(t0) + more.0);
            done = done.push(t0);
            assert(parent.deep_view() =~= base_v + done);
        }
        tail = new_tail;
    }
    proof {
        assert(consumed(
            tail@,
            m,
            separator,
            thr,
            begin_var,
            end_var,
            backref_token,
            history.deep_view(),
        ) == (Seq::<Seq<char>>::empty(), tail@));
        assert(done + Seq::<Seq<char>>::empty() =~= done);
        assert(c0.0 == done && c0.1 == tail@);
    }
    if let Some(df) = date {
        let ghost pv = parent.deep_view();
        let ghost mv = df.month@;
        parent.push(df.month.clone());
        proof {
            assert forall|j: int| 0 <= j < parent@.len() implies parent.deep_view()[j] == pv.push(
                mv,
            )[j] by {}
            assert(parent.deep_view() =~= pv.push(mv));
            assert(parent.deep_view() =~= base_v + c0.0 + seq![mv]);
        }
    }
    let mut leaf = clone_strings(&parent);
    let ghost lv = leaf.deep_view();
    let last = tail.to_owned();
    let ghost la = last@;
    leaf.push(last);
    proof {
        assert forall|j: int| 0 <= j < leaf@.len() implies leaf.deep_view()[j] == lv.push(
            la,
        )[j] by {}
        assert(leaf.deep_view() =~= lv.push(la));
        if date is None {
            assert(parent.deep_view() =~= base_v + c0.0);
        }
    }
    (leaf, parent)
}

/// The move target for `name`, deriving the date folders from `timestamp`
/// when `timeinfo` asks for them.  Without the date feature the result is
/// exact; with it, the year and month directories come from the machine's
/// time zone and locale, so the contract promises the composition for some
/// such pair.  Only the date derivation can fail, and only with `timeinfo`
/// set: a timestamp beyond the calendar fails with
/// [`DateError::TimestampOutOfRange`], exactly, and within the calendar
/// only the locale's month names can still fail.
pub fn get_new_name(
    name: &str,
    dest: &Vec<String>,
    codes: &Codes,
    timestamp: Option<u64>,
    timeinfo: bool,
    separator: char,
    filename_separators: usize,
    begin_var: char,
    end_var: char,
    backref_token: char,
) -> (r: Result<(Vec<String>, Vec<String>), DateError>)
    requires
        codes.wf(),
        timeinfo ==> timestamp is Some,
    ensures
        !timeinfo ==> (r matches Ok(v) && v.0.deep_view() == composed(
            name@,
            dest.deep_view(),
            codes@,
            None,
            separator,
            filename_separators as int,
            begin_var,
            end_var,
            backref_token,
        ).0 && v.1.deep_view() == composed(
            name@,
            dest.deep_view(),
            codes@,
            None,
            separator,
            filename_separators as int,
            begin_var,
            end_var,
            backref_token,
        ).1),
        timeinfo ==> (r matches Ok(v) ==> exists|d: (Seq<char>, Seq<char>)|
            v.0.deep_view() == composed(
                name@,
                dest.deep_view(),
                codes@,
                Some(d),
                separator,
                filename_separators as int,
                begin_var,
                end_var,
                backref_token,
            ).0 && v.1.deep_view() == composed(
                name@,
                dest.deep_view(),
                codes@,
                Some(d),
                separator,
                filename_separators as int,
                begin_var,
                end_var,
                backref_token,
            ).1),
        r is Err ==> timeinfo,
        r == Err::<(Vec<String>, Vec<String>), DateError>(DateError::TimestampOutOfRange) <==> (
        timeinfo && timestamp->0 > crate::dates::MAX_CALENDAR_SECOND),
{
    if timeinfo {
        match date_folders(timestamp.unwrap()) {
            Err(e) => Err(e),
            Ok(df) => {
                let r = compose_path(
                    name,
                    dest,
                    codes,
                    Some(&df),
                    separator,
                    filename_separators,
                    begin_var,
                    end_var,
                    backref_token,
                );
                proof {
                    let d = (df.year@, df.month@);
                    assert(date_view(Some(&df)) == Some(d));
                }
                Ok(r)
            },
        }
    } else {
        Ok(
            compose_path(
                name,
                dest,
                codes,
                None,
                separator,
                filename_separators,
                begin_var,
                end_var,
                backref_token,
            ),
        )
    }
}

} // verus!
