//! Locating the next directly resolvable variable span in a string.
//!
//! A begin delimiter is *directly resolvable* when its nearest following end
//! delimiter comes before any further begin delimiter.  Scanning skips
//! forward to a nested begin delimiter whenever one opens before the current
//! one closes, so nested spans resolve innermost first.  A begin delimiter
//! with no end delimiter anywhere after it is not resolvable: the scan then
//! finds nothing, which is not an error.

use vstd::prelude::*;

verus! {

/// Index of the first occurrence of `c` in `s` at or after `from`.
pub open spec fn find_char(s: Seq<char>, c: char, from: int) -> Option<int>
    decreases s.len() - from,
{
    if from < 0 || from >= s.len() {
        None
    } else if s[from] == c {
        Some(from)
    } else {
        find_char(s, c, from + 1)
    }
}

/// Index of the earliest directly resolvable begin delimiter at or after
/// `from`: the nearest `end` after it comes before any further `begin`.
pub open spec fn find_resolvable(s: Seq<char>, begin: char, end: char, from: int) -> Option<int>
    decreases s.len() - from,
{
    match find_char(s, begin, from) {
        None => None,
        Some(b) => match find_char(s, end, b + 1) {
            None => None,
            Some(e) => match find_char(s, begin, b + 1) {
                Some(b2) => if b2 < e && from < b2 && b2 <= s.len() {
                    find_resolvable(s, begin, end, b2)
                } else {
                    Some(b)
                },
                None => Some(b),
            },
        },
    }
}

/// What a `find_char` result means.
pub proof fn lemma_find_char(s: Seq<char>, c: char, from: int)
    requires
        0 <= from <= s.len(),
    ensures
        match find_char(s, c, from) {
            Some(i) => from <= i < s.len() && s[i] == c && forall|j: int|
                from <= j < i ==> s[j] != c,
            None => forall|j: int| from <= j < s.len() ==> s[j] != c,
        },
    decreases s.len() - from,
{
    if from < s.len() && s[from] != c {
        lemma_find_char(s, c, from + 1);
    }
}

/// What a `find_resolvable` result means: the position holds a begin
/// delimiter, an end delimiter follows it, and no begin delimiter stands
/// strictly between it and the nearest end delimiter after it.
pub proof fn lemma_find_resolvable(s: Seq<char>, begin: char, end: char, from: int)
    requires
        0 <= from <= s.len(),
    ensures
        match find_resolvable(s, begin, end, from) {
            Some(b) => {
                &&& from <= b < s.len()
                &&& s[b] == begin
                &&& find_char(s, end, b + 1) is Some
                &&& find_char(s, end, b + 1)->0 < s.len()
                &&& b + 1 <= find_char(s, end, b + 1)->0
                &&& forall|j: int| b < j < find_char(s, end, b + 1)->0 ==> s[j] != begin
            },
            None => true,
        },
    decreases s.len() - from,
{
    match find_char(s, begin, from) {
        None => {},
        Some(b) => {
            lemma_find_char(s, begin, from);
            match find_char(s, end, b + 1) {
                None => {},
                Some(e) => {
                    lemma_find_char(s, end, b + 1);
                    lemma_find_char(s, begin, b + 1);
                    match find_char(s, begin, b + 1) {
                        Some(b2) => {
                            if b2 < e && from < b2 && b2 <= s.len() {
                                lemma_find_resolvable(s, begin, end, b2);
                            }
                        },
                        None => {},
                    }
                },
            }
        },
    }
}

/// A string without the begin delimiter has no resolvable span.
pub proof fn lemma_no_begin_no_resolvable(s: Seq<char>, begin: char, end: char)
    requires
        forall|i: int| 0 <= i < s.len() ==> s[i] != begin,
    ensures
        find_resolvable(s, begin, end, 0) is None,
{
    lemma_find_char(s, begin, 0);
    if find_char(s, begin, 0) is Some {
        let b = find_char(s, begin, 0)->0;
        assert(s[b] == begin);
    }
}

/// First occurrence of `c` in `s` at or after `from`, by a linear scan.
pub fn find_char_from(s: &str, c: char, from: usize) -> (r: Option<usize>)
    requires
        from <= s@.len(),
    ensures
        match r {
            Some(i) => find_char(s@, c, from as int) == Some(i as int),
            None => find_char(s@, c, from as int) is None,
        },
{
    let len = s.unicode_len();
    let mut i = from;
    while i < len
        invariant
            from <= i <= len,
            len == s@.len(),
            find_char(s@, c, from as int) == find_char(s@, c, i as int),
        decreases len - i,
    {
        if s.get_char(i) == c {
            return Some(i);
        }
        i = i + 1;
    }
    None
}

/// Position of the earliest directly resolvable begin delimiter of `input`,
/// or `None` when no span can be resolved (no begin delimiter left, or none
/// with an end delimiter after it).
pub fn find_first_valid_opening_bracket(input: &str, begin: char, end: char) -> (r: Option<
    usize,
>)
    ensures
        match r {
            Some(i) => find_resolvable(input@, begin, end, 0) == Some(i as int),
            None => find_resolvable(input@, begin, end, 0) is None,
        },
{
    let len = input.unicode_len();
    let mut from: usize = 0;
    loop
        invariant
            len == input@.len(),
            from <= input@.len(),
            find_resolvable(input@, begin, end, 0) == find_resolvable(
                input@,
                begin,
                end,
                from as int,
            ),
        decreases input@.len() - from,
    {
        match find_char_from(input, begin, from) {
            None => {
                return None;
            },
            Some(b) => {
                proof {
                    lemma_find_char(input@, begin, from as int);
                }
                match find_char_from(input, end, b + 1) {
                    None => {
                        return None;
                    },
                    Some(e) => {
                        proof {
                            lemma_find_char(input@, end, b + 1);
                        }
                        match find_char_from(input, begin, b + 1) {
                            Some(b2) if b2 < e => {
                                proof {
                                    lemma_find_char(input@, begin, b + 1);
                                }
                                from = b2;
                            },
                            _ => {
                                return Some(b);
                            },
                        }
                    },
                }
            },
        }
    }
}

} // verus!
