//! The code table: shortcut keys mapped to their expansion text.
//!
//! The table is a list of key/value pairs with pairwise distinct keys, seen
//! in contracts as a [`Map`] from key characters to value characters.  An
//! unknown key is never an error anywhere in the crate: looking one up falls
//! back to the key itself.

use vstd::prelude::*;

verus! {

/// The map that a pair list denotes: later pairs win.
pub open spec fn map_of(s: Seq<(Seq<char>, Seq<char>)>) -> Map<Seq<char>, Seq<char>>
    decreases s.len(),
{
    if s.len() == 0 {
        Map::empty()
    } else {
        map_of(s.drop_last()).insert(s.last().0, s.last().1)
    }
}

/// No two pairs share a key.
pub open spec fn keys_unique(s: Seq<(Seq<char>, Seq<char>)>) -> bool {
    forall|i: int, j: int| 0 <= i < j < s.len() ==> s[i].0 != s[j].0
}

/// A pair list with the value of the first pair keyed `k` replaced by `v`,
/// or with `(k, v)` appended when no pair has that key.
pub open spec fn upsert(
    s: Seq<(Seq<char>, Seq<char>)>,
    k: Seq<char>,
    v: Seq<char>,
) -> Seq<(Seq<char>, Seq<char>)>
    decreases s.len(),
{
    if s.len() == 0 {
        seq![(k, v)]
    } else if s[0].0 == k {
        seq![(k, v)] + s.drop_first()
    } else {
        seq![s[0]] + upsert(s.drop_first(), k, v)
    }
}

/// Lookup with fallback: an absent key stands for itself.
pub open spec fn lookup_or_self(m: Map<Seq<char>, Seq<char>>, t: Seq<char>) -> Seq<char> {
    if m.contains_key(t) {
        m[t]
    } else {
        t
    }
}

/// A pair list restricted to the pairs the cleaner keeps.
pub open spec fn filtered_valid(s: Seq<(Seq<char>, Seq<char>)>) -> Seq<(Seq<char>, Seq<char>)>
    decreases s.len(),
{
    if s.len() == 0 {
        Seq::empty()
    } else if valid_code(s.last().0, s.last().1) {
        filtered_valid(s.drop_last()).push(s.last())
    } else {
        filtered_valid(s.drop_last())
    }
}

/// A key/value pair the configuration cleaner keeps: both sides non-empty,
/// no path separator on either side, no segment separator dot in the key,
/// and a value that is not a relative-directory name.
pub open spec fn valid_code(k: Seq<char>, v: Seq<char>) -> bool {
    &&& k.len() > 0
    &&& !k.contains('.')
    &&& !k.contains('/')
    &&& v.len() > 0
    &&& !v.contains('/')
    &&& v != seq!['.']
    &&& v != seq!['.', '.']
}

pub proof fn lemma_map_of_index(s: Seq<(Seq<char>, Seq<char>)>, i: int)
    requires
        keys_unique(s),
        0 <= i < s.len(),
    ensures
        map_of(s).contains_key(s[i].0),
        map_of(s)[s[i].0] == s[i].1,
    decreases s.len(),
{
    if i < s.len() - 1 {
        lemma_map_of_index(s.drop_last(), i);
    }
}

pub proof fn lemma_map_of_contains(s: Seq<(Seq<char>, Seq<char>)>, k: Seq<char>)
    requires
        map_of(s).contains_key(k),
    ensures
        exists|i: int| 0 <= i < s.len() && s[i].0 == k,
    decreases s.len(),
{
    if s.len() > 0 {
        if s.last().0 == k {
            assert(s[s.len() - 1].0 == k);
        } else {
            lemma_map_of_contains(s.drop_last(), k);
            let i = choose|i: int| 0 <= i < s.drop_last().len() && s.drop_last()[i].0 == k;
            assert(s[i].0 == k);
        }
    }
}

proof fn lemma_map_of_push(s: Seq<(Seq<char>, Seq<char>)>, k: Seq<char>, v: Seq<char>)
    ensures
        map_of(s.push((k, v))) == map_of(s).insert(k, v),
{
    assert(s.push((k, v)).drop_last() =~= s);
}

proof fn lemma_map_of_update(s: Seq<(Seq<char>, Seq<char>)>, i: int, v: Seq<char>)
    requires
        keys_unique(s),
        0 <= i < s.len(),
    ensures
        map_of(s.update(i, (s[i].0, v))) == map_of(s).insert(s[i].0, v),
    decreases s.len(),
{
    let t = s.update(i, (s[i].0, v));
    if i == s.len() - 1 {
        assert(t.drop_last() =~= s.drop_last());
        assert(map_of(s.drop_last()).insert(s[i].0, s[i].1).insert(s[i].0, v) =~= map_of(
            s.drop_last(),
        ).insert(s[i].0, v));
    } else {
        assert(t.drop_last() =~= s.drop_last().update(i, (s[i].0, v)));
        lemma_map_of_update(s.drop_last(), i, v);
        // The final pair's key differs from the updated key, so the two
        // inserts commute.
        assert(s[i].0 != s.last().0);
        assert(map_of(s.drop_last()).insert(s[i].0, v).insert(s.last().0, s.last().1) =~= map_of(
            s.drop_last(),
        ).insert(s.last().0, s.last().1).insert(s[i].0, v));
    }
}

/// A code table with pairwise distinct keys.
pub struct Codes {
    entries: Vec<(String, String)>,
}

impl View for Codes {
    type V = Map<Seq<char>, Seq<char>>;

    closed spec fn view(&self) -> Map<Seq<char>, Seq<char>> {
        map_of(self.entries.deep_view())
    }
}

impl Codes {
    /// The key/value pairs, in insertion order.
    pub closed spec fn entry_views(&self) -> Seq<(Seq<char>, Seq<char>)> {
        self.entries.deep_view()
    }

    pub closed spec fn wf(&self) -> bool {
        keys_unique(self.entries.deep_view())
    }

    /// The map view is the one the pair list denotes.
    pub proof fn lemma_view(&self)
        ensures
            self@ == map_of(self.entry_views()),
    {
    }

    pub fn new() -> (r: Codes)
        ensures
            r.wf(),
            r@ == Map::<Seq<char>, Seq<char>>::empty(),
            r.entry_views() == Seq::<(Seq<char>, Seq<char>)>::empty(),
    {
        let r = Codes { entries: Vec::new() };
        proof {
            assert(r.entries.deep_view() =~= Seq::<(Seq<char>, Seq<char>)>::empty());
        }
        r
    }

    pub fn is_empty(&self) -> (r: bool)
        ensures
            r == (self.entry_views().len() == 0),
    {
        self.entries.len() == 0
    }

    pub fn len(&self) -> (r: usize)
        ensures
            r == self.entry_views().len(),
    {
        self.entries.len()
    }

    /// Index of the first pair keyed `key`, if any.
    fn position_of(&self, key: &String) -> (r: Option<usize>)
        ensures
            match r {
                Some(i) => i < self.entry_views().len() && self.entry_views()[i as int].0 == key@
                    && forall|j: int| 0 <= j < i ==> self.entry_views()[j].0 != key@,
                None => forall|j: int|
                    0 <= j < self.entry_views().len() ==> self.entry_views()[j].0 != key@,
            },
    {
        let n = self.entries.len();
        let mut i: usize = 0;
        while i < n
            invariant
                i <= n,
                n == self.entries.len(),
                forall|j: int| 0 <= j < i ==> self.entry_views()[j].0 != key@,
            decreases n - i,
        {
            if self.entries[i].0 == *key {
                return Some(i);
            }
            i = i + 1;
        }
        None
    }

    /// Puts `value` under `key`, replacing the value a present key had.
    pub fn insert(&mut self, key: String, value: String)
        requires
            old(self).wf(),
        ensures
            final(self).wf(),
            final(self)@ == old(self)@.insert(key@, value@),
            final(self).entry_views() == upsert(old(self).entry_views(), key@, value@),
    {
        let ghost s = self.entry_views();
        match self.position_of(&key) {
            Some(i) => {
                self.entries.set(i, (key, value));
                proof {
                    assert(self.entries.deep_view() =~= s.update(i as int, (key@, value@)));
                    assert(s.update(i as int, (key@, value@)) == s.update(
                        i as int,
                        (s[i as int].0, value@),
                    ));
                    lemma_map_of_update(s, i as int, value@);
                    lemma_upsert_found(s, key@, value@, i as int);
                    assert forall|x: int, y: int|
                        0 <= x < y < self.entries.deep_view().len() implies self.entries.deep_view()[x].0
                        != self.entries.deep_view()[y].0 by {
                        assert(s[x].0 != s[y].0);
                    }
                }
            },
            None => {
                self.entries.push((key, value));
                proof {
                    assert(self.entries.deep_view() =~= s.push((key@, value@)));
                    lemma_map_of_push(s, key@, value@);
                    lemma_upsert_absent(s, key@, value@);
                }
            },
        }
    }

    /// The value under `key`, when the key is known.
    pub fn get(&self, key: &String) -> (r: Option<&String>)
        requires
            self.wf(),
        ensures
            match r {
                Some(v) => self@.contains_key(key@) && v@ == self@[key@],
                None => !self@.contains_key(key@),
            },
    {
        match self.position_of(key) {
            Some(i) => {
                proof {
                    lemma_map_of_index(self.entry_views(), i as int);
                }
                Some(&self.entries[i].1)
            },
            None => {
                proof {
                    if self@.contains_key(key@) {
                        lemma_map_of_contains(self.entry_views(), key@);
                    }
                }
                None
            },
        }
    }

    /// The value under `token`, or `token` itself when the key is unknown:
    /// unknown codes pass through unchanged.
    pub fn get_or_self(&self, token: &String) -> (r: String)
        requires
            self.wf(),
        ensures
            r@ == lookup_or_self(self@, token@),
    {
        match self.get(token) {
            Some(v) => v.clone(),
            None => token.clone(),
        }
    }

    /// The table restricted to the pairs the cleaner keeps.
    pub fn filter_valid(&self) -> (r: Codes)
        requires
            self.wf(),
        ensures
            r.wf(),
            r.entry_views() == filtered_valid(self.entry_views()),
    {
        let n = self.entries.len();
        let mut out: Vec<(String, String)> = Vec::new();
        let mut i: usize = 0;
        while i < n
            invariant
                i <= n,
                n == self.entries.len(),
                self.wf(),
                out.deep_view() =~= filtered_valid(self.entry_views().take(i as int)),
            decreases n - i,
        {
            let ghost s = self.entry_views();
            let p = &self.entries[i];
            let keep = code_pair_valid(&p.0, &p.1);
            if keep {
                out.push((p.0.clone(), p.1.clone()));
            }
            proof {
                assert(s.take(i + 1).drop_last() =~= s.take(i as int));
                assert(s.take(i + 1).last() == s[i as int]);
                if keep {
                    assert(out.deep_view() =~= filtered_valid(s.take(i as int)).push(s[i as int]));
                } else {
                    assert(out.deep_view() =~= filtered_valid(s.take(i as int)));
                }
            }
            i = i + 1;
        }
        let r = Codes { entries: out };
        proof {
            assert(self.entry_views().take(n as int) =~= self.entry_views());
            let f = filtered_valid(self.entry_views());
            assert forall|x: int, y: int| 0 <= x < y < f.len() implies f[x].0 != f[y].0 by {
                lemma_filtered_unique(self.entry_views(), x, y);
            }
        }
        r
    }

    /// The key/value pairs, in table order.
    pub fn entries(&self) -> (r: &Vec<(String, String)>)
        ensures
            r.deep_view() == self.entry_views(),
    {
        &self.entries
    }

    /// One `\t<key> = <value>\n` line for each pair, in table order.
    pub fn render(&self) -> (r: String)
        ensures
            r@ == render_of(self.entry_views()),
    {
        let n = self.entries.len();
        let mut out = String::new();
        let mut i: usize = 0;
        proof {
            reveal_strlit("\t");
            reveal_strlit(" = ");
            reveal_strlit("\n");
        }
        while i < n
            invariant
                i <= n,
                n == self.entries.len(),
                out@ =~= render_of(self.entry_views().take(i as int)),
                "\t"@ == seq!['\t'] && " = "@ == seq![' ', '=', ' '] && "\n"@ == seq!['\n'],
            decreases n - i,
        {
            let p = &self.entries[i];
            out.append("\t");
            out.append(p.0.as_str());
            out.append(" = ");
            out.append(p.1.as_str());
            out.append("\n");
            proof {
                let s = self.entry_views();
                assert(s.take(i + 1).drop_last() =~= s.take(i as int));
                assert(s.take(i + 1).last() == s[i as int]);
            }
            i = i + 1;
        }
        proof {
            assert(self.entry_views().take(n as int) =~= self.entry_views());
        }
        out
    }
}

/// The text of the shortcuts listing for a pair list.
pub open spec fn render_of(s: Seq<(Seq<char>, Seq<char>)>) -> Seq<char>
    decreases s.len(),
{
    if s.len() == 0 {
        Seq::empty()
    } else {
        render_of(s.drop_last()) + seq!['\t'] + s.last().0 + seq![' ', '=', ' '] + s.last().1
            + seq!['\n']
    }
}

/// The kept pairs are no more than the pairs.
proof fn lemma_filtered_len(s: Seq<(Seq<char>, Seq<char>)>)
    ensures
        filtered_valid(s).len() <= s.len(),
    decreases s.len(),
{
    if s.len() > 0 {
        lemma_filtered_len(s.drop_last());
    }
}

/// Distinct positions of the kept pairs carry distinct keys.
proof fn lemma_filtered_unique(s: Seq<(Seq<char>, Seq<char>)>, x: int, y: int)
    requires
        keys_unique(s),
        0 <= x < y < filtered_valid(s).len(),
    ensures
        filtered_valid(s)[x].0 != filtered_valid(s)[y].0,
    decreases s.len(),
{
    lemma_filtered_len(s);
    let f = filtered_valid(s);
    let d = s.drop_last();
    if s.len() > 0 {
        if valid_code(s.last().0, s.last().1) {
            if y == f.len() - 1 {
                lemma_filtered_len(d);
                assert(f[x] == filtered_valid(d)[x]);
                lemma_filtered_element_of(d, x);
                let i = choose|i: int| 0 <= i < d.len() && d[i] == filtered_valid(d)[x];
                assert(s[i] == f[x]);
                assert(s[i].0 != s[s.len() - 1].0);
            } else {
                lemma_filtered_unique(d, x, y);
            }
        } else {
            lemma_filtered_unique(d, x, y);
        }
    }
}

/// Every kept pair stands somewhere among the pairs.
proof fn lemma_filtered_element_of(s: Seq<(Seq<char>, Seq<char>)>, x: int)
    requires
        0 <= x < filtered_valid(s).len(),
    ensures
        exists|i: int| 0 <= i < s.len() && s[i] == filtered_valid(s)[x],
    decreases s.len(),
{
    lemma_filtered_len(s);
    if s.len() > 0 {
        let d = s.drop_last();
        if valid_code(s.last().0, s.last().1) && x == filtered_valid(s).len() - 1 {
            assert(s[s.len() - 1] == filtered_valid(s)[x]);
        } else {
            lemma_filtered_element_of(d, x);
            let i = choose|i: int| 0 <= i < d.len() && d[i] == filtered_valid(d)[x];
            assert(s[i] == filtered_valid(s)[x]);
        }
    }
}

proof fn lemma_upsert_found(s: Seq<(Seq<char>, Seq<char>)>, k: Seq<char>, v: Seq<char>, i: int)
    requires
        0 <= i < s.len(),
        s[i].0 == k,
        forall|j: int| 0 <= j < i ==> s[j].0 != k,
    ensures
        upsert(s, k, v) == s.update(i, (k, v)),
    decreases s.len(),
{
    if i == 0 {
        assert(upsert(s, k, v) == seq![(k, v)] + s.drop_first());
        assert(seq![(k, v)] + s.drop_first() =~= s.update(0, (k, v)));
    } else {
        lemma_upsert_found(s.drop_first(), k, v, i - 1);
        assert(seq![s[0]] + s.drop_first().update(i - 1, (k, v)) =~= s.update(i, (k, v)));
    }
}

proof fn lemma_upsert_absent(s: Seq<(Seq<char>, Seq<char>)>, k: Seq<char>, v: Seq<char>)
    requires
        forall|j: int| 0 <= j < s.len() ==> s[j].0 != k,
    ensures
        upsert(s, k, v) == s.push((k, v)),
    decreases s.len(),
{
    if s.len() == 0 {
        assert(upsert(s, k, v) =~= s.push((k, v)));
    } else {
        lemma_upsert_absent(s.drop_first(), k, v);
        assert(seq![s[0]] + s.drop_first().push((k, v)) =~= s.push((k, v)));
    }
}

/// Whether the cleaner keeps the pair `(key, value)`.
pub fn code_pair_valid(key: &String, value: &String) -> (r: bool)
    ensures
        r == valid_code(key@, value@),
{
    let k = key.as_str();
    let v = value.as_str();
    let klen = k.unicode_len();
    let vlen = v.unicode_len();
    let r = klen > 0 && char_absent(k, '.') && char_absent(k, '/') && vlen > 0 && char_absent(
        v,
        '/',
    ) && !(vlen == 1 && char_at_is_dot(v, 0)) && !(vlen == 2 && char_at_is_dot(v, 0)
        && char_at_is_dot(v, 1));
    proof {
        if value@.len() == 1 && value@[0] == '.' {
            assert(value@ =~= seq!['.']);
        }
        if value@.len() == 2 && value@[0] == '.' && value@[1] == '.' {
            assert(value@ =~= seq!['.', '.']);
        }
        if value@ == seq!['.'] {
            assert(value@[0] == '.');
        }
        if value@ == seq!['.', '.'] {
            assert(value@[0] == '.' && value@[1] == '.');
        }
    }
    r
}

/// Whether `s` is free of the character `c`.
pub fn char_absent(s: &str, c: char) -> (r: bool)
    ensures
        r == !s@.contains(c),
{
    let r = crate::scan::find_char_from(s, c, 0);
    proof {
        crate::scan::lemma_find_char(s@, c, 0);
        match crate::scan::find_char(s@, c, 0) {
            Some(i) => {
                assert(s@.contains(c));
            },
            None => {
                if s@.contains(c) {
                    let i = choose|i: int| 0 <= i < s@.len() && s@[i] == c;
                    assert(s@[i] != c);
                }
            },
        }
    }
    r.is_none()
}

fn char_at_is_dot(s: &str, i: usize) -> (r: bool)
    requires
        i < s@.len(),
    ensures
        r == (s@[i as int] == '.'),
{
    s.get_char(i) == '.'
}

} // verus!
