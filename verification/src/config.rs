//! The configuration record: its defaults, how command-line values, file
//! values and defaults merge, and the cleaning pass that validates a loaded
//! configuration.
//!
//! Reading the file, parsing it and expanding shell variables in paths is
//! I/O and stays with the caller; what stands here is the record itself and
//! every decision about its contents.  Paths are plain strings here: which
//! of them exist on disk the caller reports as booleans and lists.

use vstd::prelude::*;

use crate::codes::{filtered_valid, map_of, Codes};
use crate::scan::{find_char, find_char_from};

verus! {

/// A validated, usable configuration.
pub struct Config {
    pub once: bool,
    pub sleep: usize,
    pub timeinfo: bool,
    pub static_mode: bool,
    pub dest: String,
    pub dirs: Vec<String>,
    pub codes: Codes,
    pub separator: char,
    pub filename_separators: usize,
    pub begin_var: char,
    pub end_var: char,
}

/// A configuration still being assembled, every overridable field optional.
pub struct BuildConfig {
    pub once: bool,
    pub sleep: Option<usize>,
    pub timeinfo: bool,
    pub static_mode: bool,
    pub dirs: Option<Vec<String>>,
    pub dest: Option<String>,
    pub codes: Option<Vec<(String, String)>>,
    pub separator: Option<char>,
    pub filename_separators: Option<usize>,
    pub begin_var: Option<char>,
    pub end_var: Option<char>,
}

/// The shape of a configuration file: every field an optional override.
pub struct ConfigSerDe {
    pub separator: Option<char>,
    pub filename_separators: Option<usize>,
    pub begin_var: Option<char>,
    pub end_var: Option<char>,
    pub once: Option<bool>,
    pub timeinfo: Option<bool>,
    pub static_mode: Option<bool>,
    pub sleep: Option<usize>,
    pub codes: Option<Vec<(String, String)>>,
    pub dest: Option<String>,
    pub dirs: Option<Vec<String>>,
}

/// Which fields an earlier source (the command line) already supplied, by
/// the indices below: such a field is not overridden by the file.
pub type DeclaredType = [bool; 12];

pub const DECLARED_DIRS: usize = 0;

pub const DECLARED_DEST: usize = 1;

pub const DECLARED_ONCE: usize = 2;

pub const DECLARED_SLEEP: usize = 3;

pub const DECLARED_CODES: usize = 4;

pub const DECLARED_CONFIG: usize = 5;

pub const DECLARED_TIMEINFO: usize = 6;

pub const DECLARED_STATIC_MODE: usize = 7;

pub const DECLARED_SEPARATOR: usize = 8;

pub const DECLARED_FILENAME_SEPARATORS: usize = 9;

pub const DECLARED_BEGIN_VAR: usize = 10;

pub const DECLARED_END_VAR: usize = 11;

/// A component list with later repetitions of an entry dropped: the watch
/// directories form a set, whatever order and multiplicity they arrive in.
pub open spec fn dedup_of(s: Seq<Seq<char>>) -> Seq<Seq<char>>
    decreases s.len(),
{
    if s.len() == 0 {
        Seq::empty()
    } else if s.drop_last().contains(s.last()) {
        dedup_of(s.drop_last())
    } else {
        dedup_of(s.drop_last()).push(s.last())
    }
}

/// Every kept entry stands in the original.
proof fn lemma_dedup_of_membership(s: Seq<Seq<char>>, x: Seq<char>)
    requires
        dedup_of(s).contains(x),
    ensures
        s.contains(x),
    decreases s.len(),
{
    if s.len() > 0 {
        let d = s.drop_last();
        if d.contains(s.last()) {
            lemma_dedup_of_membership(d, x);
            let i = choose|i: int| 0 <= i < d.len() && d[i] == x;
            assert(s[i] == x);
        } else {
            let dd = dedup_of(d);
            let idx = choose|i: int| 0 <= i < dedup_of(s).len() && dedup_of(s)[i] == x;
            if idx == dd.len() {
                assert(s[s.len() - 1] == x);
            } else {
                assert(dd[idx] == x);
                assert(dd.contains(x));
                lemma_dedup_of_membership(d, x);
                let i = choose|i: int| 0 <= i < d.len() && d[i] == x;
                assert(s[i] == x);
            }
        }
    }
}

/// The deduplicated list holds no entry twice: it is a set.
pub proof fn lemma_dedup_of_distinct(s: Seq<Seq<char>>, i: int, j: int)
    requires
        0 <= i < j < dedup_of(s).len(),
    ensures
        dedup_of(s)[i] != dedup_of(s)[j],
    decreases s.len(),
{
    if s.len() > 0 {
        let d = s.drop_last();
        if d.contains(s.last()) {
            lemma_dedup_of_distinct(d, i, j);
        } else {
            if j == dedup_of(s).len() - 1 {
                assert(dedup_of(s)[j] == s.last());
                assert(dedup_of(s)[i] == dedup_of(d)[i]);
                if dedup_of(d)[i] == s.last() {
                    assert(dedup_of(d).contains(s.last()));
                    lemma_dedup_of_membership(d, s.last());
                }
            } else {
                lemma_dedup_of_distinct(d, i, j);
            }
        }
    }
}

/// The list with later repetitions of an entry dropped, each entry's first
/// occurrence kept in order.
pub fn dedup_strings(v: Vec<String>) -> (r: Vec<String>)
    ensures
        r.deep_view() == dedup_of(v.deep_view()),
        forall|i: int, j: int|
            0 <= i < j < r.deep_view().len() ==> r.deep_view()[i] != r.deep_view()[j],
{
    let n = v.len();
    let mut out: Vec<String> = Vec::new();
    let mut i: usize = 0;
    while i < n
        invariant
            i <= n,
            n == v.len(),
            out.deep_view() =~= dedup_of(v.deep_view().take(i as int)),
        decreases n - i,
    {
        let ghost s = v.deep_view();
        let mut seen = false;
        let mut j: usize = 0;
        while j < i
            invariant
                j <= i,
                i < n,
                n == v.len(),
                s == v.deep_view(),
                seen == exists|k: int| 0 <= k < j && s[k] == s[i as int],
            decreases i - j,
        {
            let same = v[j] == v[i];
            proof {
                assert(s[j as int] == v@[j as int]@);
                assert(s[i as int] == v@[i as int]@);
                if same {
                    assert(0 <= j < j + 1 && s[j as int] == s[i as int]);
                }
            }
            if same {
                seen = true;
            }
            j = j + 1;
        }
        proof {
            assert(s.take(i + 1).drop_last() =~= s.take(i as int));
            assert(s.take(i + 1).last() == s[i as int]);
            if seen {
                let k = choose|k: int| 0 <= k < i && s[k] == s[i as int];
                assert(s.take(i as int)[k] == s[i as int]);
                assert(s.take(i as int).contains(s[i as int]));
            } else {
                if s.take(i as int).contains(s[i as int]) {
                    let k = choose|k: int|
                        0 <= k < i && s.take(i as int)[k] == s[i as int];
                    assert(s[k] == s[i as int]);
                }
            }
        }
        if !seen {
            let ghost before = out.deep_view();
            let ghost xv = v.deep_view()[i as int];
            let x = v[i].clone();
            out.push(x);
            proof {
                assert forall|k: int| 0 <= k < out@.len() implies out.deep_view()[k]
                    == before.push(xv)[k] by {}
                assert(out.deep_view() =~= before.push(xv));
            }
        }
        i = i + 1;
    }
    proof {
        assert(v.deep_view().take(n as int) =~= v.deep_view());
        assert forall|x: int, y: int|
            0 <= x < y < out.deep_view().len() implies out.deep_view()[x]
            != out.deep_view()[y] by {
            lemma_dedup_of_distinct(v.deep_view(), x, y);
        }
    }
    out
}

/// What a field merges to: a declared field stays, else the file's value
/// wins, else the default.
pub open spec fn merged<T>(declared: bool, current: T, from_file: Option<T>, default: T) -> T {
    if declared {
        current
    } else if from_file is Some {
        from_file->0
    } else {
        default
    }
}

/// The configuration every run starts from: watch nothing, move to nowhere,
/// one separator left on the leaf, `{`/`}` delimiters, a second of sleep.
pub fn get_default() -> (r: Config)
    ensures
        r.once == false,
        r.sleep == 1000,
        r.timeinfo == false,
        r.static_mode == false,
        r.dest@ == Seq::<char>::empty(),
        r.dirs.deep_view() == Seq::<Seq<char>>::empty(),
        r.codes@ == Map::<Seq<char>, Seq<char>>::empty(),
        r.codes.entry_views() == Seq::<(Seq<char>, Seq<char>)>::empty(),
        r.codes.wf(),
        r.separator == '.',
        r.filename_separators == 1,
        r.begin_var == '{',
        r.end_var == '}',
{
    let r = Config {
        once: false,
        sleep: 1000,
        timeinfo: false,
        static_mode: false,
        dest: String::new(),
        dirs: Vec::new(),
        codes: Codes::new(),
        separator: '.',
        filename_separators: 1,
        begin_var: '{',
        end_var: '}',
    };
    proof {
        assert(r.dirs.deep_view() =~= Seq::<Seq<char>>::empty());
    }
    r
}

/// The default configuration with every overridable field already present.
pub fn get_build_default() -> (r: BuildConfig)
    ensures
        r.once == false,
        r.sleep == Some(1000usize),
        r.timeinfo == false,
        r.static_mode == false,
        r.dest matches Some(d) && d@ == Seq::<char>::empty(),
        r.dirs matches Some(v) && v.deep_view() == Seq::<Seq<char>>::empty(),
        r.codes matches Some(c) && c.deep_view() == Seq::<(Seq<char>, Seq<char>)>::empty(),
        r.separator == Some('.'),
        r.filename_separators == Some(1usize),
        r.begin_var == Some('{'),
        r.end_var == Some('}'),
{
    let d = get_default();
    let r = BuildConfig {
        once: d.once,
        sleep: Some(d.sleep),
        timeinfo: d.timeinfo,
        static_mode: d.static_mode,
        dirs: Some(d.dirs),
        dest: Some(d.dest),
        codes: Some(Vec::new()),
        separator: Some(d.separator),
        filename_separators: Some(d.filename_separators),
        begin_var: Some(d.begin_var),
        end_var: Some(d.end_var),
    };
    proof {
        assert(r.codes->0.deep_view() =~= Seq::<(Seq<char>, Seq<char>)>::empty());
    }
    r
}

impl Config {
    /// The starting configuration.
    pub fn default() -> (r: Config)
        ensures
            r.once == false,
            r.sleep == 1000,
            r.timeinfo == false,
            r.static_mode == false,
            r.dest@ == Seq::<char>::empty(),
            r.dirs.deep_view() == Seq::<Seq<char>>::empty(),
            r.codes@ == Map::<Seq<char>, Seq<char>>::empty(),
            r.codes.entry_views() == Seq::<(Seq<char>, Seq<char>)>::empty(),
            r.codes.wf(),
            r.separator == '.',
            r.filename_separators == 1,
            r.begin_var == '{',
            r.end_var == '}',
    {
        get_default()
    }
}

impl BuildConfig {
    /// The starting assembly.
    pub fn default() -> (r: BuildConfig)
        ensures
            r.once == false,
            r.sleep == Some(1000usize),
            r.timeinfo == false,
            r.static_mode == false,
            r.dest matches Some(d) && d@ == Seq::<char>::empty(),
            r.dirs matches Some(v) && v.deep_view() == Seq::<Seq<char>>::empty(),
            r.codes matches Some(c) && c.deep_view() == Seq::<(Seq<char>, Seq<char>)>::empty(),
            r.separator == Some('.'),
            r.filename_separators == Some(1usize),
            r.begin_var == Some('{'),
            r.end_var == Some('}'),
    {
        get_build_default()
    }
}

/// A code table from a pair list, later pairs winning.
pub fn codes_from_list(list: &Vec<(String, String)>) -> (r: Codes)
    ensures
        r.wf(),
        r@ == map_of(list.deep_view()),
{
    let n = list.len();
    let mut r = Codes::new();
    let mut i: usize = 0;
    while i < n
        invariant
            i <= n,
            n == list.len(),
            r.wf(),
            r@ == map_of(list.deep_view().take(i as int)),
        decreases n - i,
    {
        let key = list[i].0.clone();
        let value = list[i].1.clone();
        let ghost kv = (key@, value@);
        r.insert(key, value);
        proof {
            let s = list.deep_view();
            assert(s.take(i + 1).drop_last() =~= s.take(i as int));
            assert(s.take(i + 1).last() == s[i as int]);
            assert(s[i as int] == kv);
        }
        i = i + 1;
    }
    proof {
        assert(list.deep_view().take(n as int) =~= list.deep_view());
    }
    r
}

/// A fully assembled configuration turned into a usable one.  Every
/// overridable field must be present by now.  The directory list becomes a
/// set: a directory named twice is watched once.
pub fn convert_types(build_result: BuildConfig) -> (r: Config)
    requires
        build_result.sleep is Some,
        build_result.dirs is Some,
        build_result.dest is Some,
        build_result.codes is Some,
        build_result.separator is Some,
        build_result.filename_separators is Some,
        build_result.begin_var is Some,
        build_result.end_var is Some,
    ensures
        r.once == build_result.once,
        r.timeinfo == build_result.timeinfo,
        r.static_mode == build_result.static_mode,
        r.sleep == build_result.sleep->0,
        r.dest == build_result.dest->0,
        r.dirs.deep_view() == dedup_of(build_result.dirs->0.deep_view()),
        r.codes@ == map_of(build_result.codes->0.deep_view()),
        r.codes.wf(),
        r.separator == build_result.separator->0,
        r.filename_separators == build_result.filename_separators->0,
        r.begin_var == build_result.begin_var->0,
        r.end_var == build_result.end_var->0,
{
    let list = build_result.codes.unwrap();
    let codes = codes_from_list(&list);
    Config {
        once: build_result.once,
        timeinfo: build_result.timeinfo,
        static_mode: build_result.static_mode,
        sleep: build_result.sleep.unwrap(),
        dest: build_result.dest.unwrap(),
        dirs: dedup_strings(build_result.dirs.unwrap()),
        codes,
        separator: build_result.separator.unwrap(),
        filename_separators: build_result.filename_separators.unwrap(),
        begin_var: build_result.begin_var.unwrap(),
        end_var: build_result.end_var.unwrap(),
    }
}

/// The key and value of one `KEY=value` argument, split at the first `=`.
pub fn parse_key_val(s: &str) -> (r: Result<(String, String), KeyValError>)
    ensures
        match find_char(s@, '=', 0) {
            Some(i) => r matches Ok(p) && p.0@ == s@.subrange(0, i) && p.1@ == s@.subrange(
                i + 1,
                s@.len() as int,
            ),
            None => r is Err,
        },
{
    let len = s.unicode_len();
    match find_char_from(s, '=', 0) {
        Some(i) => {
            proof {
                crate::scan::lemma_find_char(s@, '=', 0);
            }
            let key = s.substring_char(0, i).to_owned();
            let value = s.substring_char(i + 1, len).to_owned();
            Ok((key, value))
        },
        None => Err(KeyValError),
    }
}

/// A `KEY=value` argument without the `=`.
#[derive(Debug, PartialEq, Eq, Structural, Clone, Copy)]
pub struct KeyValError;

/// One field merged: a declared field stays, else the file's value wins,
/// else the default.
fn pick<T: Copy>(declared: bool, current: T, from_file: Option<T>, default: T) -> (r: T)
    ensures
        r == merged(declared, current, from_file, default),
{
    if declared {
        current
    } else {
        match from_file {
            Some(v) => v,
            None => default,
        }
    }
}

impl Config {
    /// The file's values merged in: a field the command line declared stays,
    /// else the file's value wins, else the default returns.
    #[verifier::rlimit(60)]
    pub fn merge_from_file(&mut self, from_file: ConfigSerDe, declared: &DeclaredType)
        ensures
            final(self).once == merged(declared@[DECLARED_ONCE as int], old(self).once, from_file.once, false),
            final(self).sleep == merged(declared@[DECLARED_SLEEP as int], old(self).sleep, from_file.sleep, 1000usize),
            final(self).timeinfo == merged(declared@[DECLARED_TIMEINFO as int], old(self).timeinfo, from_file.timeinfo, false),
            final(self).static_mode == merged(declared@[DECLARED_STATIC_MODE as int], old(self).static_mode, from_file.static_mode, false),
            final(self).separator == merged(declared@[DECLARED_SEPARATOR as int], old(self).separator, from_file.separator, '.'),
            final(self).filename_separators == merged(declared@[DECLARED_FILENAME_SEPARATORS as int], old(self).filename_separators, from_file.filename_separators, 1usize),
            final(self).begin_var == merged(declared@[DECLARED_BEGIN_VAR as int], old(self).begin_var, from_file.begin_var, '{'),
            final(self).end_var == merged(declared@[DECLARED_END_VAR as int], old(self).end_var, from_file.end_var, '}'),
            final(self).dest@ == (if declared@[DECLARED_DEST as int] {
                old(self).dest@
            } else if from_file.dest is Some {
                from_file.dest->0@
            } else {
                Seq::<char>::empty()
            }),
            final(self).dirs.deep_view() == (if declared@[DECLARED_DIRS as int] {
                old(self).dirs.deep_view()
            } else if from_file.dirs is Some {
                dedup_of(from_file.dirs->0.deep_view())
            } else {
                Seq::<Seq<char>>::empty()
            }),
            final(self).codes@ == (if declared@[DECLARED_CODES as int] {
                old(self).codes@
            } else if from_file.codes is Some {
                map_of(from_file.codes->0.deep_view())
            } else {
                Map::<Seq<char>, Seq<char>>::empty()
            }),
            final(self).codes.wf() == (if declared@[DECLARED_CODES as int] {
                old(self).codes.wf()
            } else {
                true
            }),
    {
        self.once = pick(declared[DECLARED_ONCE], self.once, from_file.once, false);
        self.sleep = pick(declared[DECLARED_SLEEP], self.sleep, from_file.sleep, 1000);
        self.timeinfo = pick(declared[DECLARED_TIMEINFO], self.timeinfo, from_file.timeinfo, false);
        self.static_mode = pick(
            declared[DECLARED_STATIC_MODE],
            self.static_mode,
            from_file.static_mode,
            false,
        );
        self.separator = pick(declared[DECLARED_SEPARATOR], self.separator, from_file.separator, '.');
        self.filename_separators = pick(
            declared[DECLARED_FILENAME_SEPARATORS],
            self.filename_separators,
            from_file.filename_separators,
            1,
        );
        self.begin_var = pick(declared[DECLARED_BEGIN_VAR], self.begin_var, from_file.begin_var, '{');
        self.end_var = pick(declared[DECLARED_END_VAR], self.end_var, from_file.end_var, '}');
        if !declared[DECLARED_DEST] {
            self.dest = match from_file.dest {
                Some(v) => v,
                None => String::new(),
            };
        }
        if !declared[DECLARED_DIRS] {
            self.dirs = match from_file.dirs {
                Some(v) => dedup_strings(v),
                None => Vec::new(),
            };
            proof {
                if from_file.dirs is None {
                    assert(self.dirs.deep_view() =~= Seq::<Seq<char>>::empty());
                }
            }
        }
        if !declared[DECLARED_CODES] {
            self.codes = match from_file.codes {
                Some(v) => codes_from_list(&v),
                None => Codes::new(),
            };
        }
    }

    /// The cleaning pass.  The caller reports what only the disk can tell —
    /// whether the expanded destination is usable and which expanded watch
    /// directories exist — and this pass keeps only the valid code pairs,
    /// judges the whole, and (when `mutates` is set) writes the cleaned
    /// values back.  The verdict is fatal when no valid code pair is left or
    /// the two delimiters coincide; a missing destination or an empty
    /// directory list is fatal only for a mutating pass.
    pub fn clean(&mut self, dest_ok: bool, expanded_dest: String, existing_dirs: Vec<String>, mutates: bool) -> (fatal: bool)
        requires
            old(self).codes.wf(),
        ensures
            fatal == ((filtered_valid(old(self).codes.entry_views()).len() == 0 || old(self).begin_var == old(self).end_var) || ((!dest_ok || existing_dirs.deep_view().len() == 0) && mutates)),
            mutates ==> final(self).codes.entry_views() == filtered_valid(old(self).codes.entry_views()),
            mutates ==> final(self).codes.wf(),
            mutates ==> final(self).dest == expanded_dest,
            mutates ==> final(self).dirs.deep_view() == dedup_of(existing_dirs.deep_view()),
            !mutates ==> *final(self) == *old(self),
            final(self).once == old(self).once,
            final(self).sleep == old(self).sleep,
            final(self).timeinfo == old(self).timeinfo,
            final(self).static_mode == old(self).static_mode,
            final(self).separator == old(self).separator,
            final(self).filename_separators == old(self).filename_separators,
            final(self).begin_var == old(self).begin_var,
            final(self).end_var == old(self).end_var,
    {
        let fatal = !dest_ok || existing_dirs.len() == 0;
        let valid_codes = self.codes.filter_valid();
        let true_fatal = valid_codes.is_empty() || self.begin_var == self.end_var;
        if mutates {
            self.dest = expanded_dest;
            self.dirs = dedup_strings(existing_dirs);
            self.codes = valid_codes;
        }
        true_fatal || (fatal && mutates)
    }
}

} // verus!
