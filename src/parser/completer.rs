//! What pressing tab does to the word being typed: the names that complete
//! it, the text to insert, and what to show.

use vstd::prelude::*;
use crate::complete::{
    complete_candidates, displays, is_prefix, starts_with, strictly_sorted, strings,
};
use crate::text::{chars_of, joined_with, push_str, string_of, sub_chars};

verus! {

/// Whether tab was pressed just before, with no completion then.
#[derive(Debug, Clone, Copy, PartialEq, Eq, Structural)]
pub enum TabCompletionState {
    NotPressed,
    Pressed,
}

/// What completing a word inserts: nothing, the rest of the one name that
/// completes it, or the rest of the prefix that several names share.
#[derive(Debug, PartialEq, Eq)]
pub enum CompletedSuffix {
    Nothing,
    Completed { suffix: String },
    Partial { suffix: String },
}

/// What completing a word inserts (model): the text, and whether it finishes
/// the word.
pub open spec fn suffix_model(c: CompletedSuffix) -> Option<(Seq<char>, bool)> {
    match c {
        CompletedSuffix::Nothing => None,
        CompletedSuffix::Completed { suffix } => Some((suffix@, true)),
        CompletedSuffix::Partial { suffix } => Some((suffix@, false)),
    }
}

impl CompletedSuffix {
    /// The text to insert, if any.
    pub fn suffix(&self) -> (r: Option<&str>)
        ensures
            match suffix_model(*self) {
                Some((s, _)) => r matches Some(t) && t@ == s,
                None => r is None,
            },
    {
        match self {
            CompletedSuffix::Nothing => None,
            CompletedSuffix::Completed { suffix } | CompletedSuffix::Partial { suffix } => Some(
                suffix.as_str(),
            ),
        }
    }
}

/// The bell, rung when there is nothing to complete.
pub open spec fn bell() -> Seq<char> {
    seq!['\x07']
}

/// The longest common prefix of `a` and `b`.
pub open spec fn common_prefix(a: Seq<char>, b: Seq<char>) -> Seq<char>
    decreases a.len(),
{
    if a.len() == 0 || b.len() == 0 || a[0] != b[0] {
        Seq::empty()
    } else {
        seq![a[0]] + common_prefix(a.drop_first(), b.drop_first())
    }
}

/// The longest prefix that all names share.
pub open spec fn shared_prefix(names: Seq<Seq<char>>) -> Seq<char> {
    names.fold_left(names[0], |acc: Seq<char>, n: Seq<char>| common_prefix(acc, n))
}

/// The longest common prefix of `a` and `b`.
pub fn longest_common_prefix(a: &Vec<char>, b: &Vec<char>) -> (r: Vec<char>)
    ensures
        r@ == common_prefix(a@, b@),
{
    let mut i: usize = 0;
    assert(a@.skip(0) =~= a@);
    assert(b@.skip(0) =~= b@);
    while i < a.len() && i < b.len() && a[i] == b[i]
        invariant
            i <= a.len(),
            i <= b.len(),
            common_prefix(a@, b@) == a@.take(i as int) + common_prefix(
                a@.skip(i as int),
                b@.skip(i as int),
            ),
        decreases a.len() - i,
    {
        assert(a@.skip(i as int).drop_first() =~= a@.skip(i + 1));
        assert(b@.skip(i as int).drop_first() =~= b@.skip(i + 1));
        assert(a@.take(i + 1) =~= a@.take(i as int) + seq![a@[i as int]]);
        i = i + 1;
    }
    assert(a@.take(i as int) + Seq::<char>::empty() =~= a@.take(i as int));
    sub_chars(a, 0, i)
}

/// What follows `prefix` in `s`, when `s` starts with it.
pub open spec fn after_prefix(s: Seq<char>, prefix: Seq<char>) -> Option<Seq<char>> {
    if is_prefix(prefix, s) {
        Some(s.skip(prefix.len() as int))
    } else {
        None
    }
}

/// What follows `prefix` in `s`, when `s` starts with it.
pub fn suffix(s: &str, prefix: &str) -> (r: Option<String>)
    ensures
        match r {
            Some(t) => after_prefix(s@, prefix@) == Some(t@),
            None => after_prefix(s@, prefix@) is None,
        },
{
    let sc = chars_of(s);
    let pc = chars_of(prefix);
    if starts_with(&sc, &pc) {
        Some(string_of(sub_chars(&sc, pc.len(), sc.len()).as_slice()))
    } else {
        None
    }
}

/// The names that complete `pat`, each once and in increasing order: the
/// builtins that start with it and the executables `found` for it.
pub fn completed_candidates(pat: &str, found: &Vec<String>) -> (r: Vec<String>)
    ensures
        strictly_sorted(strings(r@)),
        forall|s: Seq<char>|
            #[trigger] strings(r@).contains(s) <==> (crate::complete::builtins_starting(
                pat@,
                6,
            ).contains(s) || strings(found@).contains(s)),
{
    let cs = complete_candidates(pat, found);
    let ghost d = displays(cs@);
    let mut out: Vec<String> = Vec::new();
    let mut i: usize = 0;
    while i < cs.len()
        invariant
            i <= cs.len(),
            d == displays(cs@),
            strings(out@) == d.take(i as int),
        decreases cs.len() - i,
    {
        let ghost before = strings(out@);
        let name = string_of(chars_of(cs[i].display.as_str()).as_slice());
        out.push(name);
        assert(strings(out@) =~= before.push(d[i as int]));
        assert(d.take(i + 1) =~= d.take(i as int).push(d[i as int]));
        i = i + 1;
    }
    assert(d.take(cs.len() as int) =~= d);
    out
}

/// What pressing tab after typing `pat` inserts and shows, given the names
/// that complete it: the bell when none does; the rest of the only one; else
/// the rest of the prefix they share, or, when that adds nothing, the bell the
/// first time and the list of names the second.
pub open spec fn completion(
    pat: Seq<char>,
    pressed: bool,
    raw: Seq<char>,
    names: Seq<Seq<char>>,
) -> (Option<(Seq<char>, bool)>, Seq<char>) {
    if names.len() == 0 {
        (None, bell())
    } else if names.len() == 1 {
        match after_prefix(names[0], pat) {
            Some(s) => (Some((s, true)), Seq::empty()),
            None => (None, bell()),
        }
    } else {
        let shared = shared_prefix(names);
        match after_prefix(shared, pat) {
            Some(s) => if s.len() > 0 {
                (Some((s, false)), Seq::empty())
            } else if pressed {
                (None, "\r\n"@ + joined_with(names, "  "@) + "\r\n$ "@ + raw + pat)
            } else {
                (None, bell())
            },
            None => if pressed {
                (None, "\r\n"@ + joined_with(names, "  "@) + "\r\n$ "@ + raw + pat)
            } else {
                (None, bell())
            },
        }
    }
}

/// What pressing tab after typing `pat` inserts, and what it shows; `raw` is
/// the line typed before the word and `names` the names that complete it.
pub fn completed_suffix(
    pat: &str,
    state: TabCompletionState,
    raw: &str,
    names: &Vec<String>,
) -> (r: (CompletedSuffix, String))
    ensures
        (suffix_model(r.0), r.1@) == completion(
            pat@,
            state == TabCompletionState::Pressed,
            raw@,
            strings(names@),
        ),
{
    let ghost ns = strings(names@);
    let mut shown: Vec<char> = Vec::new();
    if names.len() == 0 {
        shown.push('\x07');
        assert(shown@ =~= bell());
        return (CompletedSuffix::Nothing, string_of(shown.as_slice()));
    }
    if names.len() == 1 {
        return match suffix(names[0].as_str(), pat) {
            Some(s) => (CompletedSuffix::Completed { suffix: s }, string_of(shown.as_slice())),
            None => {
                shown.push('\x07');
                assert(shown@ =~= bell());
                (CompletedSuffix::Nothing, string_of(shown.as_slice()))
            },
        };
    }
    let mut shared = chars_of(names[0].as_str());
    let mut k: usize = 0;
    assert(ns.take(0).fold_left(ns[0], |acc: Seq<char>, n: Seq<char>| common_prefix(acc, n))
        == ns[0]);
    while k < names.len()
        invariant
            k <= names.len(),
            ns == strings(names@),
            ns.len() > 1,
            shared@ == ns.take(k as int).fold_left(
                ns[0],
                |acc: Seq<char>, n: Seq<char>| common_prefix(acc, n),
            ),
        decreases names.len() - k,
    {
        assert(ns.take(k + 1).drop_last() =~= ns.take(k as int));
        let n = chars_of(names[k].as_str());
        shared = longest_common_prefix(&shared, &n);
        k = k + 1;
    }
    assert(ns.take(names.len() as int) =~= ns);
    let shared_text = string_of(shared.as_slice());
    let found = match suffix(shared_text.as_str(), pat) {
        Some(s) => if !s.as_str().is_empty() {
            Some(s)
        } else {
            None
        },
        None => None,
    };
    match found {
        Some(s) => (CompletedSuffix::Partial { suffix: s }, string_of(shown.as_slice())),
        None => {
            if state == TabCompletionState::Pressed {
                push_str(&mut shown, "\r\n");
                let mut list = crate::text::join_with(names, "  ");
                shown.append(&mut list);
                push_str(&mut shown, "\r\n$ ");
                push_str(&mut shown, raw);
                push_str(&mut shown, pat);
            } else {
                shown.push('\x07');
                assert(shown@ =~= bell());
            }
            (CompletedSuffix::Nothing, string_of(shown.as_slice()))
        },
    }
}

} // verus!
