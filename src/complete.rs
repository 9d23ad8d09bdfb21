//! Completion of the word being typed: where it starts, and the names that
//! can complete it.

use vstd::prelude::*;
use crate::command::{builtin_name, BuiltinCommand, BuiltinKind, CommandArgs};
use crate::parse::{leftover, StreamCommandParser};
use crate::text::{chars_of, is_white_space, push_str, string_of, sub_chars, white_space};

verus! {

/// One completion: what is shown, and what replaces the word.
#[derive(Debug, Hash, PartialEq, Eq, PartialOrd, Ord)]
pub struct CompleteCandidate {
    pub display: String,
    pub replacement: String,
}

impl CompleteCandidate {
    /// A completion to `s`, which is followed by a space once inserted.
    pub fn new(s: &str) -> (r: CompleteCandidate)
        ensures
            r.display@ == s@,
            r.replacement@ == s@ + " "@,
    {
        let mut rep: Vec<char> = Vec::new();
        push_str(&mut rep, s);
        push_str(&mut rep, " ");
        CompleteCandidate { display: string_of(chars_of(s).as_slice()), replacement: string_of(rep.as_slice()) }
    }
}

/// Whether `p` is a prefix of `s`.
pub open spec fn is_prefix(p: Seq<char>, s: Seq<char>) -> bool {
    p.len() <= s.len() && s.subrange(0, p.len() as int) == p
}

/// The builtins, in the order in which completion offers them.
pub open spec fn builtin_order() -> Seq<BuiltinKind> {
    seq![
        BuiltinKind::Exit,
        BuiltinKind::Echo,
        BuiltinKind::Type,
        BuiltinKind::Pwd,
        BuiltinKind::Cd,
        BuiltinKind::History,
    ]
}

/// The names of the builtins that start with `word`, in that order.
pub open spec fn builtins_starting(word: Seq<char>, k: int) -> Seq<Seq<char>>
    decreases k,
{
    if k <= 0 {
        Seq::empty()
    } else {
        let prev = builtins_starting(word, k - 1);
        let n = builtin_name(builtin_order()[k - 1]);
        if is_prefix(word, n) {
            prev.push(n)
        } else {
            prev
        }
    }
}

/// Whether `p` is a prefix of `s`.
pub fn starts_with(s: &Vec<char>, p: &Vec<char>) -> (r: bool)
    ensures
        r == is_prefix(p@, s@),
{
    if p.len() > s.len() {
        return false;
    }
    let mut i: usize = 0;
    while i < p.len()
        invariant
            i <= p.len() <= s.len(),
            forall|m: int| 0 <= m < i ==> s@[m] == p@[m],
        decreases p.len() - i,
    {
        if s[i] != p[i] {
            assert(s@.subrange(0, p.len() as int)[i as int] != p@[i as int]);
            return false;
        }
        i = i + 1;
    }
    assert(s@.subrange(0, p.len() as int) =~= p@);
    true
}

/// The name of the builtin at place `k` of the completion order.
fn order_name(k: usize) -> (r: String)
    requires
        k < 6,
    ensures
        r@ == builtin_name(builtin_order()[k as int]),
{
    let none = CommandArgs(Vec::new());
    let b = if k == 0 {
        BuiltinCommand::Exit(none)
    } else if k == 1 {
        BuiltinCommand::Echo(none)
    } else if k == 2 {
        BuiltinCommand::Type(none)
    } else if k == 3 {
        BuiltinCommand::Pwd
    } else if k == 4 {
        BuiltinCommand::Cd(none)
    } else {
        BuiltinCommand::History(none)
    };
    b.name()
}

/// The builtins that complete `word`, in their order.
pub fn complete_builtin(word: &str) -> (r: Vec<CompleteCandidate>)
    ensures
        r@.map_values(|c: CompleteCandidate| c.display@) == builtins_starting(word@, 6),
        forall|i: int|
            0 <= i < r@.len() ==> (#[trigger] r@[i]).replacement@ == r@[i].display@ + " "@,
{
    let w = chars_of(word);
    let mut out: Vec<CompleteCandidate> = Vec::new();
    let mut k: usize = 0;
    while k < 6
        invariant
            k <= 6,
            w@ == word@,
            out@.map_values(|c: CompleteCandidate| c.display@) == builtins_starting(word@, k as int),
            forall|i: int|
                0 <= i < out@.len() ==> (#[trigger] out@[i]).replacement@ == out@[i].display@ + " "@,
        decreases 6 - k,
    {
        let ghost before = out@.map_values(|c: CompleteCandidate| c.display@);
        let name = order_name(k);
        let n = chars_of(name.as_str());
        if starts_with(&n, &w) {
            let c = CompleteCandidate::new(name.as_str());
            out.push(c);
            assert(out@.map_values(|c: CompleteCandidate| c.display@) =~= before.push(n@));
        }
        k = k + 1;
    }
    out
}

/// The number of white space characters that `s` starts with.
pub open spec fn leading_blanks(s: Seq<char>) -> int
    decreases s.len(),
{
    if s.len() > 0 && is_white_space(s[0]) {
        1 + leading_blanks(s.drop_first())
    } else {
        0
    }
}

/// Where the word being completed starts in `line`: at the input that forms
/// no token yet, past white space, and past an opening quote.
pub open spec fn word_start(line: Seq<char>) -> int {
    let rest = leftover(line);
    let blanks = leading_blanks(rest);
    let start = line.len() - (rest.len() - blanks);
    if blanks < rest.len() && (rest[blanks] == '"' || rest[blanks] == '\'') {
        start + 1
    } else {
        start
    }
}

proof fn lemma_leading_blanks_bounds(s: Seq<char>)
    ensures
        0 <= leading_blanks(s) <= s.len(),
        forall|i: int| 0 <= i < leading_blanks(s) ==> is_white_space(#[trigger] s[i]),
        leading_blanks(s) < s.len() ==> !is_white_space(s[leading_blanks(s)]),
    decreases s.len(),
{
    if s.len() > 0 && is_white_space(s[0]) {
        lemma_leading_blanks_bounds(s.drop_first());
        assert forall|i: int| 0 <= i < leading_blanks(s) implies is_white_space(#[trigger] s[i]) by {
            if i > 0 {
                assert(s[i] == s.drop_first()[i - 1]);
            }
        }
    }
}

/// Where the word being completed starts in `line`, counted in characters,
/// and the word itself.
pub fn completion_word(line: &str) -> (r: (usize, String))
    ensures
        r.0 as int == word_start(line@),
        r.0 <= line@.len(),
        r.1@ == line@.subrange(r.0 as int, line@.len() as int),
{
    let parser = StreamCommandParser::new(line);
    let rest = chars_of(parser.remaining().as_str());
    let l = chars_of(line);
    proof {
        lemma_leading_blanks_bounds(rest@);
        crate::parse::lemma_leftover_suffix(line@);
    }
    let mut blanks: usize = 0;
    while blanks < rest.len() && white_space(rest[blanks])
        invariant
            blanks <= rest.len(),
            rest@ == leftover(line@),
            forall|i: int| 0 <= i < blanks ==> is_white_space(#[trigger] rest@[i]),
            blanks <= leading_blanks(rest@),
        decreases rest.len() - blanks,
    {
        proof {
            lemma_leading_blanks_prefix(rest@, blanks as int);
        }
        blanks = blanks + 1;
    }
    let mut start = l.len() - (rest.len() - blanks);
    if blanks < rest.len() && (rest[blanks] == '"' || rest[blanks] == '\'') {
        start = start + 1;
    }
    (start, string_of(sub_chars(&l, start, l.len()).as_slice()))
}

proof fn lemma_leading_blanks_prefix(s: Seq<char>, k: int)
    requires
        0 <= k < s.len(),
        forall|i: int| 0 <= i <= k ==> is_white_space(#[trigger] s[i]),
    ensures
        leading_blanks(s) > k,
    decreases k,
{
    assert(is_white_space(s[0]));
    lemma_leading_blanks_bounds(s.drop_first());
    if k > 0 {
        assert forall|i: int| 0 <= i <= k - 1 implies is_white_space(#[trigger] s.drop_first()[i]) by {
            assert(s.drop_first()[i] == s[i + 1]);
        }
        lemma_leading_blanks_prefix(s.drop_first(), k - 1);
    }
}

/// The characters of each buffer.
pub open spec fn texts(v: Seq<Vec<char>>) -> Seq<Seq<char>> {
    v.map_values(|e: Vec<char>| e@)
}

/// What each completion shows.
pub open spec fn displays(v: Seq<CompleteCandidate>) -> Seq<Seq<char>> {
    v.map_values(|c: CompleteCandidate| c.display@)
}

/// The characters of each string.
pub open spec fn strings(v: Seq<String>) -> Seq<Seq<char>> {
    v.map_values(|f: String| f@)
}

/// Whether `a` comes before `b` in lexicographic order of code points, the
/// order of `String`'s `Ord`.
pub open spec fn lex_less(a: Seq<char>, b: Seq<char>) -> bool
    decreases a.len(),
{
    if b.len() == 0 {
        false
    } else if a.len() == 0 {
        true
    } else if a[0] != b[0] {
        a[0] < b[0]
    } else {
        lex_less(a.drop_first(), b.drop_first())
    }
}

proof fn lemma_lex_irreflexive(a: Seq<char>)
    ensures
        !lex_less(a, a),
    decreases a.len(),
{
    if a.len() > 0 {
        lemma_lex_irreflexive(a.drop_first());
    }
}

proof fn lemma_lex_total(a: Seq<char>, b: Seq<char>)
    ensures
        a == b || lex_less(a, b) || lex_less(b, a),
    decreases a.len(),
{
    if a.len() == 0 && b.len() == 0 {
        assert(a =~= b);
    } else if a.len() > 0 && b.len() > 0 && a[0] == b[0] {
        lemma_lex_total(a.drop_first(), b.drop_first());
        if a.drop_first() == b.drop_first() {
            assert(a =~= seq![a[0]] + a.drop_first());
            assert(b =~= seq![b[0]] + b.drop_first());
        }
    }
}

proof fn lemma_lex_transitive(a: Seq<char>, b: Seq<char>, c: Seq<char>)
    requires
        lex_less(a, b),
        lex_less(b, c),
    ensures
        lex_less(a, c),
    decreases a.len(),
{
    if a.len() > 0 && b.len() > 0 && c.len() > 0 && a[0] == b[0] && b[0] == c[0] {
        lemma_lex_transitive(a.drop_first(), b.drop_first(), c.drop_first());
    }
}

/// Whether `v` is strictly increasing in lexicographic order.
pub open spec fn strictly_sorted(v: Seq<Seq<char>>) -> bool {
    forall|i: int, j: int| 0 <= i < j < v.len() ==> lex_less(#[trigger] v[i], #[trigger] v[j])
}

/// Whether `a` comes before `b`.
pub fn lex_lt(a: &Vec<char>, b: &Vec<char>) -> (r: bool)
    ensures
        r == lex_less(a@, b@),
{
    let mut i: usize = 0;
    assert(a@.skip(0) =~= a@);
    assert(b@.skip(0) =~= b@);
    while i < a.len() && i < b.len() && a[i] == b[i]
        invariant
            i <= a.len(),
            i <= b.len(),
            lex_less(a@, b@) == lex_less(a@.skip(i as int), b@.skip(i as int)),
        decreases a.len() - i,
    {
        assert(a@.skip(i as int).drop_first() =~= a@.skip(i + 1));
        assert(b@.skip(i as int).drop_first() =~= b@.skip(i + 1));
        i = i + 1;
    }
    assert(a@.skip(0) =~= a@);
    if i >= b.len() {
        false
    } else if i >= a.len() {
        true
    } else {
        a[i] < b[i]
    }
}

/// Inserts `x` into strictly sorted `v` unless it is there already.
fn insert_sorted(v: &mut Vec<Vec<char>>, x: Vec<char>)
    requires
        strictly_sorted(texts(old(v)@)),
    ensures
        strictly_sorted(texts(final(v)@)),
        forall|s: Seq<char>|
            #[trigger] texts(final(v)@).contains(s) <==> (texts(old(v)@).contains(s) || s == x@),
{
    let ghost m = texts(v@);
    let mut p: usize = 0;
    while p < v.len() && lex_lt(&v[p], &x)
        invariant
            p <= v.len(),
            m == texts(v@),
            forall|k: int| 0 <= k < p ==> lex_less(#[trigger] m[k], x@),
        decreases v.len() - p,
    {
        p = p + 1;
    }
    if p < v.len() && crate::command::same_chars(v[p].as_slice(), x.as_slice()) {
        assert(m[p as int] == x@);
        return;
    }
    proof {
        if p < m.len() {
            lemma_lex_total(m[p as int], x@);
        }
    }
    v.insert(p, x);
    let ghost n = texts(v@);
    assert(n =~= m.insert(p as int, x@));
    assert forall|i: int, j: int| 0 <= i < j < n.len() implies lex_less(
        #[trigger] n[i],
        #[trigger] n[j],
    ) by {
        if j < p {
        } else if j == p {
        } else if i < p {
            assert(n[j] == m[j - 1]);
            if j - 1 > p {
                lemma_lex_transitive(m[i], m[p as int], m[j - 1]);
            }
        } else if i == p {
            assert(n[j] == m[j - 1]);
            if j - 1 > p {
                lemma_lex_transitive(x@, m[p as int], m[j - 1]);
            }
        } else {
            assert(n[i] == m[i - 1] && n[j] == m[j - 1]);
        }
    }
    assert forall|s: Seq<char>| n.contains(s) <==> (m.contains(s) || s == x@) by {
        if n.contains(s) {
            let k = choose|k: int| 0 <= k < n.len() && #[trigger] n[k] == s;
            if k < p {
                assert(m[k] == s);
            } else if k > p {
                assert(m[k - 1] == s);
            }
        }
        if m.contains(s) {
            let k = choose|k: int| 0 <= k < m.len() && #[trigger] m[k] == s;
            if k < p {
                assert(n[k] == s);
            } else {
                assert(n[k + 1] == s);
            }
        }
        if s == x@ {
            assert(n[p as int] == s);
        }
    }
}

/// The completions of `word`: the builtins that start with it and the
/// executables `found` on the search path, each name once, in increasing
/// order.
pub fn complete_candidates(word: &str, found: &Vec<String>) -> (r: Vec<CompleteCandidate>)
    ensures
        strictly_sorted(displays(r@)),
        forall|s: Seq<char>|
            #[trigger] displays(r@).contains(s) <==> (builtins_starting(
                word@,
                6,
            ).contains(s) || strings(found@).contains(s)),
        forall|i: int|
            0 <= i < r@.len() ==> (#[trigger] r@[i]).replacement@ == r@[i].display@ + " "@,
{
    let builtins = complete_builtin(word);
    let ghost bs = displays(builtins@);
    let ghost fs = strings(found@);
    let mut names: Vec<Vec<char>> = Vec::new();
    let mut i: usize = 0;
    while i < builtins.len()
        invariant
            i <= builtins.len(),
            bs == displays(builtins@),
            strictly_sorted(texts(names@)),
            forall|s: Seq<char>|
                #[trigger] texts(names@).contains(s) <==> bs.take(i as int).contains(s),
        decreases builtins.len() - i,
    {
        let ghost before = texts(names@);
        insert_sorted(&mut names, chars_of(builtins[i].display.as_str()));
        assert forall|s: Seq<char>| bs.take(i + 1).contains(s) <==> (bs.take(i as int).contains(s)
            || s == bs[i as int]) by {
            if bs.take(i + 1).contains(s) {
                let k = choose|k: int| 0 <= k < i + 1 && #[trigger] bs.take(i + 1)[k] == s;
                if k < i {
                    assert(bs.take(i as int)[k] == s);
                }
            }
            if bs.take(i as int).contains(s) {
                let k = choose|k: int| 0 <= k < i && #[trigger] bs.take(i as int)[k] == s;
                assert(bs.take(i + 1)[k] == s);
            }
            if s == bs[i as int] {
                assert(bs.take(i + 1)[i as int] == s);
            }
        }
        assert forall|s: Seq<char>| #[trigger] texts(names@).contains(s) <==> bs.take(
            i + 1,
        ).contains(s) by {
            assert(texts(names@).contains(s) <==> (before.contains(s) || s == bs[i as int]));
        }
        i = i + 1;
    }
    assert(bs.take(builtins.len() as int) =~= bs);
    let mut k: usize = 0;
    while k < found.len()
        invariant
            k <= found.len(),
            fs == strings(found@),
            strictly_sorted(texts(names@)),
            forall|s: Seq<char>|
                #[trigger] texts(names@).contains(s) <==> (bs.contains(s) || fs.take(
                    k as int,
                ).contains(s)),
        decreases found.len() - k,
    {
        let ghost before = texts(names@);
        let x = chars_of(found[k].as_str());
        assert(x@ == fs[k as int]);
        insert_sorted(&mut names, x);
        assert forall|s: Seq<char>| fs.take(k + 1).contains(s) <==> (fs.take(k as int).contains(s)
            || s == fs[k as int]) by {
            if fs.take(k + 1).contains(s) {
                let j = choose|j: int| 0 <= j < k + 1 && #[trigger] fs.take(k + 1)[j] == s;
                if j < k {
                    assert(fs.take(k as int)[j] == s);
                }
            }
            if fs.take(k as int).contains(s) {
                let j = choose|j: int| 0 <= j < k && #[trigger] fs.take(k as int)[j] == s;
                assert(fs.take(k + 1)[j] == s);
            }
            if s == fs[k as int] {
                assert(fs.take(k + 1)[k as int] == s);
            }
        }
        assert forall|s: Seq<char>| #[trigger] texts(names@).contains(s) <==> (bs.contains(s)
            || fs.take(k + 1).contains(s)) by {
            assert(texts(names@).contains(s) <==> (before.contains(s) || s == fs[k as int]));
        }
        k = k + 1;
    }
    assert(fs.take(found.len() as int) =~= fs);
    let ghost nm = texts(names@);
    let mut out: Vec<CompleteCandidate> = Vec::new();
    let mut j: usize = 0;
    while j < names.len()
        invariant
            j <= names.len(),
            nm == texts(names@),
            displays(out@) == nm.take(j as int),
            forall|i: int|
                0 <= i < out@.len() ==> (#[trigger] out@[i]).replacement@ == out@[i].display@
                    + " "@,
        decreases names.len() - j,
    {
        let ghost before = displays(out@);
        let name = string_of(names[j].as_slice());
        out.push(CompleteCandidate::new(name.as_str()));
        assert(displays(out@) =~= before.push(nm[j as int]));
        assert(nm.take(j + 1) =~= nm.take(j as int).push(nm[j as int]));
        j = j + 1;
    }
    assert(nm.take(names.len() as int) =~= nm);
    out
}

} // verus!
