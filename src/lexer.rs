//! The word lexer: quoted and unquoted fragments, and words made of adjacent
//! fragments.
//!
//! Every scanner works on a buffer that may still grow. It answers `Done` with
//! what it read and the index just after it, `More` when the buffer ends before
//! the answer is known, and `Reject` when no extension of the buffer can match.

use vstd::prelude::*;
use crate::text::{is_separator, separator, sub_chars};

verus! {

/// What a scan of a growing buffer yields (model).
pub enum Scan<T> {
    Done(T, nat),
    More,
    Reject,
}

/// What a scan of a growing buffer yields.
#[derive(Debug, PartialEq, Eq)]
pub enum Step<T> {
    Done(T, usize),
    More,
    Reject,
}

impl<T: View> View for Step<T> {
    type V = Scan<T::V>;

    open spec fn view(&self) -> Scan<T::V> {
        match self {
            Step::Done(t, k) => Scan::Done(t@, *k as nat),
            Step::More => Scan::More,
            Step::Reject => Scan::Reject,
        }
    }
}

/// The first index at or after `i` that holds no separator; `None` when the
/// rest of the buffer is all separators.
pub open spec fn skip_separators(s: Seq<char>, i: int) -> Option<int>
    decreases s.len() - i,
{
    if i < 0 || i >= s.len() {
        None
    } else if is_separator(s[i]) {
        skip_separators(s, i + 1)
    } else {
        Some(i)
    }
}

/// The first index at or after `i` that holds `c`.
pub open spec fn find_char(s: Seq<char>, i: int, c: char) -> Option<int>
    decreases s.len() - i,
{
    if i < 0 || i >= s.len() {
        None
    } else if s[i] == c {
        Some(i)
    } else {
        find_char(s, i + 1, c)
    }
}

/// A single-quoted run that opens at `i`: its content, possibly empty, is
/// taken verbatim up to the next `'`.
pub open spec fn scan_single_quoted(s: Seq<char>, i: int) -> Scan<Seq<char>> {
    match find_char(s, i + 1, '\'') {
        None => Scan::More,
        Some(k) => Scan::Done(s.subrange(i + 1, k), (k + 1) as nat),
    }
}

/// The characters that stand for `\` followed by `e` inside double quotes: the
/// backslash escapes only `$`, `` ` ``, `"`, `\` and newline, and stays otherwise.
pub open spec fn double_quote_escape(e: char) -> Seq<char> {
    if e == '$' || e == '`' || e == '"' || e == '\\' || e == '\n' {
        seq![e]
    } else {
        seq!['\\', e]
    }
}

/// The content of a double-quoted run from index `j` on, appended to `acc`,
/// with the index of the closing quote.
pub open spec fn double_quote_body(s: Seq<char>, j: int, acc: Seq<char>) -> Scan<Seq<char>>
    decreases s.len() - j,
{
    if j < 0 || j >= s.len() {
        Scan::More
    } else if s[j] == '"' {
        Scan::Done(acc, j as nat)
    } else if s[j] == '\\' {
        if j + 1 >= s.len() {
            Scan::More
        } else {
            double_quote_body(s, j + 2, acc + double_quote_escape(s[j + 1]))
        }
    } else {
        double_quote_body(s, j + 1, acc.push(s[j]))
    }
}

/// A double-quoted run that opens at `i`; its content may be empty.
pub open spec fn scan_double_quoted(s: Seq<char>, i: int) -> Scan<Seq<char>> {
    match double_quote_body(s, i + 1, Seq::empty()) {
        Scan::Done(c, k) => Scan::Done(c, k + 1),
        other => other,
    }
}

/// Whether `c` ends an unquoted run.
pub open spec fn ends_unquoted(c: char) -> bool {
    is_separator(c) || c == '\'' || c == '"'
}

/// The content of an unquoted run from index `j` on, appended to `acc`, with
/// the index where it ends: a backslash takes the next character literally.
pub open spec fn unquoted_body(s: Seq<char>, j: int, acc: Seq<char>) -> Scan<Seq<char>>
    decreases s.len() - j,
{
    if j < 0 || j >= s.len() {
        Scan::More
    } else if ends_unquoted(s[j]) {
        Scan::Done(acc, j as nat)
    } else if s[j] == '\\' {
        if j + 1 >= s.len() {
            Scan::More
        } else {
            unquoted_body(s, j + 2, acc.push(s[j + 1]))
        }
    } else {
        unquoted_body(s, j + 1, acc.push(s[j]))
    }
}

/// An unquoted run that starts at `i`; it must not be empty.
pub open spec fn scan_unquoted(s: Seq<char>, i: int) -> Scan<Seq<char>> {
    match unquoted_body(s, i, Seq::empty()) {
        Scan::Done(c, k) => if c.len() == 0 {
            Scan::Reject
        } else {
            Scan::Done(c, k)
        },
        other => other,
    }
}

/// One fragment of a word at index `i`: single-quoted, double-quoted or
/// unquoted, tried in that order.
pub open spec fn scan_fragment(s: Seq<char>, i: int) -> Scan<Seq<char>> {
    if i < 0 || i >= s.len() {
        Scan::More
    } else if s[i] == '\'' {
        scan_single_quoted(s, i)
    } else if s[i] == '"' {
        scan_double_quoted(s, i)
    } else {
        scan_unquoted(s, i)
    }
}

/// Zero or more adjacent fragments from index `i` on, appended to `acc`.
pub open spec fn scan_fragments(s: Seq<char>, i: int, acc: Seq<char>) -> Scan<Seq<char>>
    decreases s.len() - i,
{
    match scan_fragment(s, i) {
        Scan::Done(f, k) => if i < k <= s.len() {
            scan_fragments(s, k as int, acc + f)
        } else {
            Scan::Reject
        },
        Scan::More => Scan::More,
        Scan::Reject => Scan::Done(acc, i as nat),
    }
}

/// A word at index `i`: separators are skipped, then one or more adjacent
/// fragments are joined into one word.
pub open spec fn scan_word(s: Seq<char>, i: int) -> Scan<Seq<char>> {
    match skip_separators(s, i) {
        None => Scan::More,
        Some(j) => match scan_fragment(s, j) {
            Scan::Done(f, k) => if j < k <= s.len() {
                scan_fragments(s, k as int, f)
            } else {
                Scan::Reject
            },
            Scan::More => Scan::More,
            Scan::Reject => Scan::Reject,
        },
    }
}

/// The index of the first character at or after `i` that is no separator.
pub fn skip_separators_at(s: &Vec<char>, i: usize) -> (r: Option<usize>)
    requires
        i <= s.len(),
    ensures
        match r {
            Some(j) => skip_separators(s@, i as int) == Some(j as int),
            None => skip_separators(s@, i as int) is None,
        },
        r matches Some(j) ==> i <= j < s.len(),
{
    let mut j = i;
    while j < s.len() && separator(s[j])
        invariant
            i <= j <= s.len(),
            skip_separators(s@, i as int) == skip_separators(s@, j as int),
        decreases s.len() - j,
    {
        j = j + 1;
    }
    if j < s.len() {
        Some(j)
    } else {
        None
    }
}

/// Scans a single-quoted run that opens at `i`.
pub fn single_quoted(s: &Vec<char>, i: usize) -> (r: Step<Vec<char>>)
    requires
        i < s.len(),
        s[i as int] == '\'',
    ensures
        r@ == scan_single_quoted(s@, i as int),
{
    let mut k = i + 1;
    while k < s.len() && s[k] != '\''
        invariant
            i + 1 <= k <= s.len(),
            find_char(s@, i + 1, '\'') == find_char(s@, k as int, '\''),
        decreases s.len() - k,
    {
        k = k + 1;
    }
    if k >= s.len() {
        return Step::More;
    }
    let content = sub_chars(s, i + 1, k);
    Step::Done(content, k + 1)
}

/// Scans a double-quoted run that opens at `i`.
pub fn double_quoted(s: &Vec<char>, i: usize) -> (r: Step<Vec<char>>)
    requires
        i < s.len(),
        s[i as int] == '"',
    ensures
        r@ == scan_double_quoted(s@, i as int),
{
    let mut acc: Vec<char> = Vec::new();
    let mut j = i + 1;
    loop
        invariant
            i + 1 <= j <= s.len(),
            double_quote_body(s@, j as int, acc@) == double_quote_body(s@, i + 1, Seq::empty()),
        decreases s.len() - j,
    {
        if j >= s.len() {
            return Step::More;
        }
        let c = s[j];
        if c == '"' {
            return Step::Done(acc, j + 1);
        }
        let ghost before = acc@;
        if c == '\\' {
            if j + 1 >= s.len() {
                return Step::More;
            }
            let e = s[j + 1];
            if e == '$' || e == '`' || e == '"' || e == '\\' || e == '\n' {
                acc.push(e);
            } else {
                acc.push('\\');
                acc.push(e);
            }
            assert(acc@ =~= before + double_quote_escape(e));
            j = j + 2;
        } else {
            acc.push(c);
            j = j + 1;
        }
    }
}

/// Scans an unquoted run that starts at `i`.
pub fn unquoted(s: &Vec<char>, i: usize) -> (r: Step<Vec<char>>)
    requires
        i <= s.len(),
    ensures
        r@ == scan_unquoted(s@, i as int),
{
    let mut acc: Vec<char> = Vec::new();
    let mut j = i;
    loop
        invariant
            i <= j <= s.len(),
            unquoted_body(s@, j as int, acc@) == unquoted_body(s@, i as int, Seq::empty()),
        decreases s.len() - j,
    {
        if j >= s.len() {
            return Step::More;
        }
        let c = s[j];
        if separator(c) || c == '\'' || c == '"' {
            if acc.len() == 0 {
                return Step::Reject;
            }
            return Step::Done(acc, j);
        }
        if c == '\\' {
            if j + 1 >= s.len() {
                return Step::More;
            }
            acc.push(s[j + 1]);
            j = j + 2;
        } else {
            acc.push(c);
            j = j + 1;
        }
    }
}

pub proof fn lemma_skip_separators_bounds(s: Seq<char>, i: int)
    requires
        0 <= i,
    ensures
        skip_separators(s, i) matches Some(j) ==> i <= j < s.len() && !is_separator(s[j]),
    decreases s.len() - i,
{
    if i < s.len() && is_separator(s[i]) {
        lemma_skip_separators_bounds(s, i + 1);
    }
}

proof fn lemma_find_char_bounds(s: Seq<char>, i: int, c: char)
    requires
        0 <= i,
    ensures
        find_char(s, i, c) matches Some(k) ==> i <= k < s.len() && s[k] == c,
    decreases s.len() - i,
{
    if i < s.len() && s[i] != c {
        lemma_find_char_bounds(s, i + 1, c);
    }
}

proof fn lemma_double_quote_body_bounds(s: Seq<char>, j: int, acc: Seq<char>)
    requires
        0 <= j,
    ensures
        double_quote_body(s, j, acc) matches Scan::Done(c, k) ==> j <= k < s.len(),
    decreases s.len() - j,
{
    if 0 <= j < s.len() && s[j] != '"' {
        if s[j] == '\\' {
            if j + 1 < s.len() {
                lemma_double_quote_body_bounds(s, j + 2, acc + double_quote_escape(s[j + 1]));
            }
        } else {
            lemma_double_quote_body_bounds(s, j + 1, acc.push(s[j]));
        }
    }
}

proof fn lemma_unquoted_body_bounds(s: Seq<char>, j: int, acc: Seq<char>)
    requires
        0 <= j,
    ensures
        unquoted_body(s, j, acc) matches Scan::Done(c, k) ==> j <= k <= s.len() && (k == j
            ==> c == acc),
    decreases s.len() - j,
{
    if 0 <= j < s.len() && !ends_unquoted(s[j]) {
        if s[j] == '\\' {
            if j + 1 < s.len() {
                lemma_unquoted_body_bounds(s, j + 2, acc.push(s[j + 1]));
            }
        } else {
            lemma_unquoted_body_bounds(s, j + 1, acc.push(s[j]));
        }
    }
}

/// A fragment that is read always consumes input and stays in the buffer.
pub proof fn lemma_fragment_advances(s: Seq<char>, i: int)
    requires
        0 <= i,
    ensures
        scan_fragment(s, i) matches Scan::Done(f, k) ==> i < k <= s.len(),
{
    if 0 <= i < s.len() {
        if s[i] == '\'' {
            lemma_find_char_bounds(s, i + 1, '\'');
        } else if s[i] == '"' {
            lemma_double_quote_body_bounds(s, i + 1, Seq::empty());
        } else {
            lemma_unquoted_body_bounds(s, i, Seq::empty());
        }
    }
}

/// Scans one fragment of a word at `i`.
pub fn fragment(s: &Vec<char>, i: usize) -> (r: Step<Vec<char>>)
    requires
        i <= s.len(),
    ensures
        r@ == scan_fragment(s@, i as int),
        r matches Step::Done(f, k) ==> i < k <= s.len(),
{
    proof {
        lemma_fragment_advances(s@, i as int);
    }
    if i >= s.len() {
        Step::More
    } else if s[i] == '\'' {
        single_quoted(s, i)
    } else if s[i] == '"' {
        double_quoted(s, i)
    } else {
        unquoted(s, i)
    }
}

/// Scans a word at `i`: leading separators, then adjacent fragments joined.
pub fn word(s: &Vec<char>, i: usize) -> (r: Step<Vec<char>>)
    requires
        i <= s.len(),
    ensures
        r@ == scan_word(s@, i as int),
        r matches Step::Done(w, k) ==> i < k <= s.len(),
{
    let j = match skip_separators_at(s, i) {
        None => {
            return Step::More;
        },
        Some(j) => j,
    };
    let (mut acc, mut k) = match fragment(s, j) {
        Step::More => {
            return Step::More;
        },
        Step::Reject => {
            return Step::Reject;
        },
        Step::Done(f, k) => (f, k),
    };
    loop
        invariant
            i <= j < k <= s.len(),
            scan_fragments(s@, k as int, acc@) == scan_word(s@, i as int),
        decreases s.len() - k,
    {
        match fragment(s, k) {
            Step::Done(g, next) => {
                let mut g = g;
                acc.append(&mut g);
                k = next;
            },
            Step::More => {
                return Step::More;
            },
            Step::Reject => {
                return Step::Done(acc, k);
            },
        }
    }
}

/// A scan result with its end moved `p` further.
pub open spec fn shifted<T>(r: Scan<T>, p: int) -> Scan<T> {
    match r {
        Scan::Done(v, k) => Scan::Done(v, (k + p) as nat),
        Scan::More => Scan::More,
        Scan::Reject => Scan::Reject,
    }
}

/// Whether a scan result is final: more input cannot change it.
pub open spec fn settled<T>(r: Scan<T>) -> bool {
    !(r is More)
}

pub proof fn lemma_skip_separators_shift(s: Seq<char>, p: int, i: int)
    requires
        0 <= p <= i,
        p <= s.len(),
    ensures
        skip_separators(s, i) == match skip_separators(s.skip(p), i - p) {
            Some(j) => Some(j + p),
            None => None::<int>,
        },
    decreases s.len() - i,
{
    if i < s.len() {
        assert(s.skip(p)[i - p] == s[i]);
    }
    if i < s.len() && is_separator(s[i]) {
        lemma_skip_separators_shift(s, p, i + 1);
    }
}

pub proof fn lemma_skip_separators_extend(s: Seq<char>, x: Seq<char>, i: int)
    requires
        0 <= i,
        skip_separators(s, i) is Some,
    ensures
        skip_separators(s + x, i) == skip_separators(s, i),
    decreases s.len() - i,
{
    if i < s.len() && is_separator(s[i]) {
        lemma_skip_separators_extend(s, x, i + 1);
    }
}

proof fn lemma_find_char_shift(s: Seq<char>, p: int, i: int, c: char)
    requires
        0 <= p <= i,
        p <= s.len(),
    ensures
        find_char(s, i, c) == match find_char(s.skip(p), i - p, c) {
            Some(j) => Some(j + p),
            None => None::<int>,
        },
    decreases s.len() - i,
{
    if i < s.len() {
        assert(s.skip(p)[i - p] == s[i]);
    }
    if i < s.len() && s[i] != c {
        lemma_find_char_shift(s, p, i + 1, c);
    }
}

proof fn lemma_find_char_extend(s: Seq<char>, x: Seq<char>, i: int, c: char)
    requires
        0 <= i,
        find_char(s, i, c) is Some,
    ensures
        find_char(s + x, i, c) == find_char(s, i, c),
    decreases s.len() - i,
{
    if i < s.len() && s[i] != c {
        lemma_find_char_extend(s, x, i + 1, c);
    }
}

proof fn lemma_double_quote_body_shift(s: Seq<char>, p: int, j: int, acc: Seq<char>)
    requires
        0 <= p <= j,
        p <= s.len(),
    ensures
        double_quote_body(s, j, acc) == shifted(double_quote_body(s.skip(p), j - p, acc), p),
    decreases s.len() - j,
{
    if j < s.len() {
        assert(s.skip(p)[j - p] == s[j]);
    }
    if j + 1 < s.len() {
        assert(s.skip(p)[j + 1 - p] == s[j + 1]);
    }
    if j < s.len() && s[j] != '"' {
        if s[j] == '\\' {
            if j + 1 < s.len() {
                lemma_double_quote_body_shift(s, p, j + 2, acc + double_quote_escape(s[j + 1]));
            }
        } else {
            lemma_double_quote_body_shift(s, p, j + 1, acc.push(s[j]));
        }
    }
}

proof fn lemma_double_quote_body_extend(s: Seq<char>, x: Seq<char>, j: int, acc: Seq<char>)
    requires
        0 <= j,
        settled(double_quote_body(s, j, acc)),
    ensures
        double_quote_body(s + x, j, acc) == double_quote_body(s, j, acc),
    decreases s.len() - j,
{
    if j < s.len() && s[j] != '"' {
        if s[j] == '\\' {
            if j + 1 < s.len() {
                lemma_double_quote_body_extend(s, x, j + 2, acc + double_quote_escape(s[j + 1]));
            }
        } else {
            lemma_double_quote_body_extend(s, x, j + 1, acc.push(s[j]));
        }
    }
}

proof fn lemma_unquoted_body_shift(s: Seq<char>, p: int, j: int, acc: Seq<char>)
    requires
        0 <= p <= j,
        p <= s.len(),
    ensures
        unquoted_body(s, j, acc) == shifted(unquoted_body(s.skip(p), j - p, acc), p),
    decreases s.len() - j,
{
    if j < s.len() {
        assert(s.skip(p)[j - p] == s[j]);
    }
    if j + 1 < s.len() {
        assert(s.skip(p)[j + 1 - p] == s[j + 1]);
    }
    if j < s.len() && !ends_unquoted(s[j]) {
        if s[j] == '\\' {
            if j + 1 < s.len() {
                lemma_unquoted_body_shift(s, p, j + 2, acc.push(s[j + 1]));
            }
        } else {
            lemma_unquoted_body_shift(s, p, j + 1, acc.push(s[j]));
        }
    }
}

proof fn lemma_unquoted_body_extend(s: Seq<char>, x: Seq<char>, j: int, acc: Seq<char>)
    requires
        0 <= j,
        settled(unquoted_body(s, j, acc)),
    ensures
        unquoted_body(s + x, j, acc) == unquoted_body(s, j, acc),
    decreases s.len() - j,
{
    if j < s.len() && !ends_unquoted(s[j]) {
        if s[j] == '\\' {
            if j + 1 < s.len() {
                lemma_unquoted_body_extend(s, x, j + 2, acc.push(s[j + 1]));
            }
        } else {
            lemma_unquoted_body_extend(s, x, j + 1, acc.push(s[j]));
        }
    }
}

pub proof fn lemma_fragment_shift(s: Seq<char>, p: int, i: int)
    requires
        0 <= p <= i,
        p <= s.len(),
    ensures
        scan_fragment(s, i) == shifted(scan_fragment(s.skip(p), i - p), p),
{
    if i < s.len() {
        assert(s.skip(p)[i - p] == s[i]);
        if s[i] == '\'' {
            lemma_find_char_shift(s, p, i + 1, '\'');
            if let Some(k) = find_char(s, i + 1, '\'') {
                lemma_find_char_bounds(s, i + 1, '\'');
                assert(s.skip(p).subrange(i + 1 - p, k - p) =~= s.subrange(i + 1, k));
            }
        } else if s[i] == '"' {
            lemma_double_quote_body_shift(s, p, i + 1, Seq::empty());
        } else {
            lemma_unquoted_body_shift(s, p, i, Seq::empty());
        }
    }
}

pub proof fn lemma_fragment_extend(s: Seq<char>, x: Seq<char>, i: int)
    requires
        0 <= i,
        settled(scan_fragment(s, i)),
    ensures
        scan_fragment(s + x, i) == scan_fragment(s, i),
{
    if i < s.len() {
        assert((s + x)[i] == s[i]);
        if s[i] == '\'' {
            lemma_find_char_extend(s, x, i + 1, '\'');
            if let Some(k) = find_char(s, i + 1, '\'') {
                lemma_find_char_bounds(s, i + 1, '\'');
                assert((s + x).subrange(i + 1, k) =~= s.subrange(i + 1, k));
            }
        } else if s[i] == '"' {
            lemma_double_quote_body_extend(s, x, i + 1, Seq::empty());
        } else {
            lemma_unquoted_body_extend(s, x, i, Seq::empty());
        }
    }
}

proof fn lemma_fragments_shift(s: Seq<char>, p: int, i: int, acc: Seq<char>)
    requires
        0 <= p <= i,
        p <= s.len(),
    ensures
        scan_fragments(s, i, acc) == shifted(scan_fragments(s.skip(p), i - p, acc), p),
    decreases s.len() - i,
{
    lemma_fragment_shift(s, p, i);
    lemma_fragment_advances(s, i);
    if let Scan::Done(f, k) = scan_fragment(s, i) {
        if i < k <= s.len() {
            lemma_fragments_shift(s, p, k as int, acc + f);
        }
    }
}

proof fn lemma_fragments_extend(s: Seq<char>, x: Seq<char>, i: int, acc: Seq<char>)
    requires
        0 <= i,
        settled(scan_fragments(s, i, acc)),
    ensures
        scan_fragments(s + x, i, acc) == scan_fragments(s, i, acc),
    decreases s.len() - i,
{
    lemma_fragment_advances(s, i);
    lemma_fragment_advances(s + x, i);
    if !(scan_fragment(s, i) is More) {
        lemma_fragment_extend(s, x, i);
    }
    if let Scan::Done(f, k) = scan_fragment(s, i) {
        if i < k <= s.len() {
            lemma_fragments_extend(s, x, k as int, acc + f);
        }
    }
}

pub proof fn lemma_word_shift(s: Seq<char>, p: int, i: int)
    requires
        0 <= p <= i,
        p <= s.len(),
    ensures
        scan_word(s, i) == shifted(scan_word(s.skip(p), i - p), p),
{
    lemma_skip_separators_shift(s, p, i);
    lemma_skip_separators_bounds(s, i);
    if let Some(j) = skip_separators(s, i) {
        lemma_fragment_shift(s, p, j);
        lemma_fragment_advances(s, j);
        if let Scan::Done(f, k) = scan_fragment(s, j) {
            if j < k <= s.len() {
                lemma_fragments_shift(s, p, k as int, f);
            }
        }
    }
}

pub proof fn lemma_word_extend(s: Seq<char>, x: Seq<char>, i: int)
    requires
        0 <= i,
        settled(scan_word(s, i)),
    ensures
        scan_word(s + x, i) == scan_word(s, i),
{
    lemma_skip_separators_bounds(s, i);
    if let Some(j) = skip_separators(s, i) {
        lemma_skip_separators_extend(s, x, i);
        lemma_fragment_advances(s, j);
        lemma_fragment_advances(s + x, j);
        lemma_fragment_extend(s, x, j);
        if let Scan::Done(f, k) = scan_fragment(s, j) {
            if j < k <= s.len() {
                lemma_fragments_extend(s, x, k as int, f);
            }
        }
    }
}

} // verus!
