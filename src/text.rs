//! Character-level helpers shared by the tokenizers and the builtins.

use vstd::prelude::*;

verus! {

/// The four separators that end an unquoted word: space, tab, carriage
/// return and newline.
pub open spec fn is_separator(c: char) -> bool {
    c == ' ' || c == '\t' || c == '\r' || c == '\n'
}

/// Tests whether `c` separates two unquoted words.
pub fn separator(c: char) -> (r: bool)
    ensures
        r == is_separator(c),
{
    c == ' ' || c == '\t' || c == '\r' || c == '\n'
}

/// The characters of `s`, in order.
pub fn chars_of(s: &str) -> (r: Vec<char>)
    ensures
        r@ == s@,
{
    broadcast use vstd::string::axiom_spec_iter;

    let mut out: Vec<char> = Vec::new();
    for c in it: s.chars()
        invariant
            it.seq() == s@,
            out@ == it.seq().take(it.index() as int),
    {
        out.push(c);
        assert(it.seq().take(it.index() + 1) =~= it.seq().take(it.index() as int).push(c));
    }
    assert(out@ =~= s@);
    out
}

/// Relies on `String::from_iter` over characters: the string made of `v`, in order.
#[verifier::external_body]
pub(crate) fn string_of(v: &[char]) -> (r: String)
    ensures
        r@ == v@,
{
    String::from_iter(v)
}

/// Whether `c` is an ASCII decimal digit.
pub open spec fn is_digit(c: char) -> bool {
    48 <= (c as u32) <= 57
}

/// The value of an ASCII decimal digit.
pub open spec fn digit_value(c: char) -> nat {
    ((c as u32) - 48) as nat
}

/// The value of a run of decimal digits, most significant first.
pub open spec fn decimal_value(ds: Seq<char>) -> nat
    decreases ds.len(),
{
    if ds.len() == 0 {
        0
    } else {
        decimal_value(ds.drop_last()) * 10 + digit_value(ds.last())
    }
}

/// Tests whether `c` is an ASCII decimal digit.
pub fn digit(c: char) -> (r: bool)
    ensures
        r == is_digit(c),
{
    48 <= (c as u32) && (c as u32) <= 57
}

/// A copy of `s[a..b]`.
pub fn sub_chars(s: &Vec<char>, a: usize, b: usize) -> (r: Vec<char>)
    requires
        a <= b <= s.len(),
    ensures
        r@ == s@.subrange(a as int, b as int),
{
    let mut out: Vec<char> = Vec::new();
    let mut m = a;
    while m < b
        invariant
            a <= m <= b <= s.len(),
            out@ == s@.subrange(a as int, m as int),
        decreases b - m,
    {
        out.push(s[m]);
        m = m + 1;
        assert(out@ =~= s@.subrange(a as int, m as int));
    }
    out
}

/// Unicode `White_Space`, the property by which `str::trim` tells blanks.
pub open spec fn is_white_space(c: char) -> bool {
    let u = c as u32;
    (9 <= u <= 13) || u == 32 || u == 0x85 || u == 0xA0 || u == 0x1680 || (0x2000 <= u
        <= 0x200A) || u == 0x2028 || u == 0x2029 || u == 0x202F || u == 0x205F || u == 0x3000
}

/// Whether every character of `s` is white space.
pub open spec fn is_blank(s: Seq<char>) -> bool {
    forall|i: int| 0 <= i < s.len() ==> is_white_space(#[trigger] s[i])
}

/// Tests whether `c` is Unicode white space.
pub fn white_space(c: char) -> (r: bool)
    ensures
        r == is_white_space(c),
{
    let u = c as u32;
    (9 <= u && u <= 13) || u == 32 || u == 0x85 || u == 0xA0 || u == 0x1680 || (0x2000 <= u && u
        <= 0x200A) || u == 0x2028 || u == 0x2029 || u == 0x202F || u == 0x205F || u == 0x3000
}

/// Tests whether `s` holds nothing but white space.
pub fn blank(s: &Vec<char>) -> (r: bool)
    ensures
        r == is_blank(s@),
{
    let mut i: usize = 0;
    while i < s.len()
        invariant
            i <= s.len(),
            forall|m: int| 0 <= m < i ==> is_white_space(#[trigger] s@[m]),
        decreases s.len() - i,
    {
        if !white_space(s[i]) {
            return false;
        }
        i = i + 1;
    }
    true
}

/// Appends the characters of `s` to `out`.
pub fn push_str(out: &mut Vec<char>, s: &str)
    ensures
        final(out)@ == old(out)@ + s@,
{
    let mut more = chars_of(s);
    out.append(&mut more);
}

/// `parts` joined, with `sep` between each two.
pub open spec fn joined_with(parts: Seq<Seq<char>>, sep: Seq<char>) -> Seq<char>
    decreases parts.len(),
{
    if parts.len() == 0 {
        Seq::empty()
    } else if parts.len() == 1 {
        parts[0]
    } else {
        joined_with(parts.drop_last(), sep) + sep + parts.last()
    }
}

/// `parts` joined, with `sep` between each two.
pub fn join_with(parts: &Vec<String>, sep: &str) -> (r: Vec<char>)
    ensures
        r@ == joined_with(parts@.map_values(|p: String| p@), sep@),
{
    let ghost ps = parts@.map_values(|p: String| p@);
    let mut out: Vec<char> = Vec::new();
    let mut i: usize = 0;
    assert(ps.take(0) =~= Seq::<Seq<char>>::empty());
    while i < parts.len()
        invariant
            i <= parts.len(),
            ps == parts@.map_values(|p: String| p@),
            out@ == joined_with(ps.take(i as int), sep@),
        decreases parts.len() - i,
    {
        assert(ps.take(i + 1).drop_last() =~= ps.take(i as int));
        if i > 0 {
            push_str(&mut out, sep);
        } else {
            assert(ps.take(1) =~= seq![ps[0]]);
        }
        push_str(&mut out, parts[i].as_str());
        i = i + 1;
    }
    assert(ps.take(parts.len() as int) =~= ps);
    out
}

/// The fields of `s` separated by `c`, empty ones included.
pub open spec fn split_on(s: Seq<char>, c: char) -> Seq<Seq<char>>
    decreases s.len(),
{
    if s.len() == 0 {
        seq![Seq::empty()]
    } else {
        let prev = split_on(s.drop_last(), c);
        if s.last() == c {
            prev.push(Seq::empty())
        } else {
            prev.update(prev.len() - 1, prev.last().push(s.last()))
        }
    }
}

/// The digit character for `d < 10`.
pub open spec fn digit_char(d: nat) -> char {
    seq!['0', '1', '2', '3', '4', '5', '6', '7', '8', '9'][d as int]
}

/// The decimal notation of `n`, without leading zeros.
pub open spec fn decimal_chars(n: nat) -> Seq<char>
    decreases n,
{
    if n < 10 {
        seq![digit_char(n)]
    } else {
        decimal_chars(n / 10).push(digit_char(n % 10))
    }
}

/// The decimal notation of `n`.
pub fn decimal(n: usize) -> (r: Vec<char>)
    ensures
        r@ == decimal_chars(n as nat),
    decreases n,
{
    let digits = ['0', '1', '2', '3', '4', '5', '6', '7', '8', '9'];
    assert(digits@ =~= seq!['0', '1', '2', '3', '4', '5', '6', '7', '8', '9']);
    if n < 10 {
        let mut r: Vec<char> = Vec::new();
        r.push(digits[n]);
        assert(r@ =~= seq![digit_char(n as nat)]);
        r
    } else {
        let mut r = decimal(n / 10);
        r.push(digits[n % 10]);
        r
    }
}

/// Whether `s` is a non-empty run of decimal digits.
pub open spec fn all_digits(s: Seq<char>) -> bool {
    s.len() > 0 && forall|i: int| 0 <= i < s.len() ==> is_digit(#[trigger] s[i])
}

/// The integer that `s` writes: an optional `+` or `-`, then decimal digits.
pub open spec fn signed_value(s: Seq<char>) -> Option<int> {
    if s.len() > 0 && (s[0] == '+' || s[0] == '-') {
        if all_digits(s.drop_first()) {
            Some(
                if s[0] == '-' {
                    -decimal_value(s.drop_first())
                } else {
                    decimal_value(s.drop_first()) as int
                },
            )
        } else {
            None
        }
    } else if all_digits(s) {
        Some(decimal_value(s) as int)
    } else {
        None
    }
}

/// The value of digits `s[from..]` capped at `cap`, or `None` when they are no
/// non-empty run of digits.
fn digits_capped(s: &Vec<char>, from: usize, cap: u128) -> (r: Option<u128>)
    requires
        from <= s.len(),
        cap <= 0x1_0000_0000_0000_0000,
    ensures
        r is Some <==> all_digits(s@.subrange(from as int, s.len() as int)),
        r matches Some(v) ==> v == if decimal_value(s@.subrange(from as int, s.len() as int))
            <= cap {
            decimal_value(s@.subrange(from as int, s.len() as int))
        } else {
            cap as nat
        },
{
    if from >= s.len() {
        return None;
    }
    let mut v: u128 = 0;
    let mut i = from;
    assert(s@.subrange(from as int, from as int) =~= Seq::<char>::empty());
    while i < s.len()
        invariant
            from <= i <= s.len(),
            cap <= 0x1_0000_0000_0000_0000,
            forall|m: int| from <= m < i ==> is_digit(#[trigger] s@[m]),
            v == if decimal_value(s@.subrange(from as int, i as int)) <= cap {
                decimal_value(s@.subrange(from as int, i as int))
            } else {
                cap as nat
            },
        decreases s.len() - i,
    {
        if !digit(s[i]) {
            assert(!is_digit(s@.subrange(from as int, s.len() as int)[i - from]));
            return None;
        }
        let d = ((s[i] as u32) - 48) as u128;
        let ghost before = decimal_value(s@.subrange(from as int, i as int));
        assert(s@.subrange(from as int, i + 1).drop_last() =~= s@.subrange(from as int, i as int));
        assert(decimal_value(s@.subrange(from as int, i + 1)) == before * 10 + d);
        if v < cap {
            v = v * 10 + d;
            if v > cap {
                v = cap;
            }
        }
        i = i + 1;
    }
    assert(forall|m: int|
        0 <= m < s@.subrange(from as int, s.len() as int).len() ==> #[trigger] s@.subrange(
            from as int,
            s.len() as int,
        )[m] == s@[from + m]);
    Some(v)
}

/// What `str::parse::<i32>` reads from `s`: an integer in the range of `i32`.
pub open spec fn parsed_i32(s: Seq<char>) -> Option<int> {
    match signed_value(s) {
        Some(v) => if i32::MIN <= v <= i32::MAX {
            Some(v)
        } else {
            None
        },
        None => None,
    }
}

/// Reads an `i32` written in decimal with an optional sign.
pub fn parse_i32(s: &str) -> (r: Option<i32>)
    ensures
        match r {
            Some(v) => parsed_i32(s@) == Some(v as int),
            None => parsed_i32(s@) is None,
        },
{
    let c = chars_of(s);
    let signed = c.len() > 0 && (c[0] == '+' || c[0] == '-');
    let from: usize = if signed {
        1
    } else {
        0
    };
    assert(c@.subrange(1, c@.len() as int) =~= c@.drop_first());
    assert(c@.subrange(0, c@.len() as int) =~= c@);
    let cap: u128 = 0x8000_0001;
    match digits_capped(&c, from, cap) {
        None => None,
        Some(v) => {
            if signed && c[0] == '-' {
                if v <= 0x8000_0000 {
                    Some((0 - (v as i128)) as i32)
                } else {
                    None
                }
            } else if v <= 0x7fff_ffff {
                Some(v as i32)
            } else {
                None
            }
        },
    }
}

/// What `str::parse::<usize>` reads from `s`: an optional `+`, then digits
/// whose value fits in `usize`.
pub open spec fn parsed_usize(s: Seq<char>) -> Option<nat> {
    let ds = if s.len() > 0 && s[0] == '+' {
        s.drop_first()
    } else {
        s
    };
    if all_digits(ds) && decimal_value(ds) <= usize::MAX {
        Some(decimal_value(ds))
    } else {
        None
    }
}

/// Reads a `usize` written in decimal with an optional `+`.
pub fn parse_usize(s: &str) -> (r: Option<usize>)
    ensures
        match r {
            Some(v) => parsed_usize(s@) == Some(v as nat),
            None => parsed_usize(s@) is None,
        },
{
    let c = chars_of(s);
    let from: usize = if c.len() > 0 && c[0] == '+' {
        1
    } else {
        0
    };
    assert(c@.subrange(1, c@.len() as int) =~= c@.drop_first());
    assert(c@.subrange(0, c@.len() as int) =~= c@);
    let cap: u128 = usize::MAX as u128 + 1;
    match digits_capped(&c, from, cap) {
        None => None,
        Some(v) => if v <= usize::MAX as u128 {
            Some(v as usize)
        } else {
            None
        },
    }
}

/// Splitting always yields at least one field.
pub proof fn lemma_split_on_nonempty(s: Seq<char>, c: char)
    ensures
        split_on(s, c).len() >= 1,
    decreases s.len(),
{
    if s.len() > 0 {
        lemma_split_on_nonempty(s.drop_last(), c);
    }
}

/// The fields of `s` separated by `c`, empty ones included.
pub fn split_chars(s: &Vec<char>, c: char) -> (r: Vec<Vec<char>>)
    ensures
        r@.map_values(|f: Vec<char>| f@) == split_on(s@, c),
{
    let mut out: Vec<Vec<char>> = Vec::new();
    let mut cur: Vec<char> = Vec::new();
    let mut i: usize = 0;
    assert(s@.take(0) =~= Seq::<char>::empty());
    while i < s.len()
        invariant
            i <= s.len(),
            split_on(s@.take(i as int), c).len() >= 1,
            out@.map_values(|f: Vec<char>| f@) == split_on(s@.take(i as int), c).drop_last(),
            cur@ == split_on(s@.take(i as int), c).last(),
        decreases s.len() - i,
    {
        let ghost prev = split_on(s@.take(i as int), c);
        assert(s@.take(i + 1).drop_last() =~= s@.take(i as int));
        proof {
            lemma_split_on_nonempty(s@.take(i + 1), c);
        }
        if s[i] == c {
            let ghost before = out@.map_values(|f: Vec<char>| f@);
            out.push(cur);
            cur = Vec::new();
            assert(out@.map_values(|f: Vec<char>| f@) =~= before.push(prev.last()));
            assert(prev =~= prev.drop_last().push(prev.last()));
            assert(split_on(s@.take(i + 1), c).drop_last() =~= prev);
            assert(cur@ =~= Seq::<char>::empty());
        } else {
            cur.push(s[i]);
            assert(split_on(s@.take(i + 1), c).drop_last() =~= prev.drop_last());
        }
        i = i + 1;
    }
    assert(s@.take(s.len() as int) =~= s@);
    let ghost all = split_on(s@, c);
    let ghost before = out@.map_values(|f: Vec<char>| f@);
    out.push(cur);
    assert(all =~= all.drop_last().push(all.last()));
    assert(out@.map_values(|f: Vec<char>| f@) =~= all);
    out
}

} // verus!
