//! Words read from the bytes of a line: double- and single-quoted runs and
//! unquoted runs with backslash escapes; runs that touch make one word.

use vstd::prelude::*;
use vstd::string::StringSliceAdditionalSpecFns;

verus! {

pub const WHITESPACE: u8 = 32;
pub const SINGLE_QUOTE: u8 = 39;
pub const BACKSLASH: u8 = 92;
pub const DOUBLE_QUOTE: u8 = 34;

/// A word as raw bytes.
#[derive(Debug, PartialEq, Eq)]
pub struct RawToken(pub Vec<u8>);

impl RawToken {
    /// The bytes of the word.
    pub fn into_inner(self) -> (r: Vec<u8>)
        ensures
            r == self.0,
    {
        self.0
    }

    fn merge(self, other: RawToken) -> (r: RawToken)
        ensures
            r.0@ == self.0@ + other.0@,
    {
        let (RawToken(mut lhs), RawToken(mut rhs)) = (self, other);
        lhs.append(&mut rhs);
        RawToken(lhs)
    }
}

/// Space, tab, carriage return or newline.
pub open spec fn is_blank_byte(c: u8) -> bool {
    c == 32 || c == 9 || c == 13 || c == 10
}

fn blank_byte(c: u8) -> (r: bool)
    ensures
        r == is_blank_byte(c),
{
    c == 32 || c == 9 || c == 13 || c == 10
}

/// The first index at or after `p` that holds no blank, or the end.
pub open spec fn skip_blanks(b: Seq<u8>, p: int) -> int
    decreases b.len() - p,
{
    if p < 0 || p >= b.len() {
        p
    } else if is_blank_byte(b[p]) {
        skip_blanks(b, p + 1)
    } else {
        p
    }
}

/// What a backslash followed by `c` stands for inside double quotes.
pub open spec fn quoted_escape(c: u8) -> Seq<u8> {
    if c == 36 || c == 96 || c == 34 || c == 92 || c == 10 {
        seq![c]
    } else {
        seq![BACKSLASH, c]
    }
}

/// The content of a double-quoted run from `j` on, appended to `acc`, and the
/// index after it; the run also ends with the input.
pub open spec fn double_run(b: Seq<u8>, j: int, acc: Seq<u8>) -> (Seq<u8>, int)
    decreases b.len() - j,
{
    if j < 0 || j >= b.len() {
        (acc, j)
    } else if b[j] == DOUBLE_QUOTE {
        (acc, j + 1)
    } else if b[j] == BACKSLASH {
        if j + 1 >= b.len() {
            (acc, j + 1)
        } else {
            double_run(b, j + 2, acc + quoted_escape(b[j + 1]))
        }
    } else {
        double_run(b, j + 1, acc.push(b[j]))
    }
}

/// The content of a single-quoted run from `j` on, appended to `acc`, and the
/// index after it; the run also ends with the input.
pub open spec fn single_run(b: Seq<u8>, j: int, acc: Seq<u8>) -> (Seq<u8>, int)
    decreases b.len() - j,
{
    if j < 0 || j >= b.len() {
        (acc, j)
    } else if b[j] == SINGLE_QUOTE {
        (acc, j + 1)
    } else {
        single_run(b, j + 1, acc.push(b[j]))
    }
}

/// An unquoted run from `j` on, appended to `acc`, the index after it, and
/// whether a quote follows it: it ends after a blank, at the end of input,
/// after a backslash that ends the input, or before a quote, whose run then
/// goes on with the same word; a backslash takes the next byte literally.
pub open spec fn escaped_run(b: Seq<u8>, j: int, acc: Seq<u8>) -> (Seq<u8>, int, bool)
    decreases b.len() - j,
{
    if j < 0 || j >= b.len() {
        (acc, j, false)
    } else if b[j] == BACKSLASH {
        if j + 1 >= b.len() {
            (acc, j + 1, false)
        } else {
            escaped_run(b, j + 2, acc.push(b[j + 1]))
        }
    } else if is_blank_byte(b[j]) {
        (acc, j + 1, false)
    } else if b[j] == SINGLE_QUOTE || b[j] == DOUBLE_QUOTE {
        (acc, j, true)
    } else {
        escaped_run(b, j + 1, acc.push(b[j]))
    }
}

/// The word being assembled, if any, as a list of words.
pub open spec fn pending(cur: Option<Seq<u8>>) -> Seq<Seq<u8>> {
    match cur {
        Some(t) => seq![t],
        None => Seq::empty(),
    }
}

/// `cur` with `t` appended.
pub open spec fn extend(cur: Option<Seq<u8>>, t: Seq<u8>) -> Seq<u8> {
    match cur {
        Some(c) => c + t,
        None => t,
    }
}

/// The words read from `p` on, while `cur` is being assembled: blanks end
/// the word in progress.
pub open spec fn words_from(b: Seq<u8>, p: int, cur: Option<Seq<u8>>) -> Seq<Seq<u8>>
    decreases b.len() - p, 1int,
{
    if 0 <= p < b.len() && is_blank_byte(b[p]) {
        let q = skip_blanks(b, p + 1);
        if p < q <= b.len() {
            pending(cur) + runs_from(b, q, None)
        } else {
            pending(cur)
        }
    } else {
        runs_from(b, p, cur)
    }
}

/// The words read from `p` on, where no blank stands: a quoted run joins the
/// word in progress, and so does an unquoted run that a quote follows; any
/// other unquoted run ends it; without either, reading stops.
pub open spec fn runs_from(b: Seq<u8>, q: int, cur: Option<Seq<u8>>) -> Seq<Seq<u8>>
    decreases b.len() - q, 0int,
{
    if 0 <= q < b.len() && b[q] == DOUBLE_QUOTE {
        let (t, e) = double_run(b, q + 1, Seq::empty());
        if q < e <= b.len() {
            words_from(b, e, Some(extend(cur, t)))
        } else {
            Seq::empty()
        }
    } else if 0 <= q < b.len() && b[q] == SINGLE_QUOTE {
        let (t, e) = single_run(b, q + 1, Seq::empty());
        if q < e <= b.len() {
            words_from(b, e, Some(extend(cur, t)))
        } else {
            Seq::empty()
        }
    } else {
        let (t, e, quoted) = escaped_run(b, q, Seq::empty());
        let f = skip_blanks(b, e);
        if quoted {
            if q < e <= b.len() {
                words_from(b, e, Some(extend(cur, t)))
            } else {
                pending(cur)
            }
        } else if t.len() > 0 && q < e <= f <= b.len() {
            seq![extend(cur, t)] + words_from(b, f, None)
        } else {
            pending(cur)
        }
    }
}

fn skip_blanks_at(b: &Vec<u8>, p: usize) -> (r: usize)
    requires
        p <= b.len(),
    ensures
        r as int == skip_blanks(b@, p as int),
        p <= r <= b.len(),
{
    let mut q = p;
    while q < b.len() && blank_byte(b[q])
        invariant
            p <= q <= b.len(),
            skip_blanks(b@, p as int) == skip_blanks(b@, q as int),
        decreases b.len() - q,
    {
        q = q + 1;
    }
    q
}

fn double_run_at(b: &Vec<u8>, j: usize) -> (r: (Vec<u8>, usize))
    requires
        j <= b.len(),
    ensures
        (r.0@, r.1 as int) == double_run(b@, j as int, Seq::empty()),
        j <= r.1 <= b.len(),
{
    let mut acc: Vec<u8> = Vec::new();
    let mut k = j;
    loop
        invariant
            j <= k <= b.len(),
            double_run(b@, k as int, acc@) == double_run(b@, j as int, Seq::empty()),
        decreases b.len() - k,
    {
        if k >= b.len() {
            return (acc, k);
        }
        let c = b[k];
        if c == DOUBLE_QUOTE {
            return (acc, k + 1);
        }
        if c == BACKSLASH {
            if k + 1 >= b.len() {
                return (acc, k + 1);
            }
            let e = b[k + 1];
            let ghost before = acc@;
            if e == 36 || e == 96 || e == 34 || e == 92 || e == 10 {
                acc.push(e);
            } else {
                acc.push(BACKSLASH);
                acc.push(e);
            }
            assert(acc@ =~= before + quoted_escape(e));
            k = k + 2;
        } else {
            acc.push(c);
            k = k + 1;
        }
    }
}

fn single_run_at(b: &Vec<u8>, j: usize) -> (r: (Vec<u8>, usize))
    requires
        j <= b.len(),
    ensures
        (r.0@, r.1 as int) == single_run(b@, j as int, Seq::empty()),
        j <= r.1 <= b.len(),
{
    let mut acc: Vec<u8> = Vec::new();
    let mut k = j;
    loop
        invariant
            j <= k <= b.len(),
            single_run(b@, k as int, acc@) == single_run(b@, j as int, Seq::empty()),
        decreases b.len() - k,
    {
        if k >= b.len() {
            return (acc, k);
        }
        if b[k] == SINGLE_QUOTE {
            return (acc, k + 1);
        }
        acc.push(b[k]);
        k = k + 1;
    }
}

fn escaped_run_at(b: &Vec<u8>, j: usize) -> (r: (Vec<u8>, usize, bool))
    requires
        j <= b.len(),
        j < b.len() ==> b@[j as int] != SINGLE_QUOTE && b@[j as int] != DOUBLE_QUOTE,
    ensures
        (r.0@, r.1 as int, r.2) == escaped_run(b@, j as int, Seq::empty()),
        j <= r.1 <= b.len(),
        r.0@.len() > 0 ==> j < r.1,
        r.2 ==> j < r.1,
{
    let mut acc: Vec<u8> = Vec::new();
    let mut k = j;
    loop
        invariant
            j <= k <= b.len(),
            j < b.len() ==> b@[j as int] != SINGLE_QUOTE && b@[j as int] != DOUBLE_QUOTE,
            escaped_run(b@, k as int, acc@) == escaped_run(b@, j as int, Seq::empty()),
            acc@.len() > 0 ==> j < k,
        decreases b.len() - k,
    {
        if k >= b.len() {
            return (acc, k, false);
        }
        let c = b[k];
        if c == BACKSLASH {
            if k + 1 >= b.len() {
                return (acc, k + 1, false);
            }
            acc.push(b[k + 1]);
            k = k + 2;
        } else if blank_byte(c) {
            return (acc, k + 1, false);
        } else if c == SINGLE_QUOTE || c == DOUBLE_QUOTE {
            return (acc, k, true);
        } else {
            acc.push(c);
            k = k + 1;
        }
    }
}

fn extend_with(cur: Option<Vec<u8>>, t: Vec<u8>) -> (r: Vec<u8>)
    ensures
        r@ == extend(bytes_of(cur), t@),
{
    match cur {
        Some(c) => {
            let mut c = c;
            let mut t = t;
            c.append(&mut t);
            c
        },
        None => t,
    }
}

/// The bytes of an optional word.
pub open spec fn bytes_of(cur: Option<Vec<u8>>) -> Option<Seq<u8>> {
    match cur {
        Some(c) => Some(c@),
        None => None,
    }
}

/// Reads the words of a line.
pub struct RawTokenParser {
    input: Vec<u8>,
    pos: usize,
}

impl RawTokenParser {
    /// The bytes still to read (model).
    pub closed spec fn unread(&self) -> Seq<u8> {
        self.input@.subrange(self.pos as int, self.input@.len() as int)
    }

    /// The bytes given to the parser (model).
    pub closed spec fn bytes(&self) -> Seq<u8> {
        self.input@
    }

    /// The index of the next byte to read (model).
    pub closed spec fn position(&self) -> int {
        self.pos as int
    }

    /// A parser at the start of `s`.
    pub fn new(s: &str) -> (r: RawTokenParser)
        ensures
            r.bytes() == s.spec_bytes(),
            r.position() == 0,
    {
        RawTokenParser { input: vstd::slice::slice_to_vec(s.as_bytes()), pos: 0 }
    }

    /// All words from the current position on.
    pub fn parse(self) -> (r: Vec<RawToken>)
        requires
            0 <= self.position() <= self.bytes().len(),
        ensures
            r@.map_values(|t: RawToken| t.0@) == words_from(self.bytes(), self.position(), None),
    {
        let b = self.input;
        let mut p = self.pos;
        let ghost all = words_from(b@, p as int, None);
        let mut tokens: Vec<RawToken> = Vec::new();
        let mut cur: Option<Vec<u8>> = None;
        loop
            invariant
                p <= b.len(),
                all == words_from(self.bytes(), self.position(), None),
                b@ == self.bytes(),
                tokens@.map_values(|t: RawToken| t.0@) + words_from(b@, p as int, bytes_of(cur))
                    == all,
            decreases b.len() - p,
        {
            let ghost toks = tokens@.map_values(|t: RawToken| t.0@);
            if p < b.len() && blank_byte(b[p]) {
                let q = skip_blanks_at(&b, p + 1);
                match cur {
                    Some(c) => {
                        tokens.push(RawToken(c));
                    },
                    None => {},
                }
                cur = None;
                assert(tokens@.map_values(|t: RawToken| t.0@) + runs_from(b@, q as int, None)
                    =~= all);
                p = q;
            }
            let ghost toks2 = tokens@.map_values(|t: RawToken| t.0@);
            assert(toks2 + runs_from(b@, p as int, bytes_of(cur)) == all);
            if p < b.len() && b[p] == DOUBLE_QUOTE {
                let (t, e) = double_run_at(&b, p + 1);
                cur = Some(extend_with(cur, t));
                p = e;
            } else if p < b.len() && b[p] == SINGLE_QUOTE {
                let (t, e) = single_run_at(&b, p + 1);
                cur = Some(extend_with(cur, t));
                p = e;
            } else {
                let (t, e, quoted) = escaped_run_at(&b, p);
                if quoted {
                    cur = Some(extend_with(cur, t));
                    p = e;
                } else if t.len() > 0 {
                    let f = skip_blanks_at(&b, e);
                    let w = extend_with(cur, t);
                    tokens.push(RawToken(w));
                    cur = None;
                    assert(tokens@.map_values(|t: RawToken| t.0@) =~= toks2.push(w@));
                    assert(tokens@.map_values(|t: RawToken| t.0@) + words_from(b@, f as int, None)
                        =~= all);
                    p = f;
                } else {
                    match cur {
                        Some(c) => {
                            tokens.push(RawToken(c));
                        },
                        None => {},
                    }
                    assert(tokens@.map_values(|t: RawToken| t.0@) =~= all);
                    return tokens;
                }
            }
        }
    }
}

} // verus!
