//! Words classified into values and redirections of standard output and
//! standard error, truncating or appending.

use vstd::prelude::*;
use crate::command::same_chars;
use crate::complete::strings;
use crate::text::chars_of;

verus! {

/// A plain word.
#[derive(Debug, PartialEq, Eq)]
pub struct ValueToken(pub String);

/// A redirection to a file.
#[derive(Debug, PartialEq, Eq)]
pub enum RedirectToken {
    Stdout(String),
    Stderr(String),
    StdoutAppend(String),
    StderrAppend(String),
}

/// A word or a redirection.
#[derive(Debug, PartialEq, Eq)]
pub enum Token {
    Redirect(RedirectToken),
    Value(ValueToken),
}

/// A redirection operator ends the words.
#[derive(Debug, PartialEq, Eq)]
pub struct MissingTarget;

/// Which stream a redirection takes, and whether it appends (model).
pub enum Target {
    Stdout,
    Stderr,
    StdoutAppend,
    StderrAppend,
}

/// A word or a redirection (model).
pub enum WordToken {
    Redirect(Target, Seq<char>),
    Value(Seq<char>),
}

impl View for RedirectToken {
    type V = (Target, Seq<char>);

    open spec fn view(&self) -> (Target, Seq<char>) {
        match self {
            RedirectToken::Stdout(p) => (Target::Stdout, p@),
            RedirectToken::Stderr(p) => (Target::Stderr, p@),
            RedirectToken::StdoutAppend(p) => (Target::StdoutAppend, p@),
            RedirectToken::StderrAppend(p) => (Target::StderrAppend, p@),
        }
    }
}

impl View for Token {
    type V = WordToken;

    open spec fn view(&self) -> WordToken {
        match self {
            Token::Redirect(r) => WordToken::Redirect(r@.0, r@.1),
            Token::Value(v) => WordToken::Value(v.0@),
        }
    }
}

/// The redirection that an operator word stands for: `>` and `1>` for
/// standard output, `>>` and `1>>` appending to it, `2>` and `2>>` for
/// standard error.
pub open spec fn operator(w: Seq<char>) -> Option<Target> {
    if w == seq!['>'] || w == seq!['1', '>'] {
        Some(Target::Stdout)
    } else if w == seq!['>', '>'] || w == seq!['1', '>', '>'] {
        Some(Target::StdoutAppend)
    } else if w == seq!['2', '>'] {
        Some(Target::Stderr)
    } else if w == seq!['2', '>', '>'] {
        Some(Target::StderrAppend)
    } else {
        None
    }
}

/// The tokens of words `ws` from index `i` on: an operator takes the next
/// word as its target; every other word is a value.
pub open spec fn classified(ws: Seq<Seq<char>>, i: int) -> Option<Seq<WordToken>>
    decreases ws.len() - i,
{
    if i < 0 || i >= ws.len() {
        Some(Seq::empty())
    } else {
        match operator(ws[i]) {
            Some(t) => if i + 1 >= ws.len() {
                None
            } else {
                match classified(ws, i + 2) {
                    Some(r) => Some(seq![WordToken::Redirect(t, ws[i + 1])] + r),
                    None => None,
                }
            },
            None => match classified(ws, i + 1) {
                Some(r) => Some(seq![WordToken::Value(ws[i])] + r),
                None => None,
            },
        }
    }
}

fn operator_of(w: &String) -> (r: Option<u8>)
    ensures
        match r {
            Some(0) => operator(w@) == Some(Target::Stdout),
            Some(1) => operator(w@) == Some(Target::StdoutAppend),
            Some(2) => operator(w@) == Some(Target::Stderr),
            Some(3) => operator(w@) == Some(Target::StderrAppend),
            Some(_) => false,
            None => operator(w@) is None,
        },
{
    let c = chars_of(w.as_str());
    let a = ['>'];
    let b = ['1', '>'];
    let aa = ['>', '>'];
    let ba = ['1', '>', '>'];
    let e = ['2', '>'];
    let ea = ['2', '>', '>'];
    assert(a@ =~= seq!['>']);
    assert(b@ =~= seq!['1', '>']);
    assert(aa@ =~= seq!['>', '>']);
    assert(ba@ =~= seq!['1', '>', '>']);
    assert(e@ =~= seq!['2', '>']);
    assert(ea@ =~= seq!['2', '>', '>']);
    if same_chars(c.as_slice(), a.as_slice()) || same_chars(c.as_slice(), b.as_slice()) {
        Some(0)
    } else if same_chars(c.as_slice(), aa.as_slice()) || same_chars(c.as_slice(), ba.as_slice()) {
        Some(1)
    } else if same_chars(c.as_slice(), e.as_slice()) {
        Some(2)
    } else if same_chars(c.as_slice(), ea.as_slice()) {
        Some(3)
    } else {
        None
    }
}

/// Classifies words into values and redirections.
pub struct TokenParser {
    input: Vec<String>,
    pos: usize,
}

/// `Some(acc + r)` for `Some(r)`, or nothing.
pub open spec fn after(acc: Seq<WordToken>, rest: Option<Seq<WordToken>>) -> Option<Seq<WordToken>> {
    match rest {
        Some(r) => Some(acc + r),
        None => None,
    }
}

impl TokenParser {
    /// The words still to classify (model).
    pub closed spec fn words(&self) -> Seq<Seq<char>> {
        if self.pos <= self.input@.len() {
            strings(self.input@).skip(self.pos as int)
        } else {
            Seq::empty()
        }
    }

    /// A parser at the first of `tokens`.
    pub fn new(tokens: Vec<String>) -> (r: TokenParser)
        ensures
            r.words() == strings(tokens@),
    {
        let r = TokenParser { input: tokens, pos: 0 };
        assert(strings(r.input@).skip(0) =~= strings(r.input@));
        r
    }

    /// Takes the next word.
    fn next(&mut self) -> (r: Option<String>)
        ensures
            old(self).words().len() == 0 ==> r is None && final(self).words() == old(self).words(),
            old(self).words().len() > 0 ==> (r matches Some(t) && t@ == old(self).words()[0]
                && final(self).words() == old(self).words().drop_first()),
    {
        if self.pos >= self.input.len() {
            return None;
        }
        let c = self.input[self.pos].clone();
        self.pos = self.pos + 1;
        assert(strings(self.input@).skip(self.pos as int) =~= strings(self.input@).skip(
            self.pos - 1,
        ).drop_first());
        Some(c)
    }

    /// Classifies the remaining words; fails when an operator has no target.
    pub fn parse(self) -> (r: Result<Vec<Token>, MissingTarget>)
        ensures
            match r {
                Ok(ts) => classified(self.words(), 0) == Some(ts@.map_values(|t: Token| t@)),
                Err(_) => classified(self.words(), 0) is None,
            },
    {
        let mut me = self;
        let ghost ws = me.words();
        let mut tokens: Vec<Token> = Vec::new();
        loop
            invariant
                ws == self.words(),
                me.words().len() <= ws.len(),
                me.words() == ws.skip(ws.len() - me.words().len()),
                classified(ws, 0) == after(
                    tokens@.map_values(|t: Token| t@),
                    classified(ws, ws.len() - me.words().len()),
                ),
            decreases me.words().len(),
        {
            let ghost i = ws.len() - me.words().len();
            let ghost acc = tokens@.map_values(|t: Token| t@);
            let t = match me.next() {
                None => {
                    assert(acc + Seq::<WordToken>::empty() =~= acc);
                    return Ok(tokens);
                },
                Some(t) => t,
            };
            assert(ws[i] == t@);
            assert(me.words() =~= ws.skip(i + 1));
            let tok = match operator_of(&t) {
                Some(kind) => {
                    let target = match me.next() {
                        None => {
                            return Err(MissingTarget);
                        },
                        Some(target) => target,
                    };
                    assert(ws[i + 1] == target@);
                    assert(me.words() =~= ws.skip(i + 2));
                    Token::Redirect(
                        if kind == 0 {
                            RedirectToken::Stdout(target)
                        } else if kind == 1 {
                            RedirectToken::StdoutAppend(target)
                        } else if kind == 2 {
                            RedirectToken::Stderr(target)
                        } else {
                            RedirectToken::StderrAppend(target)
                        },
                    )
                },
                None => Token::Value(ValueToken(t)),
            };
            let ghost tv = tok@;
            tokens.push(tok);
            assert(tokens@.map_values(|t: Token| t@) =~= acc.push(tv));
            proof {
                let next = if operator(ws[i]) is Some {
                    i + 2
                } else {
                    i + 1
                };
                if let Some(rr) = classified(ws, next) {
                    assert(acc.push(tv) + rr =~= acc + (seq![tv] + rr));
                }
            }
        }
    }
}

/// The redirections among `ts`, in order.
pub open spec fn redirects_in(ts: Seq<WordToken>) -> Seq<(Target, Seq<char>)>
    decreases ts.len(),
{
    if ts.len() == 0 {
        Seq::empty()
    } else if let WordToken::Redirect(t, p) = ts.last() {
        redirects_in(ts.drop_last()).push((t, p))
    } else {
        redirects_in(ts.drop_last())
    }
}

/// The values among `ts`, in order.
pub open spec fn values_in(ts: Seq<WordToken>) -> Seq<Seq<char>>
    decreases ts.len(),
{
    if ts.len() == 0 {
        Seq::empty()
    } else if let WordToken::Value(v) = ts.last() {
        values_in(ts.drop_last()).push(v)
    } else {
        values_in(ts.drop_last())
    }
}

/// Splits words into their redirections and their values, each in order.
pub fn parse_tokens(tokens: Vec<String>) -> (r: Result<
    (Vec<RedirectToken>, Vec<ValueToken>),
    MissingTarget,
>)
    ensures
        match classified(strings(tokens@), 0) {
            Some(ts) => r matches Ok(p) && p.0@.map_values(|t: RedirectToken| t@) == redirects_in(
                ts,
            ) && p.1@.map_values(|v: ValueToken| v.0@) == values_in(ts),
            None => r is Err,
        },
{
    let parser = TokenParser::new(tokens);
    let tokens = match parser.parse() {
        Ok(t) => t,
        Err(e) => {
            return Err(e);
        },
    };
    let ghost ts = tokens@.map_values(|t: Token| t@);
    let mut redirects: Vec<RedirectToken> = Vec::new();
    let mut values: Vec<ValueToken> = Vec::new();
    let mut rest = tokens;
    let mut i: usize = 0;
    let n = rest.len();
    assert(ts.take(0) =~= Seq::<WordToken>::empty());
    while i < n
        invariant
            i <= n == ts.len(),
            rest.len() == n - i,
            rest@.map_values(|t: Token| t@) == ts.skip(i as int),
            redirects@.map_values(|t: RedirectToken| t@) == redirects_in(ts.take(i as int)),
            values@.map_values(|v: ValueToken| v.0@) == values_in(ts.take(i as int)),
        decreases n - i,
    {
        assert(ts.take(i + 1).drop_last() =~= ts.take(i as int));
        assert(rest@.map_values(|t: Token| t@)[0] == ts[i as int]);
        let ghost before_rest = rest@;
        let ghost rs = redirects@.map_values(|t: RedirectToken| t@);
        let ghost vls = values@.map_values(|v: ValueToken| v.0@);
        let t = rest.remove(0);
        assert forall|k: int| 0 <= k < rest@.len() implies rest@[k]@ == ts.skip(i + 1)[k] by {
            assert(rest@[k] == before_rest[k + 1]);
            assert(before_rest.map_values(|t: Token| t@)[k + 1] == ts.skip(i as int)[k + 1]);
        }
        assert(rest@.map_values(|t: Token| t@) =~= ts.skip(i + 1));
        match t {
            Token::Redirect(r) => {
                let ghost rv = r@;
                redirects.push(r);
                assert(redirects@.map_values(|t: RedirectToken| t@) =~= rs.push(rv));
            },
            Token::Value(v) => {
                let ghost vv = v.0@;
                values.push(v);
                assert(values@.map_values(|v: ValueToken| v.0@) =~= vls.push(vv));
            },
        }
        i = i + 1;
    }
    assert(ts.take(n as int) =~= ts);
    Ok((redirects, values))
}

impl RedirectToken {
    /// The file redirected to.
    pub fn path(&self) -> (r: &str)
        ensures
            r@ == self@.1,
    {
        match self {
            RedirectToken::Stdout(p) => p.as_str(),
            RedirectToken::Stderr(p) => p.as_str(),
            RedirectToken::StdoutAppend(p) => p.as_str(),
            RedirectToken::StderrAppend(p) => p.as_str(),
        }
    }
}

} // verus!
