//! Words and redirections read from the bytes of a line.

pub mod raw;

use vstd::prelude::*;
use vstd::string::StringSliceAdditionalSpecFns;
use vstd::utf8::{decode_utf8, valid_utf8};
use raw::{RawToken, RawTokenParser, WHITESPACE, words_from};

verus! {

/// A redirection of standard output or standard error to a file.
#[derive(Debug, PartialEq, Eq)]
pub enum RedirectToken {
    Stdout(String),
    Stderr(String),
}

/// A plain word, as bytes.
#[derive(Debug, PartialEq, Eq)]
pub struct ValueToken(pub Vec<u8>);

/// A word or a redirection.
#[derive(Debug, PartialEq, Eq)]
pub enum Token {
    Redirect(RedirectToken),
    Value(ValueToken),
}

/// Why the words of a line make no tokens.
#[derive(Debug, PartialEq, Eq)]
pub enum TokenError {
    /// A redirection operator ends the line.
    MissingTarget,
    /// A redirection target is not UTF-8.
    NotUtf8,
}

/// A word or a redirection (model).
pub enum TokenView {
    Stdout(Seq<char>),
    Stderr(Seq<char>),
    Value(Seq<u8>),
}

impl View for Token {
    type V = TokenView;

    open spec fn view(&self) -> TokenView {
        match self {
            Token::Redirect(RedirectToken::Stdout(p)) => TokenView::Stdout(p@),
            Token::Redirect(RedirectToken::Stderr(p)) => TokenView::Stderr(p@),
            Token::Value(v) => TokenView::Value(v.0@),
        }
    }
}

/// Relies on `String::from_utf8`: it succeeds exactly on valid UTF-8 and then
/// holds the characters the bytes encode.
#[verifier::external_body]
fn utf8_string(b: Vec<u8>) -> (r: Option<String>)
    ensures
        r is Some <==> valid_utf8(b@),
        r matches Some(s) ==> s@ == decode_utf8(b@),
{
    String::from_utf8(b).ok()
}

/// The text that UTF-8 bytes encode, if they are valid.
pub open spec fn text_of(b: Seq<u8>) -> Option<Seq<char>> {
    if valid_utf8(b) {
        Some(decode_utf8(b))
    } else {
        None
    }
}

/// `t` in front of the tokens of `rest`, or the error of `rest`.
pub open spec fn cons(t: TokenView, rest: Result<Seq<TokenView>, TokenError>) -> Result<
    Seq<TokenView>,
    TokenError,
> {
    match rest {
        Ok(r) => Ok(seq![t] + r),
        Err(e) => Err(e),
    }
}

/// The tokens of words `ws` from index `i` on: `>` and `1>` redirect
/// standard output to the next word, `2>` standard error; every other word is
/// a value. The first failure, from left to right, is the result.
pub open spec fn tokens_of(ws: Seq<Seq<u8>>, i: int) -> Result<Seq<TokenView>, TokenError>
    decreases ws.len() - i,
{
    if i < 0 || i >= ws.len() {
        Ok(Seq::empty())
    } else if ws[i] == seq![62u8] || ws[i] == seq![49u8, 62u8] || ws[i] == seq![50u8, 62u8] {
        if i + 1 >= ws.len() {
            Err(TokenError::MissingTarget)
        } else {
            match text_of(ws[i + 1]) {
                None => Err(TokenError::NotUtf8),
                Some(p) => cons(
                    if ws[i] == seq![50u8, 62u8] {
                        TokenView::Stderr(p)
                    } else {
                        TokenView::Stdout(p)
                    },
                    tokens_of(ws, i + 2),
                ),
            }
        }
    } else {
        cons(TokenView::Value(ws[i]), tokens_of(ws, i + 1))
    }
}

/// Classifies the words of a line into values and redirections.
pub struct TokenParser {
    input: Vec<RawToken>,
    pos: usize,
}

/// The bytes of each word.
pub open spec fn word_bytes(ts: Seq<RawToken>) -> Seq<Seq<u8>> {
    ts.map_values(|t: RawToken| t.0@)
}

fn same_bytes(a: &Vec<u8>, b: &[u8]) -> (r: bool)
    ensures
        r == (a@ == b@),
{
    if a.len() != b.len() {
        return false;
    }
    let mut i: usize = 0;
    while i < a.len()
        invariant
            i <= a.len() == b.len(),
            forall|m: int| 0 <= m < i ==> a@[m] == b@[m],
        decreases a.len() - i,
    {
        if a[i] != b[i] {
            return false;
        }
        i = i + 1;
    }
    assert(a@ =~= b@);
    true
}

/// `Ok(acc + r)` for `Ok(r)`, or the error.
pub open spec fn after(acc: Seq<TokenView>, rest: Result<Seq<TokenView>, TokenError>) -> Result<
    Seq<TokenView>,
    TokenError,
> {
    match rest {
        Ok(r) => Ok(acc + r),
        Err(e) => Err(e),
    }
}

impl TokenParser {
    /// The words still to classify (model).
    pub closed spec fn words(&self) -> Seq<Seq<u8>> {
        if self.pos <= self.input@.len() {
            word_bytes(self.input@).skip(self.pos as int)
        } else {
            Seq::empty()
        }
    }

    /// A parser at the first of `tokens`.
    pub fn new(tokens: Vec<RawToken>) -> (r: TokenParser)
        ensures
            r.words() == word_bytes(tokens@),
    {
        let r = TokenParser { input: tokens, pos: 0 };
        assert(word_bytes(r.input@).skip(0) =~= word_bytes(r.input@));
        r
    }

    /// Takes the next word.
    fn next(&mut self) -> (r: Option<RawToken>)
        ensures
            old(self).words().len() == 0 ==> r is None && final(self).words() == old(self).words(),
            old(self).words().len() > 0 ==> (r matches Some(t) && t.0@ == old(self).words()[0]
                && final(self).words() == old(self).words().drop_first()),
    {
        if self.pos >= self.input.len() {
            return None;
        }
        let c = RawToken(vstd::slice::slice_to_vec(self.input[self.pos].0.as_slice()));
        self.pos = self.pos + 1;
        assert(word_bytes(self.input@).skip(self.pos as int) =~= word_bytes(self.input@).skip(
            self.pos - 1,
        ).drop_first());
        Some(c)
    }

    /// Classifies the remaining words.
    pub fn parse(self) -> (r: Result<Vec<Token>, TokenError>)
        ensures
            match r {
                Ok(ts) => tokens_of(self.words(), 0) == Ok::<Seq<TokenView>, TokenError>(
                    ts@.map_values(|t: Token| t@),
                ),
                Err(e) => tokens_of(self.words(), 0) == Err::<Seq<TokenView>, TokenError>(e),
            },
    {
        let mut me = self;
        let ghost ws = me.words();
        let mut tokens: Vec<Token> = Vec::new();
        let gt: [u8; 1] = [62];
        let one_gt: [u8; 2] = [49, 62];
        let two_gt: [u8; 2] = [50, 62];
        assert(gt@ =~= seq![62u8]);
        assert(one_gt@ =~= seq![49u8, 62u8]);
        assert(two_gt@ =~= seq![50u8, 62u8]);
        loop
            invariant
                ws == self.words(),
                me.words().len() <= ws.len(),
                me.words() == ws.skip(ws.len() - me.words().len()),
                gt@ == seq![62u8],
                one_gt@ == seq![49u8, 62u8],
                two_gt@ == seq![50u8, 62u8],
                tokens_of(ws, 0) == after(
                    tokens@.map_values(|t: Token| t@),
                    tokens_of(ws, ws.len() - me.words().len()),
                ),
            decreases me.words().len(),
        {
            let ghost i = ws.len() - me.words().len();
            let ghost acc = tokens@.map_values(|t: Token| t@);
            let t = match me.next() {
                None => {
                    assert(tokens_of(ws, i) == Ok::<Seq<TokenView>, TokenError>(Seq::empty()));
                    assert(acc + Seq::<TokenView>::empty() =~= acc);
                    return Ok(tokens);
                },
                Some(t) => t,
            };
            assert(ws[i] == t.0@);
            assert(me.words() =~= ws.skip(i + 1));
            let is_two = same_bytes(&t.0, two_gt.as_slice());
            if same_bytes(&t.0, gt.as_slice()) || same_bytes(&t.0, one_gt.as_slice()) || is_two {
                let target = match me.next() {
                    None => {
                        return Err(TokenError::MissingTarget);
                    },
                    Some(target) => target,
                };
                assert(ws[i + 1] == target.0@);
                assert(me.words() =~= ws.skip(i + 2));
                let path = match utf8_string(target.into_inner()) {
                    None => {
                        return Err(TokenError::NotUtf8);
                    },
                    Some(p) => p,
                };
                let r = if is_two {
                    RedirectToken::Stderr(path)
                } else {
                    RedirectToken::Stdout(path)
                };
                let tok = Token::Redirect(r);
                let ghost tv = tok@;
                tokens.push(tok);
                assert(tokens@.map_values(|t: Token| t@) =~= acc.push(tv));
                assert(tokens_of(ws, i) == cons(tv, tokens_of(ws, i + 2)));
                proof {
                    if let Ok(rr) = tokens_of(ws, i + 2) {
                        assert(acc.push(tv) + rr =~= acc + (seq![tv] + rr));
                    }
                }
            } else {
                let tok = Token::Value(ValueToken(t.into_inner()));
                let ghost tv = tok@;
                tokens.push(tok);
                assert(tokens@.map_values(|t: Token| t@) =~= acc.push(tv));
                proof {
                    if let Ok(rr) = tokens_of(ws, i + 1) {
                        assert(acc.push(tv) + rr =~= acc + (seq![tv] + rr));
                    }
                }
            }
        }
    }
}

/// The redirections among `ts`, in order.
pub open spec fn redirects_among(ts: Seq<TokenView>) -> Seq<TokenView>
    decreases ts.len(),
{
    if ts.len() == 0 {
        Seq::empty()
    } else if ts.last() is Value {
        redirects_among(ts.drop_last())
    } else {
        redirects_among(ts.drop_last()).push(ts.last())
    }
}

/// The values among `ts`, in order.
pub open spec fn values_among(ts: Seq<TokenView>) -> Seq<Seq<u8>>
    decreases ts.len(),
{
    if ts.len() == 0 {
        Seq::empty()
    } else if let TokenView::Value(v) = ts.last() {
        values_among(ts.drop_last()).push(v)
    } else {
        values_among(ts.drop_last())
    }
}

impl RedirectToken {
    /// The file redirected to.
    pub fn path(&self) -> (r: &str)
        ensures
            r@ == match self {
                RedirectToken::Stdout(p) => p@,
                RedirectToken::Stderr(p) => p@,
            },
    {
        match self {
            RedirectToken::Stdout(p) => p.as_str(),
            RedirectToken::Stderr(p) => p.as_str(),
        }
    }
}

/// The bytes of values joined by single spaces, a space going only after a
/// non-empty start.
pub open spec fn spaced(values: Seq<Seq<u8>>) -> Seq<u8> {
    values.fold_left(
        Seq::<u8>::empty(),
        |acc: Seq<u8>, v: Seq<u8>|
            if acc.len() > 0 {
                acc.push(WHITESPACE) + v
            } else {
                acc + v
            },
    )
}

impl ValueToken {
    /// The text of `values` joined by spaces, if it is UTF-8.
    pub fn concat(values: Vec<ValueToken>) -> (r: Option<String>)
        ensures
            match r {
                Some(s) => text_of(spaced(values@.map_values(|v: ValueToken| v.0@))) == Some(s@),
                None => text_of(spaced(values@.map_values(|v: ValueToken| v.0@))) is None,
            },
    {
        let ghost vs = values@.map_values(|v: ValueToken| v.0@);
        let mut acc: Vec<u8> = Vec::new();
        let mut i: usize = 0;
        assert(vs.take(0) =~= Seq::<Seq<u8>>::empty());
        while i < values.len()
            invariant
                i <= values.len(),
                vs == values@.map_values(|v: ValueToken| v.0@),
                acc@ == spaced(vs.take(i as int)),
            decreases values.len() - i,
        {
            assert(vs.take(i + 1).drop_last() =~= vs.take(i as int));
            if acc.len() > 0 {
                acc.push(WHITESPACE);
            }
            let mut more = vstd::slice::slice_to_vec(values[i].0.as_slice());
            acc.append(&mut more);
            i = i + 1;
        }
        assert(vs.take(values.len() as int) =~= vs);
        utf8_string(acc)
    }
}

/// Splits a line into its redirections and its values, each in order.
pub fn parse_tokens(s: &str) -> (r: Result<(Vec<RedirectToken>, Vec<ValueToken>), TokenError>)
    ensures
        match tokens_of(words_from(s.spec_bytes(), 0, None), 0) {
            Ok(ts) => r matches Ok(p) && p.0@.map_values(|t: RedirectToken| Token::Redirect(t)@)
                == redirects_among(ts) && p.1@.map_values(|v: ValueToken| v.0@) == values_among(
                ts,
            ),
            Err(e) => r == Err::<(Vec<RedirectToken>, Vec<ValueToken>), TokenError>(e),
        },
{
    let raw_token_parser = RawTokenParser::new(s);
    let raw_tokens = raw_token_parser.parse();
    let parser = TokenParser::new(raw_tokens);
    let tokens = match parser.parse() {
        Ok(t) => t,
        Err(e) => {
            return Err(e);
        },
    };
    let ghost ts = tokens@.map_values(|t: Token| t@);
    let mut redirects: Vec<RedirectToken> = Vec::new();
    let mut values: Vec<ValueToken> = Vec::new();
    let mut rest = tokens;
    let mut i: usize = 0;
    let n = rest.len();
    assert(ts.take(0) =~= Seq::<TokenView>::empty());
    while i < n
        invariant
            i <= n == ts.len(),
            rest.len() == n - i,
            rest@.map_values(|t: Token| t@) == ts.skip(i as int),
            redirects@.map_values(|t: RedirectToken| Token::Redirect(t)@) == redirects_among(
                ts.take(i as int),
            ),
            values@.map_values(|v: ValueToken| v.0@) == values_among(ts.take(i as int)),
        decreases n - i,
    {
        assert(ts.take(i + 1).drop_last() =~= ts.take(i as int));
        assert(rest@.map_values(|t: Token| t@)[0] == ts[i as int]);
        let ghost before_rest = rest@;
        let ghost rs = redirects@.map_values(|t: RedirectToken| Token::Redirect(t)@);
        let ghost vls = values@.map_values(|v: ValueToken| v.0@);
        let t = rest.remove(0);
        assert forall|k: int| 0 <= k < rest@.len() implies rest@[k]@ == ts.skip(i + 1)[k] by {
            assert(rest@[k] == before_rest[k + 1]);
            assert(before_rest.map_values(|t: Token| t@)[k + 1] == ts.skip(i as int)[k + 1]);
        }
        assert(rest@.map_values(|t: Token| t@) =~= ts.skip(i + 1));
        match t {
            Token::Redirect(r) => {
                redirects.push(r);
                assert(redirects@.map_values(|t: RedirectToken| Token::Redirect(t)@) =~= rs.push(
                    ts[i as int],
                ));
            },
            Token::Value(v) => {
                values.push(v);
                assert(values@.map_values(|v: ValueToken| v.0@) =~= vls.push(
                    ts[i as int]->Value_0,
                ));
            },
        }
        i = i + 1;
    }
    assert(ts.take(n as int) =~= ts);
    Ok((redirects, values))
}

} // verus!
