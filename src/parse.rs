//! The command-line tokenizer: pipes, redirections and words, read
//! incrementally from a buffer that grows as input arrives.

use vstd::prelude::*;
use crate::lexer::{
    lemma_skip_separators_bounds, lemma_skip_separators_extend, lemma_skip_separators_shift,
    lemma_word_extend, lemma_word_shift,
    settled, shifted, Scan, Step, scan_word, skip_separators, skip_separators_at, word,
};
use crate::text::{blank, chars_of, decimal_value, digit, is_blank, is_digit, string_of, sub_chars};

verus! {

/// A plain word of a command: the command name or one of its arguments.
#[derive(Debug, PartialEq, Eq)]
pub struct CommandToken(pub String);

/// A redirection: `[n]< word`, `[n]>> word` or `[n]>[|] word`.
#[derive(Debug, PartialEq, Eq)]
pub enum RedirectToken {
    Input { n: i32, word: String },
    Output { n: i32, word: String },
    AppendOutput { n: i32, word: String },
}

/// One token of a command line.
#[derive(Debug, PartialEq, Eq)]
pub enum Token {
    Pipe,
    Redirect(RedirectToken),
    Command(CommandToken),
}

/// A redirection (model): the descriptor and the target word.
pub enum RedirectModel {
    Input(int, Seq<char>),
    Output(int, Seq<char>),
    Append(int, Seq<char>),
}

/// A token (model).
pub enum TokenModel {
    Pipe,
    Redirect(RedirectModel),
    Word(Seq<char>),
}

impl View for RedirectToken {
    type V = RedirectModel;

    open spec fn view(&self) -> RedirectModel {
        match self {
            RedirectToken::Input { n, word } => RedirectModel::Input(*n as int, word@),
            RedirectToken::Output { n, word } => RedirectModel::Output(*n as int, word@),
            RedirectToken::AppendOutput { n, word } => RedirectModel::Append(*n as int, word@),
        }
    }
}

impl View for Token {
    type V = TokenModel;

    open spec fn view(&self) -> TokenModel {
        match self {
            Token::Pipe => TokenModel::Pipe,
            Token::Redirect(r) => TokenModel::Redirect(r@),
            Token::Command(c) => TokenModel::Word(c.0@),
        }
    }
}

/// The largest descriptor number that a redirection can name.
pub const MAX_DESCRIPTOR: i32 = 2147483647;

/// The first index at or after `j` that holds no decimal digit.
pub open spec fn digits_end(s: Seq<char>, j: int) -> int
    decreases s.len() - j,
{
    if j < 0 || j >= s.len() {
        j
    } else if is_digit(s[j]) {
        digits_end(s, j + 1)
    } else {
        j
    }
}

/// The redirection that a scanned target word completes.
pub open spec fn redirect_with(
    target: Scan<Seq<char>>,
    make: spec_fn(Seq<char>) -> RedirectModel,
) -> Scan<TokenModel> {
    match target {
        Scan::Done(w, e) => Scan::Done(TokenModel::Redirect(make(w)), e),
        Scan::More => Scan::More,
        Scan::Reject => Scan::Reject,
    }
}

/// The `>` or `>|` form whose operator stands at `d`, with descriptor `n`.
pub open spec fn scan_output(s: Seq<char>, d: int, n: int) -> Scan<TokenModel> {
    let p = if s[d + 1] == '|' {
        d + 2
    } else {
        d + 1
    };
    redirect_with(scan_word(s, p), |w: Seq<char>| RedirectModel::Output(n, w))
}

/// A redirection at index `i`: separators, optional descriptor digits, then
/// `<`, `>>` or `>` (the last optionally followed by `|`), then the target
/// word. Without digits the descriptor is 0 for `<` and 1 otherwise; digits
/// whose value exceeds `MAX_DESCRIPTOR` make no redirection.
pub open spec fn scan_redirect(s: Seq<char>, i: int) -> Scan<TokenModel> {
    match skip_separators(s, i) {
        None => Scan::More,
        Some(j) => {
            let d = digits_end(s, j);
            let value = decimal_value(s.subrange(j, d));
            if d >= s.len() {
                Scan::More
            } else if d > j && value > MAX_DESCRIPTOR {
                Scan::Reject
            } else if s[d] == '<' {
                let n = if d > j { value as int } else { 0 };
                redirect_with(scan_word(s, d + 1), |w: Seq<char>| RedirectModel::Input(n, w))
            } else if s[d] == '>' {
                let n = if d > j { value as int } else { 1 };
                if d + 1 >= s.len() {
                    Scan::More
                } else if s[d + 1] == '>' {
                    match scan_word(s, d + 2) {
                        Scan::Done(w, e) => Scan::Done(
                            TokenModel::Redirect(RedirectModel::Append(n, w)),
                            e,
                        ),
                        Scan::More => Scan::More,
                        Scan::Reject => scan_output(s, d, n),
                    }
                } else {
                    scan_output(s, d, n)
                }
            } else {
                Scan::Reject
            }
        },
    }
}

/// A pipe at index `i`: separators, then `|`.
pub open spec fn scan_pipe(s: Seq<char>, i: int) -> Scan<TokenModel> {
    match skip_separators(s, i) {
        None => Scan::More,
        Some(j) => if s[j] == '|' {
            Scan::Done(TokenModel::Pipe, (j + 1) as nat)
        } else {
            Scan::Reject
        },
    }
}

/// A token at index `i`: a pipe, else a redirection, else a word.
pub open spec fn scan_token(s: Seq<char>, i: int) -> Scan<TokenModel> {
    match scan_pipe(s, i) {
        Scan::Reject => match scan_redirect(s, i) {
            Scan::Reject => match scan_word(s, i) {
                Scan::Done(w, k) => Scan::Done(TokenModel::Word(w), k),
                Scan::More => Scan::More,
                Scan::Reject => Scan::Reject,
            },
            other => other,
        },
        other => other,
    }
}

/// `v` capped just above `MAX_DESCRIPTOR`.
pub open spec fn capped(v: nat) -> nat {
    if v <= MAX_DESCRIPTOR {
        v
    } else {
        MAX_DESCRIPTOR as nat + 1
    }
}

/// Reads the descriptor digits that start at `j`: where they end, and their
/// value capped just above `MAX_DESCRIPTOR`.
fn descriptor_digits(s: &Vec<char>, j: usize) -> (r: (usize, u64))
    requires
        j <= s.len(),
    ensures
        r.0 as int == digits_end(s@, j as int),
        j <= r.0 <= s.len(),
        r.1 as nat == capped(decimal_value(s@.subrange(j as int, r.0 as int))),
{
    let mut d = j;
    let mut value: u64 = 0;
    assert(s@.subrange(j as int, j as int) =~= Seq::<char>::empty());
    while d < s.len() && digit(s[d])
        invariant
            j <= d <= s.len(),
            digits_end(s@, j as int) == digits_end(s@, d as int),
            value as nat == capped(decimal_value(s@.subrange(j as int, d as int))),
        decreases s.len() - d,
    {
        let dv = ((s[d] as u32) - 48) as u64;
        let ghost before = decimal_value(s@.subrange(j as int, d as int));
        assert(s@.subrange(j as int, d + 1).drop_last() =~= s@.subrange(j as int, d as int));
        assert(decimal_value(s@.subrange(j as int, d + 1)) == before * 10 + dv);
        if value <= MAX_DESCRIPTOR as u64 {
            value = value * 10 + dv;
            if value > MAX_DESCRIPTOR as u64 {
                value = MAX_DESCRIPTOR as u64 + 1;
            }
        }
        d = d + 1;
    }
    (d, value)
}

/// Completes a redirection once its target word is scanned.
fn input_with(target: Step<Vec<char>>, n: i32) -> (r: Step<Token>)
    ensures
        r@ == redirect_with(target@, |w: Seq<char>| RedirectModel::Input(n as int, w)),
        r matches Step::Done(t, e) ==> target matches Step::Done(w, e2) && e == e2,
{
    match target {
        Step::Done(w, e) => Step::Done(
            Token::Redirect(RedirectToken::Input { n, word: string_of(w.as_slice()) }),
            e,
        ),
        Step::More => Step::More,
        Step::Reject => Step::Reject,
    }
}

/// The `>` or `>|` form whose operator stands at `d`.
fn output_at(s: &Vec<char>, d: usize, n: i32) -> (r: Step<Token>)
    requires
        d + 1 < s.len(),
    ensures
        r@ == scan_output(s@, d as int, n as int),
        r matches Step::Done(t, e) ==> d < e <= s.len(),
{
    let p = if s[d + 1] == '|' {
        d + 2
    } else {
        d + 1
    };
    match word(s, p) {
        Step::Done(w, e) => Step::Done(
            Token::Redirect(RedirectToken::Output { n, word: string_of(w.as_slice()) }),
            e,
        ),
        Step::More => Step::More,
        Step::Reject => Step::Reject,
    }
}

/// Scans a redirection at `i`.
pub fn redirect(s: &Vec<char>, i: usize) -> (r: Step<Token>)
    requires
        i <= s.len(),
    ensures
        r@ == scan_redirect(s@, i as int),
        r matches Step::Done(t, k) ==> i < k <= s.len(),
{
    let j = match skip_separators_at(s, i) {
        None => {
            return Step::More;
        },
        Some(j) => j,
    };
    let (d, value) = descriptor_digits(s, j);
    if d >= s.len() {
        return Step::More;
    }
    if d > j && value > MAX_DESCRIPTOR as u64 {
        return Step::Reject;
    }
    let c = s[d];
    if c == '<' {
        let n: i32 = if d > j {
            value as i32
        } else {
            0
        };
        input_with(word(s, d + 1), n)
    } else if c == '>' {
        let n: i32 = if d > j {
            value as i32
        } else {
            1
        };
        if d + 1 >= s.len() {
            return Step::More;
        }
        if s[d + 1] == '>' {
            match word(s, d + 2) {
                Step::Done(w, e) => Step::Done(
                    Token::Redirect(
                        RedirectToken::AppendOutput { n, word: string_of(w.as_slice()) },
                    ),
                    e,
                ),
                Step::More => Step::More,
                Step::Reject => output_at(s, d, n),
            }
        } else {
            output_at(s, d, n)
        }
    } else {
        Step::Reject
    }
}

/// Scans a pipe at `i`.
pub fn pipe(s: &Vec<char>, i: usize) -> (r: Step<Token>)
    requires
        i <= s.len(),
    ensures
        r@ == scan_pipe(s@, i as int),
        r matches Step::Done(t, k) ==> i < k <= s.len(),
{
    match skip_separators_at(s, i) {
        None => Step::More,
        Some(j) => if s[j] == '|' {
            Step::Done(Token::Pipe, j + 1)
        } else {
            Step::Reject
        },
    }
}

/// Scans one token at `i`: a pipe, else a redirection, else a word.
pub fn token(s: &Vec<char>, i: usize) -> (r: Step<Token>)
    requires
        i <= s.len(),
    ensures
        r@ == scan_token(s@, i as int),
        r matches Step::Done(t, k) ==> i < k <= s.len(),
{
    match pipe(s, i) {
        Step::Reject => {},
        other => {
            return other;
        },
    }
    match redirect(s, i) {
        Step::Reject => {},
        other => {
            return other;
        },
    }
    match word(s, i) {
        Step::Done(w, k) => Step::Done(Token::Command(CommandToken(string_of(w.as_slice()))), k),
        Step::More => Step::More,
        Step::Reject => Step::Reject,
    }
}

/// The tokens read one after another from index `i`, each with the text it
/// was read from, and the index where reading stopped.
pub open spec fn tokens_from(s: Seq<char>, i: int) -> (Seq<(Seq<char>, TokenModel)>, int)
    decreases s.len() - i,
{
    match scan_token(s, i) {
        Scan::Done(t, k) => if i < k <= s.len() {
            let rest = tokens_from(s, k as int);
            (seq![(s.subrange(i, k as int), t)] + rest.0, rest.1)
        } else {
            (Seq::empty(), i)
        },
        _ => (Seq::empty(), i),
    }
}

/// The tokens that a whole buffer yields, each with its source text.
pub open spec fn committed(s: Seq<char>) -> Seq<(Seq<char>, TokenModel)> {
    tokens_from(s, 0).0
}

/// What is left of a buffer once its tokens are read.
pub open spec fn leftover(s: Seq<char>) -> Seq<char> {
    s.subrange(tokens_from(s, 0).1, s.len() as int)
}

proof fn lemma_tokens_from_cover(s: Seq<char>, i: int)
    requires
        0 <= i <= s.len(),
    ensures
        source(tokens_from(s, i).0) + s.subrange(tokens_from(s, i).1, s.len() as int)
            == s.subrange(i, s.len() as int),
    decreases s.len() - i,
{
    lemma_tokens_from_stop(s, i);
    if let Scan::Done(t, k) = scan_token(s, i) {
        if i < k <= s.len() {
            lemma_tokens_from_cover(s, k as int);
            let rest = tokens_from(s, k as int);
            let all = tokens_from(s, i).0;
            let spans = all.map_values(|p: (Seq<char>, TokenModel)| p.0);
            assert(spans.drop_first() =~= rest.0.map_values(|p: (Seq<char>, TokenModel)| p.0));
            assert(spans.first() == s.subrange(i, k as int));
            assert(source(all) == s.subrange(i, k as int) + source(rest.0));
            assert(s.subrange(i, k as int) + s.subrange(k as int, s.len() as int) =~= s.subrange(
                i,
                s.len() as int,
            ));
            assert(s.subrange(i, k as int) + source(rest.0) + s.subrange(rest.1, s.len() as int)
                =~= s.subrange(i, k as int) + (source(rest.0) + s.subrange(rest.1, s.len() as int)));
            return;
        }
    }
    assert(source(tokens_from(s, i).0) =~= Seq::<char>::empty());
}

/// The source texts of the tokens read from a buffer, followed by what is
/// left of it, give back the buffer: reading loses and adds nothing.
pub proof fn lemma_spans_cover(s: Seq<char>)
    ensures
        source(committed(s)) + leftover(s) == s,
{
    lemma_tokens_from_cover(s, 0);
    assert(s.subrange(0, s.len() as int) =~= s);
}

proof fn lemma_source_concat(a: Seq<(Seq<char>, TokenModel)>, b: Seq<(Seq<char>, TokenModel)>)
    ensures
        source(a + b) == source(a) + source(b),
{
    let f = |p: (Seq<char>, TokenModel)| p.0;
    assert((a + b).map_values(f) =~= a.map_values(f) + b.map_values(f));
    vstd::seq_lib::lemma_flatten_concat(a.map_values(f), b.map_values(f));
}

/// What is left of a buffer is one of its suffixes.
pub proof fn lemma_leftover_suffix(s: Seq<char>)
    ensures
        leftover(s).len() <= s.len(),
{
    lemma_tokens_from_stop(s, 0);
}

proof fn lemma_tokens_from_stop(s: Seq<char>, i: int)
    requires
        0 <= i <= s.len(),
    ensures
        i <= tokens_from(s, i).1 <= s.len(),
    decreases s.len() - i,
{
    if let Scan::Done(t, k) = scan_token(s, i) {
        if i < k <= s.len() {
            lemma_tokens_from_stop(s, k as int);
        }
    }
}

/// One stage of a pipeline as written: its words and its redirections, each
/// in the order of the line.
#[derive(Debug, PartialEq, Eq)]
pub struct Stage {
    pub words: Vec<String>,
    pub redirects: Vec<RedirectToken>,
}

/// A stage (model).
pub struct StageModel {
    pub words: Seq<Seq<char>>,
    pub redirects: Seq<RedirectModel>,
}

impl View for Stage {
    type V = StageModel;

    open spec fn view(&self) -> StageModel {
        StageModel {
            words: self.words@.map_values(|w: String| w@),
            redirects: self.redirects@.map_values(|r: RedirectToken| r@),
        }
    }
}

/// Why a finished line makes no pipeline; each holds the whole line.
#[derive(Debug, PartialEq, Eq)]
pub enum ParseError {
    /// Input is left that forms no token (an unterminated quote, a redirection
    /// without target).
    Unfinished(String),
    /// A stage between pipes holds no word.
    EmptyStage(String),
}

/// Why a finished line makes no pipeline (model).
pub enum ParseErrorModel {
    Unfinished(Seq<char>),
    EmptyStage(Seq<char>),
}

impl View for ParseError {
    type V = ParseErrorModel;

    open spec fn view(&self) -> ParseErrorModel {
        match self {
            ParseError::Unfinished(l) => ParseErrorModel::Unfinished(l@),
            ParseError::EmptyStage(l) => ParseErrorModel::EmptyStage(l@),
        }
    }
}

/// A stage with neither words nor redirections.
pub open spec fn empty_stage() -> StageModel {
    StageModel { words: Seq::empty(), redirects: Seq::empty() }
}

/// The stages after one more token: a pipe opens a new stage, a word or a
/// redirection joins the last one.
pub open spec fn add_token(stages: Seq<StageModel>, t: TokenModel) -> Seq<StageModel> {
    let last = stages.last();
    match t {
        TokenModel::Pipe => stages.push(empty_stage()),
        TokenModel::Word(w) => stages.update(
            stages.len() - 1,
            StageModel { words: last.words.push(w), redirects: last.redirects },
        ),
        TokenModel::Redirect(r) => stages.update(
            stages.len() - 1,
            StageModel { words: last.words, redirects: last.redirects.push(r) },
        ),
    }
}

/// The stages of a token sequence, split on pipes.
pub open spec fn stages_of(ts: Seq<TokenModel>) -> Seq<StageModel> {
    ts.fold_left(seq![empty_stage()], |st: Seq<StageModel>, t: TokenModel| add_token(st, t))
}

/// The tokens of a committed sequence, without their source text.
pub open spec fn kinds(ts: Seq<(Seq<char>, TokenModel)>) -> Seq<TokenModel> {
    ts.map_values(|p: (Seq<char>, TokenModel)| p.1)
}

/// The source text of a committed sequence.
pub open spec fn source(ts: Seq<(Seq<char>, TokenModel)>) -> Seq<char> {
    ts.map_values(|p: (Seq<char>, TokenModel)| p.0).flatten()
}

/// What finishing a line yields once all its input is in: the tokens read so
/// far are `ts`, and `rest` is read after a closing newline.
pub open spec fn finished(ts: Seq<(Seq<char>, TokenModel)>, rest: Seq<char>) -> Result<
    Seq<StageModel>,
    ParseErrorModel,
> {
    let buf = rest.push('\n');
    let all = ts + committed(buf);
    let line = source(all) + leftover(buf);
    let stages = stages_of(kinds(all));
    if !is_blank(leftover(buf)) {
        Err(ParseErrorModel::Unfinished(line))
    } else if exists|i: int| 0 <= i < stages.len() && (#[trigger] stages[i]).words.len() == 0 {
        Err(ParseErrorModel::EmptyStage(line))
    } else {
        Ok(stages)
    }
}

/// A stage with neither words nor redirections.
fn new_stage() -> (g: Stage)
    ensures
        g@ == empty_stage(),
{
    let g = Stage { words: Vec::new(), redirects: Vec::new() };
    assert(g@.words =~= Seq::<Seq<char>>::empty());
    assert(g@.redirects =~= Seq::<RedirectModel>::empty());
    g
}

/// A copy of a redirection.
fn copy_redirect(r: &RedirectToken) -> (c: RedirectToken)
    ensures
        c@ == r@,
{
    match r {
        RedirectToken::Input { n, word } => RedirectToken::Input { n: *n, word: word.clone() },
        RedirectToken::Output { n, word } => RedirectToken::Output { n: *n, word: word.clone() },
        RedirectToken::AppendOutput { n, word } => RedirectToken::AppendOutput {
            n: *n,
            word: word.clone(),
        },
    }
}

/// A tokenizer fed one piece of input at a time. It keeps the tokens read so
/// far, each with its exact source text, and the input not yet read, which
/// waits for more.
#[derive(Debug)]
pub struct StreamCommandParser {
    remaining: Vec<char>,
    parsed: Vec<(String, Token)>,
}

impl StreamCommandParser {
    /// The tokens read so far, each with its source text (model).
    pub closed spec fn tokens(&self) -> Seq<(Seq<char>, TokenModel)> {
        self.parsed@.map_values(|p: (String, Token)| (p.0@, p.1@))
    }

    /// The input not yet read (model).
    pub closed spec fn rest(&self) -> Seq<char> {
        self.remaining@
    }

    /// Reads every token that the buffer now holds.
    fn parse(&mut self)
        ensures
            final(self).tokens() == old(self).tokens() + committed(old(self).rest()),
            final(self).rest() == leftover(old(self).rest()),
    {
        let ghost buf = self.remaining@;
        let mut pos: usize = 0;
        let mut go = true;
        while go
            invariant
                self.remaining@ == buf,
                pos <= buf.len(),
                self.tokens() + tokens_from(buf, pos as int).0 == old(self).tokens() + committed(
                    buf,
                ),
                tokens_from(buf, pos as int).1 == tokens_from(buf, 0).1,
                !go ==> tokens_from(buf, pos as int).0.len() == 0 && tokens_from(
                    buf,
                    pos as int,
                ).1 == pos,
            decreases buf.len() - pos + if go {
                1int
            } else {
                0int
            },
        {
            match token(&self.remaining, pos) {
                Step::Done(t, k) => {
                    let span = string_of(sub_chars(&self.remaining, pos, k).as_slice());
                    let ghost before = self.tokens();
                    let ghost entry = (span@, t@);
                    self.parsed.push((span, t));
                    assert(self.tokens() =~= before.push(entry));
                    assert(tokens_from(buf, pos as int).0 =~= seq![entry] + tokens_from(
                        buf,
                        k as int,
                    ).0);
                    assert(self.tokens() + tokens_from(buf, k as int).0 =~= before + tokens_from(
                        buf,
                        pos as int,
                    ).0);
                    pos = k;
                },
                _ => {
                    go = false;
                },
            }
        }
        let rest = self.remaining.split_off(pos);
        self.remaining = rest;
    }

    /// A tokenizer that has read all tokens of `line`.
    pub fn new(line: &str) -> (p: StreamCommandParser)
        ensures
            p.tokens() == committed(line@),
            p.rest() == leftover(line@),
            source(p.tokens()) + p.rest() == line@,
    {
        proof {
            lemma_spans_cover(line@);
        }
        let mut p = StreamCommandParser { remaining: chars_of(line), parsed: Vec::new() };
        assert(p.tokens() =~= Seq::empty());
        p.parse();
        assert(p.tokens() =~= committed(line@));
        p
    }

    /// Appends `s` to the unread input and reads every token it completes.
    pub fn push(&mut self, s: &str)
        ensures
            final(self).tokens() == old(self).tokens() + committed(old(self).rest() + s@),
            final(self).rest() == leftover(old(self).rest() + s@),
            source(final(self).tokens()) + final(self).rest() == source(old(self).tokens()) + old(
                self,
            ).rest() + s@,
    {
        proof {
            let b = self.rest() + s@;
            lemma_spans_cover(b);
            lemma_source_concat(self.tokens(), committed(b));
            assert(source(self.tokens()) + source(committed(b)) + leftover(b) =~= source(
                self.tokens(),
            ) + (source(committed(b)) + leftover(b)));
            assert(source(self.tokens()) + b =~= source(self.tokens()) + self.rest() + s@);
        }
        self.push_chars(chars_of(s));
    }

    fn push_chars(&mut self, more: Vec<char>)
        ensures
            final(self).tokens() == old(self).tokens() + committed(old(self).rest() + more@),
            final(self).rest() == leftover(old(self).rest() + more@),
    {
        let mut more = more;
        self.remaining.append(&mut more);
        self.parse();
    }

    /// The whole input given so far: the source text of every token read, then
    /// the unread input.
    pub fn input(&self) -> (r: String)
        ensures
            r@ == source(self.tokens()) + self.rest(),
    {
        let mut all: Vec<char> = Vec::new();
        let mut i: usize = 0;
        while i < self.parsed.len()
            invariant
                i <= self.parsed.len(),
                all@ == source(self.tokens().take(i as int)),
            decreases self.parsed.len() - i,
        {
            let mut more = chars_of(self.parsed[i].0.as_str());
            let ghost before = all@;
            all.append(&mut more);
            proof {
                let spans = self.tokens().take(i + 1).map_values(
                    |p: (Seq<char>, TokenModel)| p.0,
                );
                assert(spans =~= self.tokens().take(i as int).map_values(
                    |p: (Seq<char>, TokenModel)| p.0,
                ).push(self.tokens()[i as int].0));
                self.tokens().take(i as int).map_values(
                    |p: (Seq<char>, TokenModel)| p.0,
                ).lemma_flatten_push(self.tokens()[i as int].0);
            }
            i = i + 1;
        }
        assert(self.tokens().take(self.parsed.len() as int) =~= self.tokens());
        let mut tail = self.remaining.clone();
        all.append(&mut tail);
        string_of(all.as_slice())
    }

    /// Whether nothing was read and the unread input is blank.
    pub fn is_empty(&self) -> (r: bool)
        ensures
            r == (self.tokens().len() == 0 && is_blank(self.rest())),
    {
        self.parsed.len() == 0 && blank(&self.remaining)
    }

    /// Feeds the closing newline and splits the tokens into pipeline stages.
    /// Fails when input is left that forms no token, or when a stage between
    /// pipes (or the whole line) holds no word.
    pub fn finish(self) -> (r: Result<Vec<Stage>, ParseError>)
        ensures
            match r {
                Ok(stages) => finished(self.tokens(), self.rest()) == Ok::<
                    Seq<StageModel>,
                    ParseErrorModel,
                >(stages@.map_values(|g: Stage| g@)),
                Err(e) => finished(self.tokens(), self.rest()) == Err::<
                    Seq<StageModel>,
                    ParseErrorModel,
                >(e@),
            },
    {
        let mut me = self;
        let mut newline: Vec<char> = Vec::new();
        newline.push('\n');
        me.push_chars(newline);
        proof {
            assert(self.rest().push('\n') =~= self.rest() + seq!['\n']);
            assert(newline@ =~= seq!['\n']);
        }
        let line = me.input();
        if !blank(&me.remaining) {
            return Err(ParseError::Unfinished(line));
        }
        let ghost ts = kinds(me.tokens());
        let mut done: Vec<Stage> = Vec::new();
        let mut cur = new_stage();
        let mut i: usize = 0;
        assert(ts.take(0) =~= Seq::<TokenModel>::empty());
        assert(done@.map_values(|g: Stage| g@).push(cur@) =~= seq![empty_stage()]);
        while i < me.parsed.len()
            invariant
                i <= me.parsed.len(),
                ts == kinds(me.tokens()),
                ts == kinds(self.tokens() + committed(self.rest().push('\n'))),
                line@ == source(self.tokens() + committed(self.rest().push('\n'))) + leftover(
                    self.rest().push('\n'),
                ),
                is_blank(leftover(self.rest().push('\n'))),
                done@.map_values(|g: Stage| g@).push(cur@) == stages_of(ts.take(i as int)),
            decreases me.parsed.len() - i,
        {
            let ghost prev = done@.map_values(|g: Stage| g@).push(cur@);
            assert(ts.take(i + 1).drop_last() =~= ts.take(i as int));
            assert(me.parsed[i as int].1@ == ts[i as int]);
            match &me.parsed[i].1 {
                Token::Pipe => {
                    done.push(cur);
                    cur = new_stage();
                    assert(done@.map_values(|g: Stage| g@).push(cur@) =~= prev.push(
                        empty_stage(),
                    ));
                },
                Token::Command(c) => {
                    cur.words.push(c.0.clone());
                    assert(cur@.words =~= prev.last().words.push(c.0@));
                    assert(done@.map_values(|g: Stage| g@).push(cur@) =~= add_token(
                        prev,
                        ts[i as int],
                    ));
                },
                Token::Redirect(r) => {
                    cur.redirects.push(copy_redirect(r));
                    assert(cur@.redirects =~= prev.last().redirects.push(r@));
                    assert(done@.map_values(|g: Stage| g@).push(cur@) =~= add_token(
                        prev,
                        ts[i as int],
                    ));
                },
            }
            i = i + 1;
        }
        assert(ts.take(me.parsed.len() as int) =~= ts);
        let ghost all = done@.map_values(|g: Stage| g@).push(cur@);
        done.push(cur);
        assert(done@.map_values(|g: Stage| g@) =~= all);
        let mut k: usize = 0;
        while k < done.len()
            invariant
                k <= done.len(),
                all == done@.map_values(|g: Stage| g@),
                all == stages_of(kinds(self.tokens() + committed(self.rest().push('\n')))),
                line@ == source(self.tokens() + committed(self.rest().push('\n'))) + leftover(
                    self.rest().push('\n'),
                ),
                is_blank(leftover(self.rest().push('\n'))),
                forall|m: int| 0 <= m < k ==> (#[trigger] all[m]).words.len() > 0,
            decreases done.len() - k,
        {
            if done[k].words.len() == 0 {
                assert(all[k as int].words.len() == 0);
                return Err(ParseError::EmptyStage(line));
            }
            k = k + 1;
        }
        Ok(done)
    }

    /// The input not yet read.
    pub fn remaining(&self) -> (r: String)
        ensures
            r@ == self.rest(),
    {
        string_of(self.remaining.as_slice())
    }

    /// The tokens read so far, each with its source text.
    pub fn parsed(&self) -> (r: &Vec<(String, Token)>)
        ensures
            r@.map_values(|p: (String, Token)| (p.0@, p.1@)) == self.tokens(),
    {
        &self.parsed
    }
}

proof fn lemma_digits_end_shift(s: Seq<char>, p: int, j: int)
    requires
        0 <= p <= j,
        p <= s.len(),
    ensures
        digits_end(s, j) == digits_end(s.skip(p), j - p) + p,
    decreases s.len() - j,
{
    if j < s.len() {
        assert(s.skip(p)[j - p] == s[j]);
        if is_digit(s[j]) {
            lemma_digits_end_shift(s, p, j + 1);
        }
    }
}

proof fn lemma_digits_end_bounds(s: Seq<char>, j: int)
    requires
        0 <= j <= s.len(),
    ensures
        j <= digits_end(s, j) <= s.len(),
    decreases s.len() - j,
{
    if j < s.len() && is_digit(s[j]) {
        lemma_digits_end_bounds(s, j + 1);
    }
}

proof fn lemma_digits_end_extend(s: Seq<char>, x: Seq<char>, j: int)
    requires
        0 <= j,
        digits_end(s, j) < s.len(),
    ensures
        digits_end(s + x, j) == digits_end(s, j),
    decreases s.len() - j,
{
    if j < s.len() && is_digit(s[j]) {
        lemma_digits_end_extend(s, x, j + 1);
    }
}

proof fn lemma_redirect_shift(s: Seq<char>, p: int, i: int)
    requires
        0 <= p <= i,
        p <= s.len(),
    ensures
        scan_redirect(s, i) == shifted(scan_redirect(s.skip(p), i - p), p),
{
    let t = s.skip(p);
    lemma_skip_separators_shift(s, p, i);
    if let Some(j) = skip_separators(s, i) {
        lemma_skip_separators_bounds(s, i);
        lemma_digits_end_shift(s, p, j);
        lemma_digits_end_bounds(s, j);
        let d = digits_end(s, j);
        assert(t.subrange(j - p, d - p) =~= s.subrange(j, d));
        if d < s.len() {
            assert(t[d - p] == s[d]);
            if d + 1 < s.len() {
                assert(t[d + 1 - p] == s[d + 1]);
            }
            lemma_word_shift(s, p, d + 1);
            lemma_word_shift(s, p, d + 2);
        }
    }
}

proof fn lemma_redirect_extend(s: Seq<char>, x: Seq<char>, i: int)
    requires
        0 <= i,
        settled(scan_redirect(s, i)),
    ensures
        scan_redirect(s + x, i) == scan_redirect(s, i),
{
    let t = s + x;
    lemma_skip_separators_bounds(s, i);
    if let Some(j) = skip_separators(s, i) {
        lemma_skip_separators_extend(s, x, i);
        lemma_digits_end_bounds(s, j);
        let d = digits_end(s, j);
        if d < s.len() {
            lemma_digits_end_extend(s, x, j);
            assert(t.subrange(j, d) =~= s.subrange(j, d));
            assert(t[d] == s[d]);
            if d + 1 < s.len() {
                assert(t[d + 1] == s[d + 1]);
            }
            if settled(scan_word(s, d + 1)) {
                lemma_word_extend(s, x, d + 1);
            }
            if settled(scan_word(s, d + 2)) {
                lemma_word_extend(s, x, d + 2);
            }
            if d + 1 < s.len() && s[d + 1] == '|' && settled(scan_word(s, d + 2)) {
                lemma_word_extend(s, x, d + 2);
            }
        }
    }
}

proof fn lemma_token_shift(s: Seq<char>, p: int, i: int)
    requires
        0 <= p <= i,
        p <= s.len(),
    ensures
        scan_token(s, i) == shifted(scan_token(s.skip(p), i - p), p),
{
    lemma_skip_separators_shift(s, p, i);
    lemma_skip_separators_bounds(s, i);
    if let Some(j) = skip_separators(s, i) {
        assert(s.skip(p)[j - p] == s[j]);
    }
    lemma_redirect_shift(s, p, i);
    lemma_word_shift(s, p, i);
}

proof fn lemma_token_extend(s: Seq<char>, x: Seq<char>, i: int)
    requires
        0 <= i,
        settled(scan_token(s, i)),
    ensures
        scan_token(s + x, i) == scan_token(s, i),
{
    lemma_skip_separators_bounds(s, i);
    if let Some(j) = skip_separators(s, i) {
        lemma_skip_separators_extend(s, x, i);
        assert((s + x)[j] == s[j]);
        if s[j] != '|' {
            lemma_redirect_extend(s, x, i);
            if scan_redirect(s, i) is Reject {
                lemma_word_extend(s, x, i);
            }
        }
    }
}

proof fn lemma_tokens_from_shift(s: Seq<char>, p: int, i: int)
    requires
        0 <= p <= i <= s.len(),
    ensures
        tokens_from(s, i).0 == tokens_from(s.skip(p), i - p).0,
        tokens_from(s, i).1 == tokens_from(s.skip(p), i - p).1 + p,
    decreases s.len() - i,
{
    lemma_token_shift(s, p, i);
    if let Scan::Done(t, k) = scan_token(s, i) {
        if i < k <= s.len() {
            lemma_tokens_from_shift(s, p, k as int);
            assert(s.skip(p).subrange(i - p, k - p) =~= s.subrange(i, k as int));
        }
    }
}

proof fn lemma_tokens_from_extend(s: Seq<char>, x: Seq<char>, i: int)
    requires
        0 <= i <= s.len(),
    ensures
        tokens_from(s + x, i).0 == tokens_from(s, i).0 + tokens_from(s + x, tokens_from(s, i).1).0,
        tokens_from(s + x, i).1 == tokens_from(s + x, tokens_from(s, i).1).1,
    decreases s.len() - i,
{
    if let Scan::Done(t, k) = scan_token(s, i) {
        if i < k <= s.len() {
            lemma_token_extend(s, x, i);
            lemma_tokens_from_extend(s, x, k as int);
            assert((s + x).subrange(i, k as int) =~= s.subrange(i, k as int));
            let head = seq![(s.subrange(i, k as int), t)];
            let mid = tokens_from(s, k as int).0;
            let tail = tokens_from(s + x, tokens_from(s, k as int).1).0;
            assert(head + (mid + tail) =~= head + mid + tail);
            return;
        }
    }
    assert(Seq::<(Seq<char>, TokenModel)>::empty() + tokens_from(s + x, i).0 =~= tokens_from(
        s + x,
        i,
    ).0);
}

/// Feeding input in two pieces commits the same tokens, with the same
/// source texts, and leaves the same input unread, as feeding it at once:
/// a token once committed never changes when more input arrives.
pub proof fn lemma_push_equivalent(a: Seq<char>, b: Seq<char>)
    ensures
        committed(a) + committed(leftover(a) + b) == committed(a + b),
        leftover(leftover(a) + b) == leftover(a + b),
{
    let s = a + b;
    lemma_tokens_from_stop(a, 0);
    let p = tokens_from(a, 0).1;
    let rest = leftover(a) + b;
    assert(s.skip(p) =~= rest);
    lemma_tokens_from_extend(a, b, 0);
    assert(tokens_from(s, 0).0 == committed(a) + tokens_from(s, p).0);
    assert(tokens_from(s, 0).1 == tokens_from(s, p).1);
    lemma_tokens_from_shift(s, p, p);
    assert(tokens_from(s, p).0 == committed(rest));
    lemma_tokens_from_stop(rest, 0);
    let q = tokens_from(rest, 0).1;
    assert(tokens_from(s, 0).1 == q + p);
    assert(rest.subrange(q, rest.len() as int) =~= s.subrange(q + p, s.len() as int));
}

} // verus!
