//! Word readers fed one key at a time: an unquoted word, a single-quoted run
//! and a double-quoted run. A quote inside an unquoted word opens a quoted run
//! that goes on with the same word. The caller reads each key, echoes it, hands it
//! over with the names that could complete the word, and shows what comes back.

use vstd::prelude::*;
use crate::complete::strings;
use crate::parser::completer::{completed_suffix, completion, CompletedSuffix, TabCompletionState};
use crate::text::{is_separator, separator, string_of};

verus! {

/// A key as a word reader sees it.
#[derive(Debug, Clone, Copy, PartialEq, Eq, Structural)]
pub enum Key {
    Char(char),
    Newline,
    Backspace,
    Tab,
}

/// A finished word: `Continue` when the line goes on after it, `Stop` when
/// the line ended with it.
#[derive(Debug, PartialEq, Eq)]
pub enum ParsedStatus {
    Continue(String),
    Stop(String),
}

/// What a key did: the finished word, if it finished one, and the text to show.
#[derive(Debug, PartialEq, Eq)]
pub struct Fed {
    pub status: Option<ParsedStatus>,
    pub shown: String,
}

/// Reads an unquoted word.
#[derive(Debug)]
pub struct NoQuote {
    raw: String,
    token: Vec<char>,
    escape: bool,
    tab_completion_state: TabCompletionState,
}

/// Reads a single-quoted run.
#[derive(Debug)]
pub struct SingleQuote {
    raw: String,
    token: Vec<char>,
    tab_completion_state: TabCompletionState,
}

/// Reads a double-quoted run.
#[derive(Debug)]
pub struct DoubleQuote {
    raw: String,
    token: Vec<char>,
    escape: bool,
    tab_completion_state: TabCompletionState,
}

/// A word reader of one of the three kinds.
#[derive(Debug)]
pub enum RawQuoteParser {
    Plain(NoQuote),
    Single(SingleQuote),
    Double(DoubleQuote),
}

/// The kind of a word reader (model).
pub enum QuoteMode {
    Plain,
    Single,
    Double,
}

/// A word reader (model): its kind, the line typed before the word, the
/// word so far, whether a backslash waits for the next key, and whether tab
/// was just pressed without completing.
pub struct ReaderModel {
    pub mode: QuoteMode,
    pub raw: Seq<char>,
    pub token: Seq<char>,
    pub escape: bool,
    pub pressed: bool,
}

impl View for RawQuoteParser {
    type V = ReaderModel;

    closed spec fn view(&self) -> ReaderModel {
        match self {
            RawQuoteParser::Plain(p) => ReaderModel {
                mode: QuoteMode::Plain,
                raw: p.raw@,
                token: p.token@,
                escape: p.escape,
                pressed: p.tab_completion_state == TabCompletionState::Pressed,
            },
            RawQuoteParser::Single(p) => ReaderModel {
                mode: QuoteMode::Single,
                raw: p.raw@,
                token: p.token@,
                escape: false,
                pressed: p.tab_completion_state == TabCompletionState::Pressed,
            },
            RawQuoteParser::Double(p) => ReaderModel {
                mode: QuoteMode::Double,
                raw: p.raw@,
                token: p.token@,
                escape: p.escape,
                pressed: p.tab_completion_state == TabCompletionState::Pressed,
            },
        }
    }
}

/// A finished word (model): its text, and whether the line ended with it.
pub open spec fn status_model(s: Option<ParsedStatus>) -> Option<(Seq<char>, bool)> {
    match s {
        Some(ParsedStatus::Continue(t)) => Some((t@, false)),
        Some(ParsedStatus::Stop(t)) => Some((t@, true)),
        None => None,
    }
}

/// The word without its last character, if it has one.
pub open spec fn erased(t: Seq<char>) -> Seq<char> {
    if t.len() > 0 {
        t.drop_last()
    } else {
        t
    }
}

/// The reader `m` with word `t`, no backslash waiting, and tab not pressed.
pub open spec fn with_token(m: ReaderModel, t: Seq<char>) -> ReaderModel {
    ReaderModel { token: t, escape: false, pressed: false, ..m }
}

/// Pressing tab: the completion is inserted; in an unquoted word, the only
/// name that completes it also ends the word, after a space is shown.
pub open spec fn tab_step(m: ReaderModel, names: Seq<Seq<char>>) -> (
    ReaderModel,
    Option<(Seq<char>, bool)>,
    Seq<char>,
) {
    let (c, out) = completion(m.token, m.pressed, m.raw, names);
    match c {
        Some((s, completed)) => {
            let t = m.token + s;
            if completed && m.mode == QuoteMode::Plain {
                (with_token(m, t), Some((t, false)), (out + s).push(' '))
            } else {
                (with_token(m, t), None, out + s)
            }
        },
        None => (ReaderModel { pressed: true, ..m }, None, out),
    }
}

/// What the character after a backslash adds inside double quotes.
pub open spec fn double_escape(c: char) -> Seq<char> {
    if c == '$' || c == '`' || c == '"' || c == '\\' || c == '\n' {
        seq![c]
    } else {
        seq!['\\', c]
    }
}

/// What one key does to a word reader, given the names that complete the
/// word: the reader after it, the finished word if any, and the text to show.
pub open spec fn feed_step(m: ReaderModel, key: Key, names: Seq<Seq<char>>) -> (
    ReaderModel,
    Option<(Seq<char>, bool)>,
    Seq<char>,
) {
    let quiet = Seq::<char>::empty();
    if m.escape {
        let t = match key {
            Key::Char(c) => if m.mode == QuoteMode::Double {
                m.token + double_escape(c)
            } else {
                m.token.push(c)
            },
            Key::Newline => m.token.push('\n'),
            Key::Tab => m.token.push('\t'),
            Key::Backspace => m.token,
        };
        (with_token(m, t), None, quiet)
    } else {
        match key {
            Key::Tab => tab_step(m, names),
            Key::Backspace => (with_token(m, erased(m.token)), None, quiet),
            Key::Newline => if m.mode == QuoteMode::Plain {
                (m, Some((m.token, true)), quiet)
            } else {
                (with_token(m, m.token.push('\n')), None, quiet)
            },
            Key::Char(c) => match m.mode {
                QuoteMode::Plain => if c == '\\' {
                    (ReaderModel { escape: true, pressed: false, ..m }, None, quiet)
                } else if is_separator(c) {
                    (m, Some((m.token, false)), quiet)
                } else if c == '\'' {
                    (ReaderModel { mode: QuoteMode::Single, pressed: false, ..m }, None, quiet)
                } else if c == '"' {
                    (ReaderModel { mode: QuoteMode::Double, pressed: false, ..m }, None, quiet)
                } else {
                    (with_token(m, m.token.push(c)), None, quiet)
                },
                QuoteMode::Single => if c == '\'' {
                    (m, Some((m.token, false)), quiet)
                } else {
                    (with_token(m, m.token.push(c)), None, quiet)
                },
                QuoteMode::Double => if c == '"' {
                    (m, Some((m.token, false)), quiet)
                } else if c == '\\' {
                    (ReaderModel { escape: true, pressed: false, ..m }, None, quiet)
                } else {
                    (with_token(m, m.token.push(c)), None, quiet)
                },
            },
        }
    }
}

/// The word that a reader starts with.
fn first(ch: Option<char>) -> (r: Vec<char>)
    ensures
        r@ == match ch {
            Some(c) => seq![c],
            None => Seq::<char>::empty(),
        },
{
    let mut t: Vec<char> = Vec::new();
    if let Some(c) = ch {
        t.push(c);
    }
    assert(ch is None ==> t@ =~= Seq::<char>::empty());
    t
}

/// A copy of `s`.
fn copied(s: &str) -> (r: String)
    ensures
        r@ == s@,
{
    string_of(crate::text::chars_of(s).as_slice())
}

impl RawQuoteParser {
    /// A reader of an unquoted word that starts with `ch`, or after a
    /// backslash when `escape`; `raw` is the line typed before it.
    pub fn no_quote(ch: Option<char>, escape: bool, raw: &str) -> (r: RawQuoteParser)
        ensures
            r@.mode == QuoteMode::Plain,
            r@.raw == raw@,
            r@.token == match ch {
                Some(c) => seq![c],
                None => Seq::<char>::empty(),
            },
            r@.escape == escape,
            !r@.pressed,
    {
        RawQuoteParser::Plain(
            NoQuote {
                raw: copied(raw),
                token: first(ch),
                escape,
                tab_completion_state: TabCompletionState::NotPressed,
            },
        )
    }

    /// A reader of a single-quoted run, after its opening quote.
    pub fn single_quote(ch: Option<char>, raw: &str) -> (r: RawQuoteParser)
        ensures
            r@.mode == QuoteMode::Single,
            r@.raw == raw@,
            r@.token == match ch {
                Some(c) => seq![c],
                None => Seq::<char>::empty(),
            },
            !r@.escape,
            !r@.pressed,
    {
        RawQuoteParser::Single(
            SingleQuote {
                raw: copied(raw),
                token: first(ch),
                tab_completion_state: TabCompletionState::NotPressed,
            },
        )
    }

    /// A reader of a double-quoted run, after its opening quote.
    pub fn double_quote(ch: Option<char>, raw: &str) -> (r: RawQuoteParser)
        ensures
            r@.mode == QuoteMode::Double,
            r@.raw == raw@,
            r@.token == match ch {
                Some(c) => seq![c],
                None => Seq::<char>::empty(),
            },
            !r@.escape,
            !r@.pressed,
    {
        RawQuoteParser::Double(
            DoubleQuote {
                raw: copied(raw),
                token: first(ch),
                escape: false,
                tab_completion_state: TabCompletionState::NotPressed,
            },
        )
    }

    /// Takes one key, with the names that complete the word so far (used
    /// when the key is tab).
    pub fn feed(&mut self, key: Key, names: &Vec<String>) -> (r: Fed)
        ensures
            (final(self)@, status_model(r.status), r.shown@) == feed_step(
                old(self)@,
                key,
                strings(names@),
            ),
    {
        let ghost m = self@;
        let (mode, raw, mut token, escape, pressed): (u8, String, Vec<char>, bool, bool) =
            match &*self {
            RawQuoteParser::Plain(p) => (
                0,
                p.raw.clone(),
                p.token.clone(),
                p.escape,
                p.tab_completion_state == TabCompletionState::Pressed,
            ),
            RawQuoteParser::Single(p) => (
                1,
                p.raw.clone(),
                p.token.clone(),
                false,
                p.tab_completion_state == TabCompletionState::Pressed,
            ),
            RawQuoteParser::Double(p) => (
                2,
                p.raw.clone(),
                p.token.clone(),
                p.escape,
                p.tab_completion_state == TabCompletionState::Pressed,
            ),
        };
        assert(token@ =~= m.token);
        assert(raw@ == m.raw && escape == m.escape && pressed == m.pressed);
        assert(mode == 0 <==> m.mode == QuoteMode::Plain);
        assert(mode == 1 <==> m.mode == QuoteMode::Single);
        assert(mode == 2 <==> m.mode == QuoteMode::Double);
        assert(mode <= 2);
        let ghost expected = feed_step(m, key, strings(names@));
        let mut status: Option<ParsedStatus> = None;
        let mut shown: Vec<char> = Vec::new();
        let mut new_escape = false;
        let mut new_pressed = false;
        let mut new_mode = mode;
        if escape {
            match key {
                Key::Char(c) => {
                    if mode == 2 && !(c == '$' || c == '`' || c == '"' || c == '\\' || c == '\n') {
                        token.push('\\');
                    }
                    token.push(c);
                },
                Key::Newline => token.push('\n'),
                Key::Tab => token.push('\t'),
                Key::Backspace => {},
            }
        } else {
            match key {
                Key::Tab => {
                    let word = string_of(token.as_slice());
                    let state = if pressed {
                        TabCompletionState::Pressed
                    } else {
                        TabCompletionState::NotPressed
                    };
                    let (cs, out) = completed_suffix(word.as_str(), state, raw.as_str(), names);
                    shown = crate::text::chars_of(out.as_str());
                    match cs {
                        CompletedSuffix::Completed { suffix } => {
                            crate::text::push_str(&mut token, suffix.as_str());
                            crate::text::push_str(&mut shown, suffix.as_str());
                            if mode == 0 {
                                shown.push(' ');
                                status = Some(ParsedStatus::Continue(string_of(token.as_slice())));
                            }
                        },
                        CompletedSuffix::Partial { suffix } => {
                            crate::text::push_str(&mut token, suffix.as_str());
                            crate::text::push_str(&mut shown, suffix.as_str());
                        },
                        CompletedSuffix::Nothing => {
                            new_pressed = true;
                        },
                    }
                },
                Key::Backspace => {
                    token.pop();
                },
                Key::Newline => {
                    if mode == 0 {
                        status = Some(ParsedStatus::Stop(string_of(token.as_slice())));
                        new_pressed = pressed;
                        new_escape = escape;
                    } else {
                        token.push('\n');
                    }
                },
                Key::Char(c) => {
                    let ends = if mode == 0 {
                        separator(c)
                    } else if mode == 1 {
                        c == '\''
                    } else {
                        c == '"'
                    };
                    if ends {
                        status = Some(ParsedStatus::Continue(string_of(token.as_slice())));
                        new_pressed = pressed;
                    } else if mode == 0 && c == '\'' {
                        new_mode = 1;
                    } else if mode == 0 && c == '"' {
                        new_mode = 2;
                    } else if mode != 1 && c == '\\' {
                        new_escape = true;
                    } else {
                        token.push(c);
                    }
                },
            }
        }
        let tab_completion_state = if new_pressed {
            TabCompletionState::Pressed
        } else {
            TabCompletionState::NotPressed
        };
        *self = if new_mode == 0 {
            RawQuoteParser::Plain(NoQuote { raw, token, escape: new_escape, tab_completion_state })
        } else if new_mode == 1 {
            RawQuoteParser::Single(SingleQuote { raw, token, tab_completion_state })
        } else {
            RawQuoteParser::Double(
                DoubleQuote { raw, token, escape: new_escape, tab_completion_state },
            )
        };
        proof {
            assert(shown@ =~= expected.2);
            assert(token@ =~= expected.0.token);
            assert(new_escape == expected.0.escape);
            assert(new_pressed == expected.0.pressed);
            assert(self@ == expected.0);
        }
        Fed { status, shown: string_of(shown.as_slice()) }
    }

    /// Whether this reads an unquoted word.
    pub fn is_plain(&self) -> (r: bool)
        ensures
            r == (self@.mode == QuoteMode::Plain),
    {
        match self {
            RawQuoteParser::Plain(_) => true,
            _ => false,
        }
    }

    /// The word read so far.
    pub fn word(&self) -> (r: String)
        ensures
            r@ == self@.token,
    {
        match self {
            RawQuoteParser::Plain(p) => string_of(p.token.as_slice()),
            RawQuoteParser::Single(p) => string_of(p.token.as_slice()),
            RawQuoteParser::Double(p) => string_of(p.token.as_slice()),
        }
    }
}

} // verus!
