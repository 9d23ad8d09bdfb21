//! Reading the words of a line key by key: quotes and unquoted words are
//! handed to word readers, and blanks between words are kept as single
//! separators.

use vstd::prelude::*;
use crate::complete::strings;
use crate::parser::quotes::{feed_step, Key, ParsedStatus, QuoteMode, RawQuoteParser, ReaderModel};
use crate::text::{blank, chars_of, is_blank, is_separator, push_str, separator, string_of};

verus! {

/// The separator kept between two words.
pub open spec fn gap() -> Seq<char> {
    seq![' ']
}

/// The pieces after `s` is added: a blank piece becomes one separator, and
/// only after a word; any other piece is kept.
pub open spec fn added(pieces: Seq<Seq<char>>, s: Seq<char>) -> Seq<Seq<char>> {
    if is_blank(s) {
        if pieces.len() > 0 && pieces.last() != gap() {
            pieces.push(gap())
        } else {
            pieces
        }
    } else {
        pieces.push(s)
    }
}

/// The pieces between separators, each group joined.
pub open spec fn grouped(pieces: Seq<Seq<char>>) -> Seq<Seq<char>>
    decreases pieces.len(),
{
    if pieces.len() == 0 {
        seq![Seq::empty()]
    } else {
        let prev = grouped(pieces.drop_last());
        if pieces.last() == gap() {
            prev.push(Seq::empty())
        } else {
            prev.update(prev.len() - 1, prev.last() + pieces.last())
        }
    }
}

/// The non-empty words among `ws`, in order.
pub open spec fn nonempty_words(ws: Seq<Seq<char>>) -> Seq<Seq<char>>
    decreases ws.len(),
{
    if ws.len() == 0 {
        Seq::empty()
    } else if ws.last().len() == 0 {
        nonempty_words(ws.drop_last())
    } else {
        nonempty_words(ws.drop_last()).push(ws.last())
    }
}

/// A line reader (model): the pieces read, the text typed, and the word
/// reader at work, if any.
pub struct LineModel {
    pub pieces: Seq<Seq<char>>,
    pub raw: Seq<char>,
    pub active: Option<ReaderModel>,
}

/// A fresh word reader (model).
pub open spec fn reader(mode: QuoteMode, raw: Seq<char>, token: Seq<char>, escape: bool) -> ReaderModel {
    ReaderModel { mode, raw, token, escape, pressed: false }
}

/// What one key does to a line reader: the reader after it, whether the
/// line ended, and the text to show.
pub open spec fn line_step(m: LineModel, key: Key, names: Seq<Seq<char>>) -> (LineModel, bool, Seq<char>) {
    let quiet = Seq::<char>::empty();
    match m.active {
        Some(r) => {
            let (r2, st, out) = feed_step(r, key, names);
            match st {
                None => (LineModel { active: Some(r2), ..m }, false, out),
                Some((s, stop)) => {
                    let p = added(m.pieces, s);
                    if stop {
                        (LineModel { pieces: p, raw: m.raw + s, active: None }, true, out)
                    } else if r.mode == QuoteMode::Plain {
                        (
                            LineModel { pieces: added(p, gap()), raw: m.raw + s + gap(), active: None },
                            false,
                            out,
                        )
                    } else {
                        (LineModel { pieces: p, raw: m.raw + s, active: None }, false, out)
                    }
                },
            }
        },
        None => match key {
            Key::Char(c) => if c == '\'' {
                (LineModel { active: Some(reader(QuoteMode::Single, m.raw, quiet, false)), ..m }, false, quiet)
            } else if c == '"' {
                (LineModel { active: Some(reader(QuoteMode::Double, m.raw, quiet, false)), ..m }, false, quiet)
            } else if is_separator(c) {
                (LineModel { pieces: added(m.pieces, seq![c]), raw: m.raw.push(c), ..m }, false, quiet)
            } else if c == '\\' {
                (LineModel { active: Some(reader(QuoteMode::Plain, m.raw, quiet, true)), ..m }, false, quiet)
            } else {
                (LineModel { active: Some(reader(QuoteMode::Plain, m.raw, seq![c], false)), ..m }, false, quiet)
            },
            Key::Tab => (LineModel { pieces: added(m.pieces, seq!['\t']), raw: m.raw.push('\t'), ..m }, false, quiet),
            Key::Newline => (m, true, quiet),
            Key::Backspace => (m, false, quiet),
        },
    }
}

/// Reads the words of a line, one key at a time.
pub struct RawTokenParser {
    tokens: Vec<String>,
    raw: String,
    active: Option<RawQuoteParser>,
}

impl View for RawTokenParser {
    type V = LineModel;

    closed spec fn view(&self) -> LineModel {
        LineModel {
            pieces: strings(self.tokens@),
            raw: self.raw@,
            active: match self.active {
                Some(r) => Some(r@),
                None => None,
            },
        }
    }
}

impl RawTokenParser {
    /// A reader at the start of a line.
    pub fn new() -> (r: RawTokenParser)
        ensures
            r@.pieces.len() == 0,
            r@.raw.len() == 0,
            r@.active is None,
    {
        let r = RawTokenParser { tokens: Vec::new(), raw: string_of(Vec::<char>::new().as_slice()), active: None };
        assert(strings(r.tokens@) =~= Seq::<Seq<char>>::empty());
        r
    }

    /// Adds a piece read from the line.
    fn add(&mut self, s: String)
        ensures
            final(self)@ == (LineModel { pieces: added(old(self)@.pieces, s@), raw: old(self)@.raw + s@, ..old(self)@ }),
    {
        let ghost before = strings(self.tokens@);
        let mut raw = chars_of(self.raw.as_str());
        push_str(&mut raw, s.as_str());
        self.raw = string_of(raw.as_slice());
        let sc = chars_of(s.as_str());
        if blank(&sc) {
            let n = self.tokens.len();
            if n > 0 && !crate::command::same_chars(chars_of(self.tokens[n - 1].as_str()).as_slice(), [' '].as_slice()) {
                assert([' ']@ =~= gap());
                self.tokens.push(string_of([' '].as_slice()));
                assert(strings(self.tokens@) =~= before.push(gap()));
            } else {
                assert([' ']@ =~= gap());
            }
        } else {
            self.tokens.push(s);
            assert(strings(self.tokens@) =~= before.push(sc@));
        }
    }

    /// Takes one key, with the names that complete the word being read (used
    /// when the key is tab); answers whether the line ended, and what to show.
    pub fn feed(&mut self, key: Key, names: &Vec<String>) -> (r: (bool, String))
        ensures
            (final(self)@, r.0, r.1@) == line_step(old(self)@, key, strings(names@)),
    {
        let ghost m = self@;
        match self.active.take() {
            Some(mut p) => {
                let ghost rm = p@;
                let plain = p.is_plain();
                let fed = p.feed(key, names);
                match fed.status {
                    None => {
                        self.active = Some(p);
                        (false, fed.shown)
                    },
                    Some(ParsedStatus::Stop(s)) => {
                        self.add(s);
                        (true, fed.shown)
                    },
                    Some(ParsedStatus::Continue(s)) => {
                        self.add(s);
                        if plain {
                            assert([' ']@ =~= gap());
                            self.add(string_of([' '].as_slice()));
                        }
                        (false, fed.shown)
                    },
                }
            },
            None => {
                let empty = string_of(Vec::<char>::new().as_slice());
                match key {
                    Key::Char(c) => {
                        if c == '\'' {
                            let r = RawQuoteParser::single_quote(None, self.raw.as_str());
                            assert(r@ == reader(QuoteMode::Single, m.raw, Seq::empty(), false));
                            self.active = Some(r);
                        } else if c == '"' {
                            let r = RawQuoteParser::double_quote(None, self.raw.as_str());
                            assert(r@ == reader(QuoteMode::Double, m.raw, Seq::empty(), false));
                            self.active = Some(r);
                        } else if separator(c) {
                            assert([c]@ =~= seq![c]);
                            assert(m.raw.push(c) =~= m.raw + seq![c]);
                            self.add(string_of([c].as_slice()));
                        } else if c == '\\' {
                            let r = RawQuoteParser::no_quote(None, true, self.raw.as_str());
                            assert(r@ == reader(QuoteMode::Plain, m.raw, Seq::empty(), true));
                            self.active = Some(r);
                        } else {
                            let r = RawQuoteParser::no_quote(Some(c), false, self.raw.as_str());
                            assert(r@ == reader(QuoteMode::Plain, m.raw, seq![c], false));
                            self.active = Some(r);
                        }
                        (false, empty)
                    },
                    Key::Tab => {
                        assert(['\t']@ =~= seq!['\t']);
                        assert(m.raw.push('\t') =~= m.raw + seq!['\t']);
                        self.add(string_of(['\t'].as_slice()));
                        (false, empty)
                    },
                    Key::Newline => (true, empty),
                    Key::Backspace => (false, empty),
                }
            },
        }
    }

    /// The words read: the pieces between separators, joined; blanks only
    /// separate words, so none of them is empty.
    pub fn words(&self) -> (r: Vec<String>)
        ensures
            strings(r@) == nonempty_words(grouped(self@.pieces)),
    {
        let ghost ps = strings(self.tokens@);
        let mut out: Vec<String> = Vec::new();
        let mut cur: Vec<char> = Vec::new();
        let mut i: usize = 0;
        assert(ps.take(0) =~= Seq::<Seq<char>>::empty());
        assert(strings(out@) =~= nonempty_words(Seq::<Seq<char>>::empty()));
        while i < self.tokens.len()
            invariant
                i <= self.tokens.len(),
                ps == strings(self.tokens@),
                grouped(ps.take(i as int)).len() >= 1,
                strings(out@) == nonempty_words(grouped(ps.take(i as int)).drop_last()),
                cur@ == grouped(ps.take(i as int)).last(),
            decreases self.tokens.len() - i,
        {
            let ghost prev = grouped(ps.take(i as int));
            assert(ps.take(i + 1).drop_last() =~= ps.take(i as int));
            let piece = chars_of(self.tokens[i].as_str());
            assert([' ']@ =~= gap());
            if crate::command::same_chars(piece.as_slice(), [' '].as_slice()) {
                let ghost before = strings(out@);
                assert(prev =~= prev.drop_last().push(prev.last()));
                if cur.len() > 0 {
                    out.push(string_of(cur.as_slice()));
                    assert(strings(out@) =~= before.push(prev.last()));
                }
                cur = Vec::new();
                assert(grouped(ps.take(i + 1)).drop_last() =~= prev);
                assert(cur@ =~= Seq::<char>::empty());
            } else {
                let mut more = piece;
                cur.append(&mut more);
                assert(grouped(ps.take(i + 1)).drop_last() =~= prev.drop_last());
            }
            i = i + 1;
        }
        assert(ps.take(self.tokens.len() as int) =~= ps);
        let ghost all = grouped(ps);
        let ghost before = strings(out@);
        assert(all =~= all.drop_last().push(all.last()));
        if cur.len() > 0 {
            out.push(string_of(cur.as_slice()));
            assert(strings(out@) =~= before.push(all.last()));
        }
        out
    }
}

} // verus!
