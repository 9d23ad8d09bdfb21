//! Commands made from value words: the builtins `exit`, `pwd`, `echo`, `cd`
//! and `type`, executables found on the search path, and what running one
//! printed.

use vstd::prelude::*;
use crate::command::{builtin_name, path_view, same_chars, BuiltinKind};
use crate::complete::strings;
use crate::parser::token::{classified, parse_tokens, values_in, ValueToken};
use crate::text::{
    chars_of, is_white_space, join_with, joined_with, parse_i32, parsed_i32, push_str, string_of,
    white_space,
};
use vstd::utf8::encode_utf8;

verus! {

/// A builtin with its arguments joined into one text (`exit` keeps its first
/// argument only).
#[derive(Debug, PartialEq, Eq)]
pub enum BuiltinCmd {
    Exit(String),
    Echo(String),
    Pwd,
    Cd(String),
    Type(String),
}

/// An executable found on the search path.
#[derive(Debug, PartialEq, Eq)]
pub struct ExecFileCmd {
    pub command: String,
    pub path: String,
    pub args: Vec<String>,
}

/// A command made from value words.
#[derive(Debug, PartialEq, Eq)]
pub enum Cmd {
    Builtin(BuiltinCmd),
    ExecFile(ExecFileCmd),
    Invalid(String),
}

/// What running a command printed.
#[derive(Debug, Default, PartialEq, Eq)]
pub struct ExecutedOutput {
    pub stdout: Vec<u8>,
    pub stderr: Vec<u8>,
}

impl ExecutedOutput {
    /// Nothing printed.
    pub fn new() -> (r: ExecutedOutput)
        ensures
            r.stdout@.len() == 0,
            r.stderr@.len() == 0,
    {
        ExecutedOutput { stdout: Vec::new(), stderr: Vec::new() }
    }

    /// The same output with `s` as what went to standard output.
    pub fn with_stdout(self, s: &[u8]) -> (r: ExecutedOutput)
        ensures
            r.stdout@ == s@,
            r.stderr == self.stderr,
    {
        ExecutedOutput { stdout: vstd::slice::slice_to_vec(s), stderr: self.stderr }
    }

    /// The same output with `s` as what went to standard error.
    pub fn with_stderr(self, s: &[u8]) -> (r: ExecutedOutput)
        ensures
            r.stderr@ == s@,
            r.stdout == self.stdout,
    {
        ExecutedOutput { stdout: self.stdout, stderr: vstd::slice::slice_to_vec(s) }
    }
}

/// A command made from value words (model).
pub enum CmdModel {
    Exit(Seq<char>),
    Echo(Seq<char>),
    Pwd,
    Cd(Seq<char>),
    Type(Seq<char>),
    ExecFile(Seq<char>, Seq<char>, Seq<Seq<char>>),
    Invalid(Seq<char>),
}

impl View for Cmd {
    type V = CmdModel;

    open spec fn view(&self) -> CmdModel {
        match self {
            Cmd::Builtin(BuiltinCmd::Exit(a)) => CmdModel::Exit(a@),
            Cmd::Builtin(BuiltinCmd::Echo(a)) => CmdModel::Echo(a@),
            Cmd::Builtin(BuiltinCmd::Pwd) => CmdModel::Pwd,
            Cmd::Builtin(BuiltinCmd::Cd(a)) => CmdModel::Cd(a@),
            Cmd::Builtin(BuiltinCmd::Type(a)) => CmdModel::Type(a@),
            Cmd::ExecFile(e) => CmdModel::ExecFile(e.command@, e.path@, strings(e.args@)),
            Cmd::Invalid(n) => CmdModel::Invalid(n@),
        }
    }
}

/// The command that words `ws` make: the first names it, the rest are its
/// arguments; `found` is what the search path holds under the name.
pub open spec fn cmd_of(ws: Seq<Seq<char>>, found: Option<Seq<char>>) -> CmdModel {
    let name = ws[0];
    let args = ws.drop_first();
    if name == builtin_name(BuiltinKind::Exit) {
        CmdModel::Exit(
            if args.len() > 0 {
                args[0]
            } else {
                Seq::empty()
            },
        )
    } else if name == builtin_name(BuiltinKind::Pwd) {
        CmdModel::Pwd
    } else if name == builtin_name(BuiltinKind::Echo) {
        CmdModel::Echo(joined_with(args, " "@))
    } else if name == builtin_name(BuiltinKind::Cd) {
        CmdModel::Cd(joined_with(args, " "@))
    } else if name == builtin_name(BuiltinKind::Type) {
        CmdModel::Type(joined_with(args, " "@))
    } else {
        match found {
            Some(p) => CmdModel::ExecFile(name, p, args),
            None => CmdModel::Invalid(name),
        }
    }
}

/// Whether `w` is the name of builtin `k`.
fn is_named(w: &Vec<char>, k: u8) -> (r: bool)
    requires
        k < 5,
    ensures
        r == (w@ == builtin_name(
            if k == 0 {
                BuiltinKind::Exit
            } else if k == 1 {
                BuiltinKind::Pwd
            } else if k == 2 {
                BuiltinKind::Echo
            } else if k == 3 {
                BuiltinKind::Cd
            } else {
                BuiltinKind::Type
            },
        )),
{
    let exit = ['e', 'x', 'i', 't'];
    let pwd = ['p', 'w', 'd'];
    let echo = ['e', 'c', 'h', 'o'];
    let cd = ['c', 'd'];
    let typ = ['t', 'y', 'p', 'e'];
    assert(exit@ =~= builtin_name(BuiltinKind::Exit));
    assert(pwd@ =~= builtin_name(BuiltinKind::Pwd));
    assert(echo@ =~= builtin_name(BuiltinKind::Echo));
    assert(cd@ =~= builtin_name(BuiltinKind::Cd));
    assert(typ@ =~= builtin_name(BuiltinKind::Type));
    if k == 0 {
        same_chars(w.as_slice(), exit.as_slice())
    } else if k == 1 {
        same_chars(w.as_slice(), pwd.as_slice())
    } else if k == 2 {
        same_chars(w.as_slice(), echo.as_slice())
    } else if k == 3 {
        same_chars(w.as_slice(), cd.as_slice())
    } else {
        same_chars(w.as_slice(), typ.as_slice())
    }
}

impl Cmd {
    /// The command that value words make; `found` is what the search path
    /// holds under the first word.
    pub fn from_value_tokens(values: Vec<ValueToken>, found: Option<String>) -> (r: Cmd)
        requires
            values.len() > 0,
        ensures
            r@ == cmd_of(values@.map_values(|v: ValueToken| v.0@), path_view(found)),
    {
        let ghost ws = values@.map_values(|v: ValueToken| v.0@);
        let mut args: Vec<String> = Vec::new();
        let mut k: usize = 1;
        while k < values.len()
            invariant
                1 <= k <= values.len(),
                ws == values@.map_values(|v: ValueToken| v.0@),
                strings(args@) == ws.subrange(1, k as int),
            decreases values.len() - k,
        {
            let ghost before = strings(args@);
            args.push(values[k].0.clone());
            assert(strings(args@) =~= before.push(ws[k as int]));
            assert(ws.subrange(1, k + 1) =~= ws.subrange(1, k as int).push(ws[k as int]));
            k = k + 1;
        }
        assert(ws.subrange(1, values.len() as int) =~= ws.drop_first());
        let command = values[0].0.clone();
        let name = chars_of(command.as_str());
        if is_named(&name, 0) {
            let first = if args.len() > 0 {
                args[0].clone()
            } else {
                string_of(Vec::<char>::new().as_slice())
            };
            Cmd::Builtin(BuiltinCmd::Exit(first))
        } else if is_named(&name, 1) {
            Cmd::Builtin(BuiltinCmd::Pwd)
        } else if is_named(&name, 2) {
            Cmd::Builtin(BuiltinCmd::Echo(string_of(join_with(&args, " ").as_slice())))
        } else if is_named(&name, 3) {
            Cmd::Builtin(BuiltinCmd::Cd(string_of(join_with(&args, " ").as_slice())))
        } else if is_named(&name, 4) {
            Cmd::Builtin(BuiltinCmd::Type(string_of(join_with(&args, " ").as_slice())))
        } else {
            match found {
                Some(path) => Cmd::ExecFile(ExecFileCmd { command, path, args }),
                None => Cmd::Invalid(command),
            }
        }
    }
}

/// The words of `s` between runs of white space.
pub open spec fn blank_split(s: Seq<char>) -> Seq<Seq<char>>
    decreases s.len(),
{
    if s.len() == 0 {
        Seq::empty()
    } else {
        let prev = blank_split(s.drop_last());
        let c = s.last();
        if is_white_space(c) {
            prev
        } else if s.len() >= 2 && !is_white_space(s[s.len() - 2]) {
            prev.update(prev.len() - 1, prev.last().push(c))
        } else {
            prev.push(seq![c])
        }
    }
}

proof fn lemma_blank_split_nonempty(s: Seq<char>)
    requires
        s.len() > 0,
        !is_white_space(s.last()),
    ensures
        blank_split(s).len() > 0,
    decreases s.len(),
{
    if s.len() >= 2 && !is_white_space(s[s.len() - 2]) {
        assert(s.drop_last().last() == s[s.len() - 2]);
        lemma_blank_split_nonempty(s.drop_last());
    }
}

/// The words of `s` between runs of white space.
pub fn split_blanks(s: &str) -> (r: Vec<String>)
    ensures
        strings(r@) == blank_split(s@),
{
    let c = chars_of(s);
    let mut out: Vec<String> = Vec::new();
    let mut cur: Vec<char> = Vec::new();
    let mut i: usize = 0;
    assert(c@.take(0) =~= Seq::<char>::empty());
    while i < c.len()
        invariant
            i <= c.len(),
            c@ == s@,
            i > 0 && !is_white_space(c@[i - 1]) ==> blank_split(c@.take(i as int)).len() > 0 && strings(out@)
                == blank_split(c@.take(i as int)).drop_last() && cur@ == blank_split(
                c@.take(i as int),
            ).last(),
            !(i > 0 && !is_white_space(c@[i - 1])) ==> strings(out@) == blank_split(c@.take(i as int))
                && cur@.len() == 0,
        decreases c.len() - i,
    {
        let ghost prev = blank_split(c@.take(i as int));
        assert(c@.take(i + 1).drop_last() =~= c@.take(i as int));
        assert(c@.take(i + 1).last() == c@[i as int]);
        let in_word = i > 0 && !white_space(c[i - 1]);
        if i > 0 {
            assert(c@.take(i + 1)[i - 1] == c@[i - 1]);
        }
        if white_space(c[i]) {
            if in_word {
                let ghost before = strings(out@);
                out.push(string_of(cur.as_slice()));
                cur = Vec::new();
                assert(strings(out@) =~= before.push(prev.last()));
                assert(prev =~= prev.drop_last().push(prev.last()));
            }
        } else {
            cur.push(c[i]);
            proof {
                lemma_blank_split_nonempty(c@.take(i + 1));
                if !in_word {
                    assert(cur@ =~= seq![c@[i as int]]);
                }
            }
        }
        i = i + 1;
    }
    assert(c@.take(c.len() as int) =~= c@);
    if c.len() > 0 && !white_space(c[c.len() - 1]) {
        let ghost all = blank_split(c@);
        out.push(string_of(cur.as_slice()));
        assert(all =~= all.drop_last().push(all.last()));
    }
    out
}

impl ExecFileCmd {
    /// The executable `command` with `args`, when the search path holds it at
    /// `found`.
    pub fn new(command: String, args: Vec<String>, found: Option<String>) -> (r: Option<ExecFileCmd>)
        ensures
            match found {
                Some(p) => r matches Some(e) && e.command == command && e.path == p && e.args == args,
                None => r is None,
            },
    {
        match found {
            Some(path) => Some(ExecFileCmd { command, path, args }),
            None => None,
        }
    }
}

/// An executable named by the start of a command line, up to its first
/// space, with the words after it as arguments.
#[derive(Debug, PartialEq, Eq)]
pub struct ExecutableFileCommand {
    pub command: String,
    pub path: String,
    pub args: Vec<String>,
}

/// The index of the first space in `s`, if any.
pub open spec fn first_space(s: Seq<char>) -> Option<int> {
    crate::lexer::find_char(s, 0, ' ')
}

/// The name a command line starts with: all of it up to its first space.
pub open spec fn line_command(s: Seq<char>) -> Seq<char> {
    match first_space(s) {
        Some(k) => s.subrange(0, k),
        None => s,
    }
}

/// The arguments of a command line: the words after its first space.
pub open spec fn line_args(s: Seq<char>) -> Seq<Seq<char>> {
    match first_space(s) {
        Some(k) => blank_split(s.subrange(k + 1, s.len() as int)),
        None => Seq::empty(),
    }
}

impl ExecutableFileCommand {
    /// The name that `line` starts with, up to its first space.
    pub fn command_of(line: &str) -> (r: String)
        ensures
            r@ == line_command(line@),
    {
        let c = chars_of(line);
        let mut k: usize = 0;
        while k < c.len() && c[k] != ' '
            invariant
                k <= c.len(),
                c@ == line@,
                crate::lexer::find_char(c@, 0, ' ') == crate::lexer::find_char(c@, k as int, ' '),
            decreases c.len() - k,
        {
            k = k + 1;
        }
        if k >= c.len() {
            assert(c@.subrange(0, k as int) =~= c@);
        }
        string_of(crate::text::sub_chars(&c, 0, k).as_slice())
    }

    /// The executable that `line` names, when the search path holds it at
    /// `found`, with the words after the name as arguments.
    pub fn from_line(line: &str, found: Option<String>) -> (r: Option<ExecutableFileCommand>)
        ensures
            match found {
                Some(p) => r matches Some(e) && e.command@ == line_command(line@) && e.path == p
                    && strings(e.args@) == line_args(line@),
                None => r is None,
            },
    {
        let path = match found {
            Some(p) => p,
            None => {
                return None;
            },
        };
        let c = chars_of(line);
        let mut k: usize = 0;
        while k < c.len() && c[k] != ' '
            invariant
                k <= c.len(),
                c@ == line@,
                crate::lexer::find_char(c@, 0, ' ') == crate::lexer::find_char(c@, k as int, ' '),
            decreases c.len() - k,
        {
            k = k + 1;
        }
        let command = string_of(crate::text::sub_chars(&c, 0, k).as_slice());
        let args = if k < c.len() {
            let rest = string_of(crate::text::sub_chars(&c, k + 1, c.len()).as_slice());
            split_blanks(rest.as_str())
        } else {
            assert(c@.subrange(0, k as int) =~= c@);
            Vec::new()
        };
        assert(k >= c.len() ==> strings(args@) =~= Seq::<Seq<char>>::empty());
        Some(ExecutableFileCommand { command, path, args })
    }
}

/// What `type` reports for a command made from value words, on standard
/// output: that a builtin is one, where an executable stands, or that the
/// name was not found.
pub open spec fn type_report_text(c: CmdModel) -> Seq<char> {
    match c {
        CmdModel::Exit(_) => builtin_name(BuiltinKind::Exit) + " is a shell builtin"@,
        CmdModel::Echo(_) => builtin_name(BuiltinKind::Echo) + " is a shell builtin"@,
        CmdModel::Pwd => builtin_name(BuiltinKind::Pwd) + " is a shell builtin"@,
        CmdModel::Cd(_) => builtin_name(BuiltinKind::Cd) + " is a shell builtin"@,
        CmdModel::Type(_) => builtin_name(BuiltinKind::Type) + " is a shell builtin"@,
        CmdModel::ExecFile(command, path, _) => command + " is "@ + path,
        CmdModel::Invalid(name) => name + ": not found"@,
    }
}

impl Cmd {
    /// What `type` reports for this command, as UTF-8; nothing goes to
    /// standard error.
    pub fn type_report(&self) -> (r: ExecutedOutput)
        ensures
            r.stdout@ == encode_utf8(type_report_text(self@)),
            r.stderr@.len() == 0,
    {
        let mut out: Vec<char> = Vec::new();
        match self {
            Cmd::Builtin(b) => {
                let name: &[char] = match b {
                    BuiltinCmd::Exit(_) => &['e', 'x', 'i', 't'],
                    BuiltinCmd::Echo(_) => &['e', 'c', 'h', 'o'],
                    BuiltinCmd::Pwd => &['p', 'w', 'd'],
                    BuiltinCmd::Cd(_) => &['c', 'd'],
                    BuiltinCmd::Type(_) => &['t', 'y', 'p', 'e'],
                };
                let mut n = vstd::slice::slice_to_vec(name);
                out.append(&mut n);
                push_str(&mut out, " is a shell builtin");
            },
            Cmd::ExecFile(e) => {
                push_str(&mut out, e.command.as_str());
                push_str(&mut out, " is ");
                push_str(&mut out, e.path.as_str());
            },
            Cmd::Invalid(n) => {
                push_str(&mut out, n.as_str());
                push_str(&mut out, ": not found");
            },
        }
        assert(out@ =~= type_report_text(self@));
        let text = string_of(out.as_slice());
        ExecutedOutput::new().with_stdout(text.as_str().as_bytes())
    }
}

/// Why a builtin cannot be made ready to run.
#[derive(Debug, PartialEq, Eq)]
pub enum ExecError {
    /// `exit` was given a code that is no `i32`.
    BadExitCode,
    /// `type` was given a redirection without target.
    MissingTarget,
    /// `type` was given no name.
    NoCommand,
}

/// A builtin ready to run.
#[derive(Debug, PartialEq, Eq)]
pub enum ExecBuiltinCmd {
    Exit(i32),
    Echo(String),
    Pwd,
    Cd(String),
    Type(Box<Cmd>),
}

impl BuiltinCmd {
    /// Makes the builtin ready to run: `exit` reads its code, 0 when it was
    /// given none; `type` makes a command of the words of its argument, with
    /// `found` what the search path holds under the first of them.
    pub fn into_exec(self, found: Option<String>) -> (r: Result<ExecBuiltinCmd, ExecError>)
        ensures
            match self {
                BuiltinCmd::Exit(code) => if code@.len() == 0 {
                    r matches Ok(ExecBuiltinCmd::Exit(0))
                } else {
                    match parsed_i32(code@) {
                        Some(v) => r matches Ok(ExecBuiltinCmd::Exit(c)) && c as int == v,
                        None => r == Err::<ExecBuiltinCmd, ExecError>(ExecError::BadExitCode),
                    }
                },
                BuiltinCmd::Echo(e) => r matches Ok(ExecBuiltinCmd::Echo(t)) && t@ == e@,
                BuiltinCmd::Pwd => r matches Ok(ExecBuiltinCmd::Pwd),
                BuiltinCmd::Cd(d) => r matches Ok(ExecBuiltinCmd::Cd(t)) && t@ == d@,
                BuiltinCmd::Type(t) => match classified(blank_split(t@), 0) {
                    None => r == Err::<ExecBuiltinCmd, ExecError>(ExecError::MissingTarget),
                    Some(ts) => if values_in(ts).len() == 0 {
                        r == Err::<ExecBuiltinCmd, ExecError>(ExecError::NoCommand)
                    } else {
                        r matches Ok(ExecBuiltinCmd::Type(c)) && c@ == cmd_of(
                            values_in(ts),
                            path_view(found),
                        )
                    },
                },
            },
    {
        match self {
            BuiltinCmd::Exit(code) => {
                if code.as_str().is_empty() {
                    return Ok(ExecBuiltinCmd::Exit(0));
                }
                match parse_i32(code.as_str()) {
                    Some(c) => Ok(ExecBuiltinCmd::Exit(c)),
                    None => Err(ExecError::BadExitCode),
                }
            },
            BuiltinCmd::Echo(e) => Ok(ExecBuiltinCmd::Echo(e)),
            BuiltinCmd::Pwd => Ok(ExecBuiltinCmd::Pwd),
            BuiltinCmd::Cd(d) => Ok(ExecBuiltinCmd::Cd(d)),
            BuiltinCmd::Type(t) => {
                let words = split_blanks(t.as_str());
                match parse_tokens(words) {
                    Err(_) => Err(ExecError::MissingTarget),
                    Ok((_, values)) => {
                        if values.len() == 0 {
                            return Err(ExecError::NoCommand);
                        }
                        Ok(ExecBuiltinCmd::Type(Box::new(Cmd::from_value_tokens(values, found))))
                    },
                }
            },
        }
    }
}

} // verus!
