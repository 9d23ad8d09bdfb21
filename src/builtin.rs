//! What the builtins print and decide. Running them (changing directory,
//! leaving the process, reading the history file) is left to the caller,
//! which hands over what it read and acts on what is returned.

use vstd::prelude::*;
use crate::command::{builtin_named, CommandArgs};
use crate::text::{
    chars_of, decimal, decimal_chars, join_with, joined_with, parse_i32, parse_usize, parsed_i32,
    parsed_usize, push_str, split_chars, split_on, string_of, sub_chars, lemma_split_on_nonempty,
};

verus! {

/// The line printed, on standard output, for a command that cannot be found.
pub open spec fn not_found_line(name: Seq<char>) -> Seq<char> {
    name + ": command not found\n"@
}

/// The line printed for a command that cannot be found.
pub fn command_not_found(name: &str) -> (r: String)
    ensures
        r@ == not_found_line(name@),
{
    let mut out: Vec<char> = Vec::new();
    push_str(&mut out, name);
    push_str(&mut out, ": command not found\n");
    string_of(out.as_slice())
}

/// What `echo` prints: its arguments separated by single spaces, then a newline.
pub open spec fn echo_line(args: Seq<Seq<char>>) -> Seq<char> {
    joined_with(args, " "@) + "\n"@
}

/// What `echo` prints.
pub fn echo_output(args: &CommandArgs) -> (r: String)
    ensures
        r@ == echo_line(args@),
{
    let mut out = join_with(&args.0, " ");
    push_str(&mut out, "\n");
    string_of(out.as_slice())
}

/// The line `type` prints for one argument: builtins first, then the
/// executable found on the search path, else that nothing was found.
pub open spec fn type_line(arg: Seq<char>, found: Option<Seq<char>>) -> Seq<char> {
    if builtin_named(arg) is Some {
        arg + " is a shell builtin\n"@
    } else {
        match found {
            Some(p) => arg + " is "@ + p + "\n"@,
            None => arg + ": not found\n"@,
        }
    }
}

/// What `type` prints for `args`, where `found[i]` is the executable that
/// the search path holds under `args[i]`, if any.
pub open spec fn type_lines(args: Seq<Seq<char>>, found: Seq<Option<Seq<char>>>) -> Seq<char>
    decreases args.len(),
{
    if args.len() == 0 || found.len() == 0 {
        Seq::empty()
    } else {
        type_lines(args.drop_last(), found.drop_last()) + type_line(args.last(), found.last())
    }
}

/// What `type` prints for `args`; `found[i]` is the executable that the
/// search path holds under `args[i]`, if any.
pub fn type_output(args: &CommandArgs, found: &Vec<Option<String>>) -> (r: String)
    requires
        found.len() == args.0.len(),
    ensures
        r@ == type_lines(args@, found@.map_values(|f: Option<String>| crate::command::path_view(f))),
{
    let ghost a = args@;
    let ghost f = found@.map_values(|f: Option<String>| crate::command::path_view(f));
    let mut out: Vec<char> = Vec::new();
    let mut i: usize = 0;
    while i < args.0.len()
        invariant
            i <= args.0.len() == found.len(),
            a == args@,
            f == found@.map_values(|f: Option<String>| crate::command::path_view(f)),
            out@ == type_lines(a.take(i as int), f.take(i as int)),
        decreases args.0.len() - i,
    {
        assert(a.take(i + 1).drop_last() =~= a.take(i as int));
        assert(f.take(i + 1).drop_last() =~= f.take(i as int));
        let arg = args.0[i].as_str();
        let ghost before = out@;
        push_str(&mut out, arg);
        if crate::command::BuiltinCommand::from_name(arg).is_some() {
            push_str(&mut out, " is a shell builtin\n");
        } else {
            match &found[i] {
                Some(p) => {
                    push_str(&mut out, " is ");
                    push_str(&mut out, p.as_str());
                    push_str(&mut out, "\n");
                },
                None => {
                    push_str(&mut out, ": not found\n");
                },
            }
        }
        assert(out@ =~= before + type_line(a[i as int], f[i as int]));
        i = i + 1;
    }
    assert(a.take(args.0.len() as int) =~= a);
    assert(f.take(args.0.len() as int) =~= f);
    string_of(out.as_slice())
}

/// How `exit` leaves the shell: with `code`, after writing `message` to
/// standard error when there is one.
#[derive(Debug, PartialEq, Eq)]
pub struct ExitPlan {
    pub code: i32,
    pub message: Option<String>,
}

/// The status `exit` leaves with when its argument is not a number.
pub const BAD_EXIT_ARGUMENT: i32 = -1;

/// How `exit` leaves: with status 0 when given no argument, with the first
/// argument when it is an `i32`, else with `BAD_EXIT_ARGUMENT` after
/// complaining about all its arguments.
pub open spec fn exit_decision(args: Seq<Seq<char>>) -> (int, Option<Seq<char>>) {
    if args.len() == 0 {
        (0, None)
    } else {
        match parsed_i32(args[0]) {
            Some(v) => (v, None),
            None => (
                BAD_EXIT_ARGUMENT as int,
                Some("invalid args: ["@ + joined_with(args, ","@) + "]"@),
            ),
        }
    }
}

/// How `exit` leaves the shell.
pub fn exit_plan(args: &CommandArgs) -> (r: ExitPlan)
    ensures
        r.code as int == exit_decision(args@).0,
        match r.message {
            Some(m) => exit_decision(args@).1 == Some(m@),
            None => exit_decision(args@).1 is None,
        },
{
    if args.0.len() == 0 {
        return ExitPlan { code: 0, message: None };
    }
    match parse_i32(args.0[0].as_str()) {
        Some(code) => ExitPlan { code, message: None },
        None => {
            let mut out: Vec<char> = Vec::new();
            push_str(&mut out, "invalid args: [");
            let mut all = join_with(&args.0, ",");
            out.append(&mut all);
            push_str(&mut out, "]");
            ExitPlan { code: BAD_EXIT_ARGUMENT, message: Some(string_of(out.as_slice())) }
        },
    }
}

/// What `pwd` prints for the working directory `dir`.
pub fn pwd_output(dir: &str) -> (r: String)
    ensures
        r@ == dir@ + "\n"@,
{
    let mut out: Vec<char> = Vec::new();
    push_str(&mut out, dir);
    push_str(&mut out, "\n");
    string_of(out.as_slice())
}

/// A path with a leading `~` that stands alone or before `/` replaced by
/// `home`; any other path as it is.
pub open spec fn tilde_expansion(path: Seq<char>, home: Seq<char>) -> Seq<char> {
    if path.len() > 0 && path[0] == '~' && (path.len() == 1 || path[1] == '/') {
        home + path.drop_first()
    } else {
        path
    }
}

/// Relies on `shellexpand::tilde_with_context`: a leading `~` that stands
/// alone or before `/` becomes the home directory it is given; any other input
/// comes back unchanged.
#[verifier::external_body]
fn expand_tilde(path: &str, home: &str) -> (r: String)
    ensures
        r@ == tilde_expansion(path@, home@),
{
    shellexpand::tilde_with_context(path, || Some(home)).into_owned()
}

/// The home directory with a `/` at its end.
pub open spec fn home_prefix(home: Seq<char>) -> Seq<char> {
    if home.len() > 0 && home.last() == '/' {
        home
    } else {
        home.push('/')
    }
}

/// The directory `cd` changes to for `args`, or the complaint it prints when
/// it is not given exactly one path. A leading `~` stands for the home
/// directory, with a `/` added at its end when missing, when the home is known.
pub open spec fn cd_decision(args: Seq<Seq<char>>, home: Option<Seq<char>>) -> Result<
    Seq<char>,
    Seq<char>,
> {
    if args.len() != 1 {
        Err("cd: No path given"@)
    } else {
        match home {
            Some(h) => Ok(tilde_expansion(args[0], home_prefix(h))),
            None => Ok(args[0]),
        }
    }
}

/// The directory `cd` changes to, or what it prints when it cannot tell.
pub fn cd_target(args: &CommandArgs, home: Option<String>) -> (r: Result<String, String>)
    ensures
        match r {
            Ok(d) => cd_decision(args@, crate::command::path_view(home)) == Ok::<
                Seq<char>,
                Seq<char>,
            >(d@),
            Err(m) => cd_decision(args@, crate::command::path_view(home)) == Err::<
                Seq<char>,
                Seq<char>,
            >(m@),
        },
{
    if args.0.len() != 1 {
        let mut out: Vec<char> = Vec::new();
        push_str(&mut out, "cd: No path given");
        return Err(string_of(out.as_slice()));
    }
    let path = args.0[0].as_str();
    match home {
        Some(h) => {
            let mut prefix = chars_of(h.as_str());
            if !(prefix.len() > 0 && prefix[prefix.len() - 1] == '/') {
                prefix.push('/');
            }
            let prefix = string_of(prefix.as_slice());
            Ok(expand_tilde(path, prefix.as_str()))
        },
        None => Ok(args.0[0].clone()),
    }
}

/// What `cd` prints on standard error when it cannot enter `path`, the path
/// as it was given.
pub open spec fn cd_failure_line(path: Seq<char>) -> Seq<char> {
    "cd: "@ + path + ": No such file or directory\n"@
}

/// What `cd` prints when it cannot enter `path`.
pub fn cd_failure(path: &str) -> (r: String)
    ensures
        r@ == cd_failure_line(path@),
{
    let mut out: Vec<char> = Vec::new();
    push_str(&mut out, "cd: ");
    push_str(&mut out, path);
    push_str(&mut out, ": No such file or directory\n");
    string_of(out.as_slice())
}

/// A line without the carriage return that may end it.
pub open spec fn without_cr(l: Seq<char>) -> Seq<char> {
    if l.len() > 0 && l.last() == '\r' {
        l.drop_last()
    } else {
        l
    }
}

/// The lines of a text as `BufRead::lines` yields them: split on newlines,
/// with no empty line after a final newline, each without a final carriage
/// return.
pub open spec fn text_lines(content: Seq<char>) -> Seq<Seq<char>> {
    let fields = split_on(content, '\n');
    let ls = if fields.last().len() == 0 {
        fields.drop_last()
    } else {
        fields
    };
    ls.map_values(|l: Seq<char>| without_cr(l))
}

/// One entry of the history listing: its number, from 1, and the line.
pub open spec fn history_entry(id: nat, line: Seq<char>) -> Seq<char> {
    "    "@ + decimal_chars(id) + " "@ + line + "\n"@
}

/// The entries for lines `from..to`.
pub open spec fn history_entries(lines: Seq<Seq<char>>, from: int, to: int) -> Seq<char>
    decreases to - from,
{
    if to <= from {
        Seq::empty()
    } else {
        history_entries(lines, from, to - 1) + history_entry(to as nat, lines[to - 1])
    }
}

/// What `history` prints, on standard output and on standard error, for the
/// history file `content`: every entry, or the last `n` when the first
/// argument reads as a number `n`; an argument that is no number is reported
/// and all entries are listed.
pub open spec fn history_decision(content: Seq<char>, args: Seq<Seq<char>>) -> (Seq<char>, Seq<char>) {
    let lines = text_lines(content);
    let limit = if args.len() > 0 {
        parsed_usize(args[0])
    } else {
        None
    };
    let skip = match limit {
        Some(n) => if n < lines.len() {
            lines.len() - n
        } else {
            0
        },
        None => 0,
    };
    let err = if args.len() > 0 && limit is None {
        "invalid limiting entries, not a number: "@ + args[0] + "\n"@
    } else {
        Seq::empty()
    };
    (history_entries(lines, skip, lines.len() as int), err)
}

/// What `history` prints for the history file `content`: on standard output,
/// then on standard error.
pub fn history_output(content: &str, args: &CommandArgs) -> (r: (String, String))
    ensures
        (r.0@, r.1@) == history_decision(content@, args@),
{
    let c = chars_of(content);
    let mut fields = split_chars(&c, '\n');
    let ghost fs = split_on(content@, '\n');
    proof {
        lemma_split_on_nonempty(content@, '\n');
    }
    if fields[fields.len() - 1].len() == 0 {
        fields.pop();
        assert(fields@.map_values(|f: Vec<char>| f@) =~= fs.drop_last());
    }
    let ghost ls = fields@.map_values(|f: Vec<char>| f@);
    let mut lines: Vec<Vec<char>> = Vec::new();
    let mut i: usize = 0;
    while i < fields.len()
        invariant
            i <= fields.len(),
            ls == fields@.map_values(|f: Vec<char>| f@),
            lines@.map_values(|f: Vec<char>| f@) == ls.take(i as int).map_values(
                |l: Seq<char>| without_cr(l),
            ),
        decreases fields.len() - i,
    {
        let ghost before = lines@.map_values(|f: Vec<char>| f@);
        let f = &fields[i];
        let l = if f.len() > 0 && f[f.len() - 1] == '\r' {
            sub_chars(f, 0, f.len() - 1)
        } else {
            sub_chars(f, 0, f.len())
        };
        proof {
            assert(f@.subrange(0, f@.len() as int) =~= f@);
            assert(f@.len() > 0 ==> f@.subrange(0, f@.len() - 1) =~= f@.drop_last());
        }
        assert(f@ == ls[i as int]);
        assert(l@ == without_cr(ls[i as int]));
        let ghost lv = l@;
        lines.push(l);
        assert(lines@.map_values(|f: Vec<char>| f@) =~= before.push(lv));
        assert(ls.take(i + 1).map_values(|l: Seq<char>| without_cr(l)) =~= ls.take(
            i as int,
        ).map_values(|l: Seq<char>| without_cr(l)).push(without_cr(ls[i as int])));
        i = i + 1;
    }
    assert(ls.take(fields.len() as int) =~= ls);
    let ghost lm = lines@.map_values(|f: Vec<char>| f@);
    assert(lm == text_lines(content@));
    let count = lines.len();
    let mut skip: usize = 0;
    let mut err: Vec<char> = Vec::new();
    if args.0.len() > 0 {
        match parse_usize(args.0[0].as_str()) {
            Some(n) => {
                skip = if n < count {
                    count - n
                } else {
                    0
                };
            },
            None => {
                push_str(&mut err, "invalid limiting entries, not a number: ");
                push_str(&mut err, args.0[0].as_str());
                push_str(&mut err, "\n");
            },
        }
    }
    assert(err@ =~= history_decision(content@, args@).1);
    let mut out: Vec<char> = Vec::new();
    let mut k = skip;
    while k < count
        invariant
            skip <= k <= count == lines.len(),
            lm == lines@.map_values(|f: Vec<char>| f@),
            out@ == history_entries(lm, skip as int, k as int),
        decreases count - k,
    {
        push_str(&mut out, "    ");
        let mut id = decimal(k + 1);
        out.append(&mut id);
        push_str(&mut out, " ");
        let mut line = sub_chars(&lines[k], 0, lines[k].len());
        out.append(&mut line);
        push_str(&mut out, "\n");
        assert(lines@[k as int]@.subrange(0, lines@[k as int]@.len() as int) =~= lines@[k as int]@);
        assert(out@ =~= history_entries(lm, skip as int, k + 1));
        k = k + 1;
    }
    (string_of(out.as_slice()), string_of(err.as_slice()))
}

} // verus!
