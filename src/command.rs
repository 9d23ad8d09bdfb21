//! Commands: builtin names, resolution of a stage's command name, and the
//! standard streams of each stage of a pipeline.

use vstd::prelude::*;
use crate::parse::{RedirectModel, RedirectToken, Stage, StageModel};
use crate::text::{chars_of, string_of};

verus! {

/// The arguments of a command, after its name.
#[derive(Debug, Default, PartialEq)]
pub struct CommandArgs(pub Vec<String>);

/// A command name that is neither a builtin nor found on the search path.
#[derive(Debug, Default, PartialEq)]
pub struct InvalidCommand(pub String);

/// An executable found on the search path, with its arguments.
#[derive(Debug, Default, PartialEq)]
pub struct PathCommand {
    pub path: String,
    pub args: CommandArgs,
}

/// The commands that the shell runs itself.
#[derive(Debug, PartialEq)]
pub enum BuiltinCommand {
    Exit(CommandArgs),
    Echo(CommandArgs),
    Type(CommandArgs),
    Pwd,
    Cd(CommandArgs),
    History(CommandArgs),
}

/// A resolved command.
#[derive(Debug, PartialEq)]
pub enum Command {
    Builtin(BuiltinCommand),
    Invalid(InvalidCommand),
    Path(PathCommand),
}

/// Which builtin a name denotes (model).
pub enum BuiltinKind {
    Exit,
    Echo,
    Type,
    Pwd,
    Cd,
    History,
}

/// A resolved command (model): builtins and executables with their
/// arguments, or the name that could not be resolved.
pub enum CommandModel {
    Builtin(BuiltinKind, Seq<Seq<char>>),
    Invalid(Seq<char>),
    Path(Seq<char>, Seq<Seq<char>>),
}

impl View for CommandArgs {
    type V = Seq<Seq<char>>;

    open spec fn view(&self) -> Seq<Seq<char>> {
        self.0@.map_values(|a: String| a@)
    }
}

impl BuiltinCommand {
    /// Which builtin this is (model).
    pub open spec fn kind(&self) -> BuiltinKind {
        match self {
            BuiltinCommand::Exit(_) => BuiltinKind::Exit,
            BuiltinCommand::Echo(_) => BuiltinKind::Echo,
            BuiltinCommand::Type(_) => BuiltinKind::Type,
            BuiltinCommand::Pwd => BuiltinKind::Pwd,
            BuiltinCommand::Cd(_) => BuiltinKind::Cd,
            BuiltinCommand::History(_) => BuiltinKind::History,
        }
    }

    /// The arguments this builtin carries (model); `pwd` carries none.
    pub open spec fn arguments(&self) -> Seq<Seq<char>> {
        match self {
            BuiltinCommand::Exit(a) => a@,
            BuiltinCommand::Echo(a) => a@,
            BuiltinCommand::Type(a) => a@,
            BuiltinCommand::Pwd => Seq::empty(),
            BuiltinCommand::Cd(a) => a@,
            BuiltinCommand::History(a) => a@,
        }
    }
}

impl View for Command {
    type V = CommandModel;

    open spec fn view(&self) -> CommandModel {
        match self {
            Command::Builtin(b) => CommandModel::Builtin(b.kind(), b.arguments()),
            Command::Invalid(c) => CommandModel::Invalid(c.0@),
            Command::Path(p) => CommandModel::Path(p.path@, p.args@),
        }
    }
}

/// The name by which each builtin is called.
pub open spec fn builtin_name(k: BuiltinKind) -> Seq<char> {
    match k {
        BuiltinKind::Exit => seq!['e', 'x', 'i', 't'],
        BuiltinKind::Echo => seq!['e', 'c', 'h', 'o'],
        BuiltinKind::Type => seq!['t', 'y', 'p', 'e'],
        BuiltinKind::Pwd => seq!['p', 'w', 'd'],
        BuiltinKind::Cd => seq!['c', 'd'],
        BuiltinKind::History => seq!['h', 'i', 's', 't', 'o', 'r', 'y'],
    }
}

/// The builtin that `name` denotes exactly, if any.
pub open spec fn builtin_named(name: Seq<char>) -> Option<BuiltinKind> {
    if name == builtin_name(BuiltinKind::Exit) {
        Some(BuiltinKind::Exit)
    } else if name == builtin_name(BuiltinKind::Echo) {
        Some(BuiltinKind::Echo)
    } else if name == builtin_name(BuiltinKind::Type) {
        Some(BuiltinKind::Type)
    } else if name == builtin_name(BuiltinKind::Pwd) {
        Some(BuiltinKind::Pwd)
    } else if name == builtin_name(BuiltinKind::Cd) {
        Some(BuiltinKind::Cd)
    } else if name == builtin_name(BuiltinKind::History) {
        Some(BuiltinKind::History)
    } else {
        None
    }
}

/// What a command name resolves to: a builtin when the name is one exactly,
/// else the executable found for it on the search path, else nothing.
pub open spec fn resolution(
    name: Seq<char>,
    args: Seq<Seq<char>>,
    found: Option<Seq<char>>,
) -> CommandModel {
    match builtin_named(name) {
        Some(k) => CommandModel::Builtin(
            k,
            if k == BuiltinKind::Pwd {
                Seq::empty()
            } else {
                args
            },
        ),
        None => match found {
            Some(p) => CommandModel::Path(p, args),
            None => CommandModel::Invalid(name),
        },
    }
}

/// The characters of an optional path.
pub open spec fn path_view(p: Option<String>) -> Option<Seq<char>> {
    match p {
        Some(s) => Some(s@),
        None => None,
    }
}

/// Whether `a` and `b` hold the same characters.
pub fn same_chars(a: &[char], b: &[char]) -> (r: bool)
    ensures
        r == (a@ == b@),
{
    if a.len() != b.len() {
        return false;
    }
    let mut i: usize = 0;
    while i < a.len()
        invariant
            i <= a.len() == b.len(),
            forall|m: int| 0 <= m < i ==> a@[m] == b@[m],
        decreases a.len() - i,
    {
        if a[i] != b[i] {
            return false;
        }
        i = i + 1;
    }
    assert(a@ =~= b@);
    true
}

impl BuiltinCommand {
    /// The builtin called `name`, with no arguments yet.
    pub fn from_name(name: &str) -> (r: Option<BuiltinCommand>)
        ensures
            match r {
                Some(b) => builtin_named(name@) == Some(b.kind()) && b.arguments().len() == 0,
                None => builtin_named(name@) is None,
            },
    {
        let n = chars_of(name);
        let exit = ['e', 'x', 'i', 't'];
        let echo = ['e', 'c', 'h', 'o'];
        let typ = ['t', 'y', 'p', 'e'];
        let pwd = ['p', 'w', 'd'];
        let cd = ['c', 'd'];
        let history = ['h', 'i', 's', 't', 'o', 'r', 'y'];
        assert(exit@ =~= builtin_name(BuiltinKind::Exit));
        assert(echo@ =~= builtin_name(BuiltinKind::Echo));
        assert(typ@ =~= builtin_name(BuiltinKind::Type));
        assert(pwd@ =~= builtin_name(BuiltinKind::Pwd));
        assert(cd@ =~= builtin_name(BuiltinKind::Cd));
        assert(history@ =~= builtin_name(BuiltinKind::History));
        let none = CommandArgs(Vec::new());
        assert(none@ =~= Seq::<Seq<char>>::empty());
        if same_chars(n.as_slice(), exit.as_slice()) {
            Some(BuiltinCommand::Exit(none))
        } else if same_chars(n.as_slice(), echo.as_slice()) {
            Some(BuiltinCommand::Echo(none))
        } else if same_chars(n.as_slice(), typ.as_slice()) {
            Some(BuiltinCommand::Type(none))
        } else if same_chars(n.as_slice(), pwd.as_slice()) {
            Some(BuiltinCommand::Pwd)
        } else if same_chars(n.as_slice(), cd.as_slice()) {
            Some(BuiltinCommand::Cd(none))
        } else if same_chars(n.as_slice(), history.as_slice()) {
            Some(BuiltinCommand::History(none))
        } else {
            None
        }
    }

    /// The same builtin with `args` in place of its arguments; `pwd` takes none.
    pub fn with_args(self, args: CommandArgs) -> (r: BuiltinCommand)
        ensures
            r.kind() == self.kind(),
            r.arguments() == if self.kind() == BuiltinKind::Pwd {
                Seq::empty()
            } else {
                args@
            },
    {
        match self {
            BuiltinCommand::Exit(_) => BuiltinCommand::Exit(args),
            BuiltinCommand::Echo(_) => BuiltinCommand::Echo(args),
            BuiltinCommand::Type(_) => BuiltinCommand::Type(args),
            BuiltinCommand::Pwd => BuiltinCommand::Pwd,
            BuiltinCommand::Cd(_) => BuiltinCommand::Cd(args),
            BuiltinCommand::History(_) => BuiltinCommand::History(args),
        }
    }

    /// The name by which this builtin is called.
    pub fn name(&self) -> (r: String)
        ensures
            r@ == builtin_name(self.kind()),
    {
        let n: &[char] = match self {
            BuiltinCommand::Exit(_) => &['e', 'x', 'i', 't'],
            BuiltinCommand::Echo(_) => &['e', 'c', 'h', 'o'],
            BuiltinCommand::Type(_) => &['t', 'y', 'p', 'e'],
            BuiltinCommand::Pwd => &['p', 'w', 'd'],
            BuiltinCommand::Cd(_) => &['c', 'd'],
            BuiltinCommand::History(_) => &['h', 'i', 's', 't', 'o', 'r', 'y'],
        };
        assert(n@ =~= builtin_name(self.kind()));
        string_of(n)
    }
}

impl Command {
    /// Resolves a command name with its arguments; `found` is the first
    /// executable that the search path holds under that name, if any.
    pub fn resolve(name: &str, args: CommandArgs, found: Option<String>) -> (r: Command)
        ensures
            r@ == resolution(name@, args@, path_view(found)),
    {
        match BuiltinCommand::from_name(name) {
            Some(b) => Command::Builtin(b.with_args(args)),
            None => match found {
                Some(path) => Command::Path(PathCommand { path, args }),
                None => Command::Invalid(InvalidCommand(string_of(chars_of(name).as_slice()))),
            },
        }
    }
}

/// Where a stage reads its standard input from.
#[derive(Debug, PartialEq)]
pub enum PIn {
    /// The file at this path.
    File(String),
    /// The previous stage of the pipeline.
    Pipe,
    /// The shell's own standard input.
    Std,
}

/// One place a stage's standard output goes to.
#[derive(Debug, PartialEq)]
pub enum POut {
    /// The file at `path`, truncated first unless `append`.
    File { path: String, append: bool },
    /// The shell's own standard output.
    Std,
    /// The next stage of the pipeline.
    Pipe,
}

/// One place a stage's standard error goes to.
#[derive(Debug, PartialEq)]
pub enum PErr {
    /// The file at `path`, truncated first unless `append`.
    File { path: String, append: bool },
    /// The shell's own standard error.
    Std,
}

/// A stream endpoint (model): a file with its append flag, the shell's own
/// stream, or the pipe to a neighbouring stage.
pub enum Endpoint {
    File(Seq<char>, bool),
    Std,
    Pipe,
}

impl View for PIn {
    type V = Endpoint;

    open spec fn view(&self) -> Endpoint {
        match self {
            PIn::File(p) => Endpoint::File(p@, false),
            PIn::Pipe => Endpoint::Pipe,
            PIn::Std => Endpoint::Std,
        }
    }
}

impl View for POut {
    type V = Endpoint;

    open spec fn view(&self) -> Endpoint {
        match self {
            POut::File { path, append } => Endpoint::File(path@, *append),
            POut::Std => Endpoint::Std,
            POut::Pipe => Endpoint::Pipe,
        }
    }
}

impl View for PErr {
    type V = Endpoint;

    open spec fn view(&self) -> Endpoint {
        match self {
            PErr::File { path, append } => Endpoint::File(path@, *append),
            PErr::Std => Endpoint::Std,
        }
    }
}

/// Why a stage cannot be built.
#[derive(Debug, PartialEq, Eq)]
pub enum BuildError {
    /// The stage holds no word to name a command.
    NoCommand,
    /// An input redirection names a descriptor other than 0.
    InputDescriptor(i32),
    /// An output redirection names a descriptor other than 1 or 2.
    OutputDescriptor(i32),
}

/// Why a stage cannot be built (model).
pub enum BuildErrorModel {
    NoCommand,
    InputDescriptor(int),
    OutputDescriptor(int),
}

impl View for BuildError {
    type V = BuildErrorModel;

    open spec fn view(&self) -> BuildErrorModel {
        match self {
            BuildError::NoCommand => BuildErrorModel::NoCommand,
            BuildError::InputDescriptor(n) => BuildErrorModel::InputDescriptor(*n as int),
            BuildError::OutputDescriptor(n) => BuildErrorModel::OutputDescriptor(*n as int),
        }
    }
}

/// A stage ready to run: its command and where each standard stream goes.
/// Each output set is fanned out to: every endpoint gets the same bytes.
#[derive(Debug, PartialEq)]
pub struct StdioCommand {
    pub stdin: PIn,
    pub stdout: Vec<POut>,
    pub stderr: Vec<PErr>,
    pub inner: Command,
}

/// A stage ready to run (model).
pub struct StdioModel {
    pub stdin: Endpoint,
    pub stdout: Seq<Endpoint>,
    pub stderr: Seq<Endpoint>,
    pub command: CommandModel,
}

impl View for StdioCommand {
    type V = StdioModel;

    open spec fn view(&self) -> StdioModel {
        StdioModel {
            stdin: self.stdin@,
            stdout: self.stdout@.map_values(|o: POut| o@),
            stderr: self.stderr@.map_values(|e: PErr| e@),
            command: self.inner@,
        }
    }
}

/// The error a redirection makes, if its descriptor does not fit its kind.
pub open spec fn descriptor_error(r: RedirectModel) -> Option<BuildErrorModel> {
    match r {
        RedirectModel::Input(n, _) => if n != 0 {
            Some(BuildErrorModel::InputDescriptor(n))
        } else {
            None
        },
        RedirectModel::Output(n, _) => if n != 1 && n != 2 {
            Some(BuildErrorModel::OutputDescriptor(n))
        } else {
            None
        },
        RedirectModel::Append(n, _) => if n != 1 && n != 2 {
            Some(BuildErrorModel::OutputDescriptor(n))
        } else {
            None
        },
    }
}

/// The error of the first redirection, in order, whose descriptor is wrong.
pub open spec fn first_descriptor_error(rs: Seq<RedirectModel>) -> Option<BuildErrorModel>
    decreases rs.len(),
{
    if rs.len() == 0 {
        None
    } else {
        match first_descriptor_error(rs.drop_last()) {
            Some(e) => Some(e),
            None => descriptor_error(rs.last()),
        }
    }
}

/// The files that redirections to descriptor `fd` name, in order.
pub open spec fn redirected_to(rs: Seq<RedirectModel>, fd: int) -> Seq<Endpoint>
    decreases rs.len(),
{
    if rs.len() == 0 {
        Seq::empty()
    } else {
        let prev = redirected_to(rs.drop_last(), fd);
        match rs.last() {
            RedirectModel::Output(n, w) => if n == fd {
                prev.push(Endpoint::File(w, false))
            } else {
                prev
            },
            RedirectModel::Append(n, w) => if n == fd {
                prev.push(Endpoint::File(w, true))
            } else {
                prev
            },
            RedirectModel::Input(_, _) => prev,
        }
    }
}

/// The target of the last input redirection, if any.
pub open spec fn last_input(rs: Seq<RedirectModel>) -> Option<Seq<char>>
    decreases rs.len(),
{
    if rs.len() == 0 {
        None
    } else {
        match rs.last() {
            RedirectModel::Input(_, w) => Some(w),
            _ => last_input(rs.drop_last()),
        }
    }
}

/// An output set: the given files, or the shell's own stream when there are none.
pub open spec fn or_std(files: Seq<Endpoint>) -> Seq<Endpoint> {
    if files.len() == 0 {
        seq![Endpoint::Std]
    } else {
        files
    }
}

/// What building a stage yields: the first word names the command and the
/// rest are its arguments; the last input redirection feeds standard input,
/// and outputs go to every file redirected to them, or to the shell's own
/// streams when none is.
pub open spec fn built(g: StageModel, found: Option<Seq<char>>) -> Result<
    StdioModel,
    BuildErrorModel,
> {
    if g.words.len() == 0 {
        Err(BuildErrorModel::NoCommand)
    } else if first_descriptor_error(g.redirects) is Some {
        Err(first_descriptor_error(g.redirects)->0)
    } else {
        Ok(
            StdioModel {
                stdin: match last_input(g.redirects) {
                    Some(w) => Endpoint::File(w, false),
                    None => Endpoint::Std,
                },
                stdout: or_std(redirected_to(g.redirects, 1)),
                stderr: or_std(redirected_to(g.redirects, 2)),
                command: resolution(g.words[0], g.words.drop_first(), found),
            },
        )
    }
}

impl StdioCommand {
    /// A stage with the given streams and command.
    pub fn new(stdin: PIn, stdout: Vec<POut>, stderr: Vec<PErr>, command: Command) -> (r:
        StdioCommand)
        ensures
            r.stdin == stdin,
            r.stdout == stdout,
            r.stderr == stderr,
            r.inner == command,
    {
        StdioCommand { stdin, stdout, stderr, inner: command }
    }

    /// Builds a stage; `found` is the first executable that the search path
    /// holds under the stage's command name, if any.
    pub fn build(stage: &Stage, found: Option<String>) -> (r: Result<StdioCommand, BuildError>)
        ensures
            match r {
                Ok(c) => built(stage@, path_view(found)) == Ok::<StdioModel, BuildErrorModel>(c@),
                Err(e) => built(stage@, path_view(found)) == Err::<StdioModel, BuildErrorModel>(e@),
            },
    {
        if stage.words.len() == 0 {
            return Err(BuildError::NoCommand);
        }
        let ghost rs = stage@.redirects;
        let mut stdin = PIn::Std;
        let mut stdout: Vec<POut> = Vec::new();
        let mut stderr: Vec<PErr> = Vec::new();
        let mut i: usize = 0;
        while i < stage.redirects.len()
            invariant
                i <= stage.redirects.len(),
                stage.words.len() > 0,
                rs == stage@.redirects,
                first_descriptor_error(rs.take(i as int)) is None,
                stdin@ == match last_input(rs.take(i as int)) {
                    Some(w) => Endpoint::File(w, false),
                    None => Endpoint::Std,
                },
                stdout@.map_values(|o: POut| o@) == redirected_to(rs.take(i as int), 1),
                stderr@.map_values(|e: PErr| e@) == redirected_to(rs.take(i as int), 2),
            decreases stage.redirects.len() - i,
        {
            assert(rs.take(i + 1).drop_last() =~= rs.take(i as int));
            assert(rs.take(i + 1).last() == stage.redirects[i as int]@);
            let ghost outs = stdout@.map_values(|o: POut| o@);
            let ghost errs = stderr@.map_values(|e: PErr| e@);
            match &stage.redirects[i] {
                RedirectToken::Input { n, word } => {
                    if *n != 0 {
                        proof {
                            lemma_descriptor_error_stays(rs, i as int + 1);
                            assert(first_descriptor_error(rs) == Some(
                                BuildErrorModel::InputDescriptor(*n as int),
                            ));
                        }
                        return Err(BuildError::InputDescriptor(*n));
                    }
                    stdin = PIn::File(word.clone());
                },
                RedirectToken::Output { n, word } => {
                    if *n == 1 {
                        stdout.push(POut::File { path: word.clone(), append: false });
                        assert(stdout@.map_values(|o: POut| o@) =~= outs.push(
                            Endpoint::File(word@, false),
                        ));
                    } else if *n == 2 {
                        stderr.push(PErr::File { path: word.clone(), append: false });
                        assert(stderr@.map_values(|e: PErr| e@) =~= errs.push(
                            Endpoint::File(word@, false),
                        ));
                    } else {
                        proof {
                            lemma_descriptor_error_stays(rs, i as int + 1);
                            assert(first_descriptor_error(rs) == Some(
                                BuildErrorModel::OutputDescriptor(*n as int),
                            ));
                        }
                        return Err(BuildError::OutputDescriptor(*n));
                    }
                },
                RedirectToken::AppendOutput { n, word } => {
                    if *n == 1 {
                        stdout.push(POut::File { path: word.clone(), append: true });
                        assert(stdout@.map_values(|o: POut| o@) =~= outs.push(
                            Endpoint::File(word@, true),
                        ));
                    } else if *n == 2 {
                        stderr.push(PErr::File { path: word.clone(), append: true });
                        assert(stderr@.map_values(|e: PErr| e@) =~= errs.push(
                            Endpoint::File(word@, true),
                        ));
                    } else {
                        proof {
                            lemma_descriptor_error_stays(rs, i as int + 1);
                            assert(first_descriptor_error(rs) == Some(
                                BuildErrorModel::OutputDescriptor(*n as int),
                            ));
                        }
                        return Err(BuildError::OutputDescriptor(*n));
                    }
                },
            }
            i = i + 1;
        }
        assert(rs.take(stage.redirects.len() as int) =~= rs);
        if stdout.len() == 0 {
            stdout.push(POut::Std);
            assert(stdout@.map_values(|o: POut| o@) =~= seq![Endpoint::Std]);
        }
        if stderr.len() == 0 {
            stderr.push(PErr::Std);
            assert(stderr@.map_values(|e: PErr| e@) =~= seq![Endpoint::Std]);
        }
        let mut args: Vec<String> = Vec::new();
        let mut k: usize = 1;
        while k < stage.words.len()
            invariant
                1 <= k <= stage.words.len(),
                args@.map_values(|a: String| a@) == stage@.words.subrange(1, k as int),
            decreases stage.words.len() - k,
        {
            let ghost before = args@.map_values(|a: String| a@);
            let w = stage.words[k].clone();
            args.push(w);
            assert(args@.map_values(|a: String| a@) =~= before.push(stage@.words[k as int]));
            k = k + 1;
            assert(args@.map_values(|a: String| a@) =~= stage@.words.subrange(1, k as int));
        }
        assert(stage@.words.subrange(1, stage.words.len() as int) =~= stage@.words.drop_first());
        let inner = Command::resolve(stage.words[0].as_str(), CommandArgs(args), found);
        Ok(StdioCommand { stdin, stdout, stderr, inner })
    }
}

/// The stages of one pipeline, in order.
#[derive(Debug, PartialEq)]
pub struct PipeCommands {
    pub commands: Vec<StdioCommand>,
}

/// What becomes of a stage once the last stage has been started.
#[derive(Debug, PartialEq, Eq, Clone, Copy)]
pub enum Settle {
    /// Wait for it to finish.
    Wait,
    /// Ask it to terminate.
    Kill,
}

/// Whether no endpoint of an output set is a file.
pub open spec fn no_files(outs: Seq<Endpoint>) -> bool {
    forall|j: int| 0 <= j < outs.len() ==> !((#[trigger] outs[j]) is File)
}

/// Stage `i` of `n`, connected to its neighbours: every stage but the first
/// reads the previous stage's pipe unless a file is redirected to its input,
/// and every stage but the last writes to the next stage's pipe unless files
/// are redirected to its output, which then win over the pipe.
pub open spec fn connected(c: StdioModel, i: int, n: int) -> StdioModel {
    StdioModel {
        stdin: if i > 0 && !(c.stdin is File) {
            Endpoint::Pipe
        } else {
            c.stdin
        },
        stdout: if i + 1 < n && no_files(c.stdout) {
            seq![Endpoint::Pipe]
        } else {
            c.stdout
        },
        stderr: c.stderr,
        command: c.command,
    }
}

/// The stages of a pipeline, connected by pipes.
pub open spec fn connected_all(cs: Seq<StdioModel>) -> Seq<StdioModel> {
    Seq::new(cs.len(), |i: int| connected(cs[i], i, cs.len() as int))
}

/// Whether an output set names a file.
fn has_file(outs: &Vec<POut>) -> (r: bool)
    ensures
        r == !no_files(outs@.map_values(|o: POut| o@)),
{
    let ghost m = outs@.map_values(|o: POut| o@);
    let mut j: usize = 0;
    while j < outs.len()
        invariant
            j <= outs.len(),
            m == outs@.map_values(|o: POut| o@),
            forall|k: int| 0 <= k < j ==> !((#[trigger] m[k]) is File),
        decreases outs.len() - j,
    {
        if let POut::File { .. } = &outs[j] {
            assert(m[j as int] is File);
            return true;
        }
        j = j + 1;
    }
    false
}

impl PipeCommands {
    /// The stages of a pipeline (model).
    pub open spec fn stages(&self) -> Seq<StdioModel> {
        self.commands@.map_values(|c: StdioCommand| c@)
    }

    /// Connects consecutive stages by pipes.
    pub fn new(commands: Vec<StdioCommand>) -> (r: PipeCommands)
        ensures
            r.stages() == connected_all(commands@.map_values(|c: StdioCommand| c@)),
    {
        let ghost orig = commands@.map_values(|c: StdioCommand| c@);
        let n = commands.len();
        let mut rest = commands;
        let mut out: Vec<StdioCommand> = Vec::new();
        let mut i: usize = 0;
        while i < n
            invariant
                i <= n == orig.len(),
                rest.len() == n - i,
                rest@.map_values(|c: StdioCommand| c@) == orig.skip(i as int),
                out@.map_values(|c: StdioCommand| c@) == connected_all(orig).take(i as int),
            decreases n - i,
        {
            assert(rest@.map_values(|c: StdioCommand| c@)[0] == orig[i as int]);
            let ghost before = out@.map_values(|c: StdioCommand| c@);
            let ghost before_rest = rest@;
            let mut c = rest.remove(0);
            assert forall|k: int| 0 <= k < rest@.len() implies rest@[k]@ == orig.skip(i + 1)[k] by {
                assert(rest@[k] == before_rest[k + 1]);
                assert(before_rest.map_values(|c: StdioCommand| c@)[k + 1] == orig.skip(
                    i as int,
                )[k + 1]);
            }
            assert(rest@.map_values(|c: StdioCommand| c@) =~= orig.skip(i + 1));
            let ghost spec_c = connected(orig[i as int], i as int, n as int);
            if i > 0 {
                if let PIn::File(_) = &c.stdin {
                } else {
                    c.stdin = PIn::Pipe;
                }
            }
            if i + 1 < n && !has_file(&c.stdout) {
                let mut pipe: Vec<POut> = Vec::new();
                pipe.push(POut::Pipe);
                c.stdout = pipe;
                assert(c@.stdout =~= seq![Endpoint::Pipe]);
            }
            assert(c@ == spec_c);
            assert(connected_all(orig)[i as int] == spec_c);
            out.push(c);
            assert(out@.map_values(|c: StdioCommand| c@) =~= before.push(spec_c));
            assert(out@.map_values(|c: StdioCommand| c@) =~= connected_all(orig).take(i + 1));
            i = i + 1;
        }
        PipeCommands { commands: out }
    }

    /// What to do with each stage once all are started: wait for the last
    /// and terminate every earlier one.
    pub fn settlement(&self) -> (r: Vec<Settle>)
        ensures
            r@.len() == self.commands.len(),
            forall|i: int|
                0 <= i < r@.len() ==> #[trigger] r@[i] == if i + 1 == r@.len() {
                    Settle::Wait
                } else {
                    Settle::Kill
                },
    {
        let n = self.commands.len();
        let mut r: Vec<Settle> = Vec::new();
        let mut i: usize = 0;
        while i < n
            invariant
                i <= n,
                r@.len() == i,
                forall|k: int|
                    0 <= k < i ==> #[trigger] r@[k] == if k + 1 == n {
                        Settle::Wait
                    } else {
                        Settle::Kill
                    },
            decreases n - i,
        {
            if i + 1 == n {
                r.push(Settle::Wait);
            } else {
                r.push(Settle::Kill);
            }
            i = i + 1;
        }
        r
    }
}

/// The stages of a parsed line built one by one, where `found[i]` is what
/// the search path holds under the command name of stage `i`; the first
/// stage, from left to right, that cannot be built gives the error.
pub open spec fn built_stages(line: Seq<StageModel>, found: Seq<Option<Seq<char>>>) -> Result<
    Seq<StdioModel>,
    BuildErrorModel,
>
    decreases line.len(),
{
    if line.len() == 0 || found.len() == 0 {
        Ok(Seq::empty())
    } else {
        match built_stages(line.drop_last(), found.drop_last()) {
            Err(e) => Err(e),
            Ok(prev) => match built(line.last(), found.last()) {
                Ok(c) => Ok(prev.push(c)),
                Err(e) => Err(e),
            },
        }
    }
}

/// A parsed line built into a pipeline whose stages are connected by pipes.
pub open spec fn built_line(line: Seq<StageModel>, found: Seq<Option<Seq<char>>>) -> Result<
    Seq<StdioModel>,
    BuildErrorModel,
> {
    match built_stages(line, found) {
        Ok(cs) => Ok(connected_all(cs)),
        Err(e) => Err(e),
    }
}

impl PipeCommands {
    /// Builds every stage of a parsed line and connects them by pipes;
    /// `found[i]` is the first executable that the search path holds under
    /// the command name of stage `i`, if any.
    pub fn build(line: &Vec<Stage>, found: &Vec<Option<String>>) -> (r: Result<
        PipeCommands,
        BuildError,
    >)
        requires
            line.len() == found.len(),
        ensures
            match r {
                Ok(p) => built_line(
                    line@.map_values(|g: Stage| g@),
                    found@.map_values(|f: Option<String>| path_view(f)),
                ) == Ok::<Seq<StdioModel>, BuildErrorModel>(p.stages()),
                Err(e) => built_line(
                    line@.map_values(|g: Stage| g@),
                    found@.map_values(|f: Option<String>| path_view(f)),
                ) == Err::<Seq<StdioModel>, BuildErrorModel>(e@),
            },
    {
        let ghost l = line@.map_values(|g: Stage| g@);
        let ghost f = found@.map_values(|f: Option<String>| path_view(f));
        let mut cs: Vec<StdioCommand> = Vec::new();
        let mut i: usize = 0;
        assert(l.take(0) =~= Seq::<StageModel>::empty());
        assert(f.take(0) =~= Seq::<Option<Seq<char>>>::empty());
        assert(cs@.map_values(|c: StdioCommand| c@) =~= Seq::<StdioModel>::empty());
        while i < line.len()
            invariant
                i <= line.len() == found.len(),
                cs.len() == i,
                l == line@.map_values(|g: Stage| g@),
                f == found@.map_values(|f: Option<String>| path_view(f)),
                built_stages(l.take(i as int), f.take(i as int)) == Ok::<
                    Seq<StdioModel>,
                    BuildErrorModel,
                >(cs@.map_values(|c: StdioCommand| c@)),
            decreases line.len() - i,
        {
            assert(l.take(i + 1).drop_last() =~= l.take(i as int));
            assert(f.take(i + 1).drop_last() =~= f.take(i as int));
            let ghost prev = cs@.map_values(|c: StdioCommand| c@);
            let fi = match &found[i] {
                Some(p) => Some(p.clone()),
                None => None,
            };
            assert(path_view(fi) == f[i as int]);
            match StdioCommand::build(&line[i], fi) {
                Ok(c) => {
                    let ghost cv = c@;
                    cs.push(c);
                    assert(cs@.map_values(|c: StdioCommand| c@) =~= prev.push(cv));
                },
                Err(e) => {
                    proof {
                        lemma_build_error_stays(l, f, i as int + 1);
                    }
                    return Err(e);
                },
            }
            i = i + 1;
        }
        assert(l.take(line.len() as int) =~= l);
        assert(f.take(line.len() as int) =~= f);
        Ok(PipeCommands::new(cs))
    }
}

/// Once the stages of some prefix cannot be built, neither can the whole
/// line, for the same reason.
proof fn lemma_build_error_stays(l: Seq<StageModel>, f: Seq<Option<Seq<char>>>, k: int)
    requires
        0 <= k <= l.len() == f.len(),
        built_stages(l.take(k), f.take(k)) is Err,
    ensures
        built_stages(l, f) == built_stages(l.take(k), f.take(k)),
    decreases l.len() - k,
{
    if k < l.len() {
        assert(l.take(k + 1).drop_last() =~= l.take(k));
        assert(f.take(k + 1).drop_last() =~= f.take(k));
        lemma_build_error_stays(l, f, k + 1);
    } else {
        assert(l.take(k) =~= l);
        assert(f.take(k) =~= f);
    }
}

/// Once some prefix of the redirections has a wrong descriptor, every longer
/// prefix reports the same one.
proof fn lemma_descriptor_error_stays(rs: Seq<RedirectModel>, k: int)
    requires
        0 <= k <= rs.len(),
        first_descriptor_error(rs.take(k)) is Some,
    ensures
        first_descriptor_error(rs) == first_descriptor_error(rs.take(k)),
    decreases rs.len() - k,
{
    if k < rs.len() {
        assert(rs.take(k + 1).drop_last() =~= rs.take(k));
        lemma_descriptor_error_stays(rs, k + 1);
    } else {
        assert(rs.take(k) =~= rs);
    }
}

} // verus!
