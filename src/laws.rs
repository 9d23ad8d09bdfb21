//! Properties that relate several parts of the shell.

use vstd::prelude::*;
use crate::builtin::not_found_line;
use crate::command::{
    built, built_line, built_stages, builtin_named, connected_all, first_descriptor_error,
    resolution, CommandModel, StdioModel,
};
use crate::parse::StageModel;
use crate::search::first_present;

verus! {

/// When no candidate is present, nothing is found.
pub proof fn lemma_nothing_present(cands: Seq<Seq<char>>, present: Seq<bool>)
    requires
        forall|i: int| 0 <= i < present.len() ==> !#[trigger] present[i],
    ensures
        first_present(cands, present) is None,
    decreases cands.len(),
{
    if cands.len() > 0 && present.len() > 0 {
        assert(!present[0]);
        assert forall|i: int| 0 <= i < present.drop_first().len() implies !#[trigger] present.drop_first()[i] by {
            assert(present.drop_first()[i] == present[i + 1]);
        }
        lemma_nothing_present(cands.drop_first(), present.drop_first());
    }
}

/// A name that is no builtin and that no directory of the search path holds
/// resolves to an invalid command, which reports `<name>: command not found`.
pub proof fn lemma_unknown_command_invalid(
    name: Seq<char>,
    args: Seq<Seq<char>>,
    cands: Seq<Seq<char>>,
    present: Seq<bool>,
)
    requires
        builtin_named(name) is None,
        forall|i: int| 0 <= i < present.len() ==> !#[trigger] present[i],
    ensures
        resolution(name, args, first_present(cands, present)) == CommandModel::Invalid(name),
        not_found_line(name) == name + ": command not found\n"@,
{
    lemma_nothing_present(cands, present);
}

/// A stage whose command name is no builtin and is held by no directory of
/// the search path builds, once its redirections name valid descriptors,
/// into a stage that runs an invalid command: resolving an unknown name never
/// fails the build.
pub proof fn lemma_unknown_stage_invalid(
    g: StageModel,
    cands: Seq<Seq<char>>,
    present: Seq<bool>,
)
    requires
        g.words.len() > 0,
        first_descriptor_error(g.redirects) is None,
        builtin_named(g.words[0]) is None,
        forall|i: int| 0 <= i < present.len() ==> !#[trigger] present[i],
    ensures
        built(g, first_present(cands, present)) matches Ok(c) && c.command == CommandModel::Invalid(
            g.words[0],
        ),
{
    lemma_nothing_present(cands, present);
}

/// The command each stage of a parsed line resolves to, given what the
/// search path holds under each stage's command name.
pub open spec fn resolved_commands(
    line: Seq<StageModel>,
    found: Seq<Option<Seq<char>>>,
) -> Seq<CommandModel> {
    Seq::new(
        line.len(),
        |i: int| resolution(line[i].words[0], line[i].words.drop_first(), found[i]),
    )
}

/// The commands of built stages, in order.
pub open spec fn commands_of(cs: Seq<StdioModel>) -> Seq<CommandModel> {
    cs.map_values(|c: StdioModel| c.command)
}

proof fn lemma_built_stages_commands(line: Seq<StageModel>, found: Seq<Option<Seq<char>>>)
    requires
        line.len() == found.len(),
    ensures
        built_stages(line, found) matches Ok(cs) ==> cs.len() == line.len() && commands_of(cs)
            == resolved_commands(line, found),
    decreases line.len(),
{
    if line.len() > 0 {
        lemma_built_stages_commands(line.drop_last(), found.drop_last());
        if let Ok(cs) = built_stages(line, found) {
            let prev = built_stages(line.drop_last(), found.drop_last())->Ok_0;
            let last = built(line.last(), found.last())->Ok_0;
            assert(cs == prev.push(last));
            assert(last.command == resolution(
                line.last().words[0],
                line.last().words.drop_first(),
                found.last(),
            ));
            let n = line.len() as int;
            assert forall|i: int| 0 <= i < n implies #[trigger] commands_of(cs)[i]
                == resolved_commands(line, found)[i] by {
                if i < n - 1 {
                    assert(commands_of(cs)[i] == commands_of(prev)[i]);
                    assert(line.drop_last()[i] == line[i]);
                    assert(found.drop_last()[i] == found[i]);
                    assert(commands_of(prev)[i] == resolved_commands(
                        line.drop_last(),
                        found.drop_last(),
                    )[i]);
                }
            }
            assert(commands_of(cs) =~= resolved_commands(line, found));
        }
    } else {
        if let Ok(cs) = built_stages(line, found) {
            assert(commands_of(cs) =~= resolved_commands(line, found));
        }
    }
}

/// Building a parsed line is repeatable: whenever it succeeds, stage `i`
/// runs the command that its first word resolves to under `found[i]`, and
/// nothing else, so building the same line twice under the same search
/// results yields equal command sequences.
pub proof fn lemma_build_repeatable(line: Seq<StageModel>, found: Seq<Option<Seq<char>>>)
    requires
        line.len() == found.len(),
    ensures
        built_line(line, found) matches Ok(cs) ==> commands_of(cs) == resolved_commands(
            line,
            found,
        ),
{
    lemma_built_stages_commands(line, found);
    if let Ok(cs) = built_stages(line, found) {
        assert(commands_of(connected_all(cs)) =~= commands_of(cs));
    }
}

} // verus!
