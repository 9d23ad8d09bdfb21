//! The files that a command's output streams are redirected to, grouped by
//! stream and by whether they are appended to.

use vstd::prelude::*;
use crate::parser::token::{RedirectToken, Target};

verus! {

/// Redirections grouped by stream and mode, each group in the order given.
#[derive(Debug, Default, PartialEq, Eq)]
pub struct Redirector {
    pub stdout: Vec<RedirectToken>,
    pub stderr: Vec<RedirectToken>,
    pub stdout_append: Vec<RedirectToken>,
    pub stderr_append: Vec<RedirectToken>,
}

/// The targets of the redirections of kind `t`, in order.
pub open spec fn of_kind(rs: Seq<(Target, Seq<char>)>, t: Target) -> Seq<Seq<char>>
    decreases rs.len(),
{
    if rs.len() == 0 {
        Seq::empty()
    } else if rs.last().0 == t {
        of_kind(rs.drop_last(), t).push(rs.last().1)
    } else {
        of_kind(rs.drop_last(), t)
    }
}

/// The targets of a group of redirections.
pub open spec fn targets(g: Seq<RedirectToken>) -> Seq<Seq<char>> {
    g.map_values(|r: RedirectToken| r@.1)
}

impl Redirector {
    /// Groups `redirects` by stream and mode.
    pub fn new(redirects: Vec<RedirectToken>) -> (r: Redirector)
        ensures
            targets(r.stdout@) == of_kind(redirects@.map_values(|x: RedirectToken| x@), Target::Stdout),
            targets(r.stderr@) == of_kind(redirects@.map_values(|x: RedirectToken| x@), Target::Stderr),
            targets(r.stdout_append@) == of_kind(
                redirects@.map_values(|x: RedirectToken| x@),
                Target::StdoutAppend,
            ),
            targets(r.stderr_append@) == of_kind(
                redirects@.map_values(|x: RedirectToken| x@),
                Target::StderrAppend,
            ),
            forall|i: int| 0 <= i < r.stdout@.len() ==> (#[trigger] r.stdout@[i])@.0 == Target::Stdout,
            forall|i: int| 0 <= i < r.stderr@.len() ==> (#[trigger] r.stderr@[i])@.0 == Target::Stderr,
            forall|i: int|
                0 <= i < r.stdout_append@.len() ==> (#[trigger] r.stdout_append@[i])@.0
                    == Target::StdoutAppend,
            forall|i: int|
                0 <= i < r.stderr_append@.len() ==> (#[trigger] r.stderr_append@[i])@.0
                    == Target::StderrAppend,
    {
        let ghost rs = redirects@.map_values(|x: RedirectToken| x@);
        let mut out = Redirector {
            stdout: Vec::new(),
            stderr: Vec::new(),
            stdout_append: Vec::new(),
            stderr_append: Vec::new(),
        };
        let mut rest = redirects;
        let n = rest.len();
        let mut i: usize = 0;
        assert(rs.take(0) =~= Seq::<(Target, Seq<char>)>::empty());
        assert(targets(out.stdout@) =~= Seq::<Seq<char>>::empty());
        assert(targets(out.stderr@) =~= Seq::<Seq<char>>::empty());
        assert(targets(out.stdout_append@) =~= Seq::<Seq<char>>::empty());
        assert(targets(out.stderr_append@) =~= Seq::<Seq<char>>::empty());
        while i < n
            invariant
                i <= n == rs.len(),
                rest.len() == n - i,
                rest@.map_values(|x: RedirectToken| x@) == rs.skip(i as int),
                targets(out.stdout@) == of_kind(rs.take(i as int), Target::Stdout),
                targets(out.stderr@) == of_kind(rs.take(i as int), Target::Stderr),
                targets(out.stdout_append@) == of_kind(rs.take(i as int), Target::StdoutAppend),
                targets(out.stderr_append@) == of_kind(rs.take(i as int), Target::StderrAppend),
                forall|k: int| 0 <= k < out.stdout@.len() ==> (#[trigger] out.stdout@[k])@.0 == Target::Stdout,
                forall|k: int| 0 <= k < out.stderr@.len() ==> (#[trigger] out.stderr@[k])@.0 == Target::Stderr,
                forall|k: int|
                    0 <= k < out.stdout_append@.len() ==> (#[trigger] out.stdout_append@[k])@.0
                        == Target::StdoutAppend,
                forall|k: int|
                    0 <= k < out.stderr_append@.len() ==> (#[trigger] out.stderr_append@[k])@.0
                        == Target::StderrAppend,
            decreases n - i,
        {
            assert(rs.take(i + 1).drop_last() =~= rs.take(i as int));
            assert(rest@.map_values(|x: RedirectToken| x@)[0] == rs[i as int]);
            let ghost before_rest = rest@;
            let r = rest.remove(0);
            assert forall|k: int| 0 <= k < rest@.len() implies rest@[k]@ == rs.skip(i + 1)[k] by {
                assert(rest@[k] == before_rest[k + 1]);
                assert(before_rest.map_values(|x: RedirectToken| x@)[k + 1] == rs.skip(i as int)[k + 1]);
            }
            assert(rest@.map_values(|x: RedirectToken| x@) =~= rs.skip(i + 1));
            let ghost rv = r@;
            match r {
                RedirectToken::Stdout(_) => {
                    let ghost before = targets(out.stdout@);
                    out.stdout.push(r);
                    assert(targets(out.stdout@) =~= before.push(rv.1));
                },
                RedirectToken::Stderr(_) => {
                    let ghost before = targets(out.stderr@);
                    out.stderr.push(r);
                    assert(targets(out.stderr@) =~= before.push(rv.1));
                },
                RedirectToken::StdoutAppend(_) => {
                    let ghost before = targets(out.stdout_append@);
                    out.stdout_append.push(r);
                    assert(targets(out.stdout_append@) =~= before.push(rv.1));
                },
                RedirectToken::StderrAppend(_) => {
                    let ghost before = targets(out.stderr_append@);
                    out.stderr_append.push(r);
                    assert(targets(out.stderr_append@) =~= before.push(rv.1));
                },
            }
            i = i + 1;
        }
        assert(rs.take(n as int) =~= rs);
        out
    }
}

} // verus!
