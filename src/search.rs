//! The search path: the places where an executable may stand, and the first
//! of them that holds one.

use vstd::prelude::*;
use crate::text::{chars_of, split_chars, split_on, string_of};

verus! {

/// `name` under directory `dir`: an absolute name stands alone, and a
/// separator is put between the two unless `dir` is empty or ends in one.
pub open spec fn joined(dir: Seq<char>, name: Seq<char>) -> Seq<char> {
    if name.len() > 0 && name[0] == '/' {
        name
    } else if dir.len() == 0 || dir.last() == '/' {
        dir + name
    } else {
        dir + seq!['/'] + name
    }
}

/// The paths at which an executable called `name` is looked for, one per
/// field of the search path, in its order.
pub open spec fn candidates(search_path: Seq<char>, name: Seq<char>) -> Seq<Seq<char>> {
    split_on(search_path, ':').map_values(|d: Seq<char>| joined(d, name))
}

/// The first candidate that is present.
pub open spec fn first_present(cands: Seq<Seq<char>>, present: Seq<bool>) -> Option<Seq<char>>
    decreases cands.len(),
{
    if cands.len() == 0 || present.len() == 0 {
        None
    } else if present[0] {
        Some(cands[0])
    } else {
        first_present(cands.drop_first(), present.drop_first())
    }
}

/// `name` under directory `dir`.
pub fn join(dir: &Vec<char>, name: &Vec<char>) -> (r: Vec<char>)
    ensures
        r@ == joined(dir@, name@),
{
    if name.len() > 0 && name[0] == '/' {
        return name.clone();
    }
    let mut out = dir.clone();
    if !(dir.len() == 0 || dir[dir.len() - 1] == '/') {
        out.push('/');
    }
    let mut tail = name.clone();
    out.append(&mut tail);
    proof {
        if dir@.len() == 0 || dir@.last() == '/' {
            assert(out@ =~= dir@ + name@);
        } else {
            assert(out@ =~= dir@ + seq!['/'] + name@);
        }
    }
    out
}

/// The paths at which an executable called `name` is looked for, given the
/// value of the search path variable.
pub fn path_candidates(search_path: &str, name: &str) -> (r: Vec<String>)
    ensures
        r@.map_values(|c: String| c@) == candidates(search_path@, name@),
{
    let fields = split_chars(&chars_of(search_path), ':');
    let n = chars_of(name);
    let ghost fs = fields@.map_values(|f: Vec<char>| f@);
    let mut out: Vec<String> = Vec::new();
    let mut i: usize = 0;
    while i < fields.len()
        invariant
            i <= fields.len(),
            n@ == name@,
            fs == fields@.map_values(|f: Vec<char>| f@),
            out@.map_values(|c: String| c@) == fs.take(i as int).map_values(
                |d: Seq<char>| joined(d, name@),
            ),
        decreases fields.len() - i,
    {
        let ghost before = out@.map_values(|c: String| c@);
        let c = join(&fields[i], &n);
        out.push(string_of(c.as_slice()));
        assert(out@.map_values(|c: String| c@) =~= before.push(joined(fs[i as int], name@)));
        assert(fs.take(i + 1).map_values(|d: Seq<char>| joined(d, name@)) =~= fs.take(
            i as int,
        ).map_values(|d: Seq<char>| joined(d, name@)).push(joined(fs[i as int], name@)));
        i = i + 1;
    }
    assert(fs.take(fields.len() as int) =~= fs);
    out
}

/// The first candidate whose flag in `present` is set.
pub fn first_found(cands: &Vec<String>, present: &Vec<bool>) -> (r: Option<String>)
    requires
        cands.len() == present.len(),
    ensures
        match r {
            Some(p) => first_present(cands@.map_values(|c: String| c@), present@) == Some(p@),
            None => first_present(cands@.map_values(|c: String| c@), present@) is None,
        },
{
    let ghost all = cands@.map_values(|c: String| c@);
    let mut i: usize = 0;
    assert(all.skip(0) =~= all);
    assert(present@.skip(0) =~= present@);
    while i < cands.len()
        invariant
            i <= cands.len() == present.len(),
            all == cands@.map_values(|c: String| c@),
            first_present(all, present@) == first_present(
                all.skip(i as int),
                present@.skip(i as int),
            ),
        decreases cands.len() - i,
    {
        assert(all.skip(i as int).drop_first() =~= all.skip(i + 1));
        assert(present@.skip(i as int).drop_first() =~= present@.skip(i + 1));
        if present[i] {
            return Some(cands[i].clone());
        }
        i = i + 1;
    }
    None
}

} // verus!
