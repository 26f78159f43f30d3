//! Git branches of a bound project, read from `git branch` output.
use vstd::prelude::*;

use crate::text::{
    chars_of, lines, lines_chars, starts_with, starts_with_chars, string_of, subrange_chars, trim,
    trim_chars, views,
};

verus! {

/// A local branch.
pub struct GitBranch {
    pub name: String,
    pub is_current: bool,
}

/// The local branches of a project.
pub struct GitBranches {
    pub branches: Vec<GitBranch>,
}

/// The branch a line of `git branch` output lists: the trimmed line,
/// without the `* ` that marks the checked-out branch; `None` for a blank
/// line.
pub open spec fn branch_of_line(line: Seq<char>) -> Option<(Seq<char>, bool)> {
    let t = trim(line);
    if t.len() == 0 {
        None
    } else if starts_with(t, seq!['*', ' ']) {
        Some((t.skip(2), true))
    } else {
        Some((t, false))
    }
}

/// The branches the lines list, in order.
pub open spec fn branches_of_lines(ls: Seq<Seq<char>>) -> Seq<(Seq<char>, bool)>
    decreases ls.len(),
{
    if ls.len() == 0 {
        Seq::empty()
    } else {
        let prev = branches_of_lines(ls.drop_last());
        match branch_of_line(ls.last()) {
            Some(b) => prev.push(b),
            None => prev,
        }
    }
}

/// Reads the output of `git branch`.
pub fn parse_git_branches(stdout: &str) -> (r: GitBranches)
    ensures
        r.branches@.len() == branches_of_lines(lines(stdout@)).len(),
        forall|i: int|
            0 <= i < r.branches@.len() ==> ((#[trigger] r.branches@[i]).name@, r.branches@[i].is_current)
                == branches_of_lines(lines(stdout@))[i],
{
    let v = chars_of(stdout);
    let ls = lines_chars(&v);
    let ghost lv = views(ls@);
    let mut marker: Vec<char> = Vec::new();
    marker.push('*');
    marker.push(' ');
    assert(marker@ =~= seq!['*', ' ']);
    let mut branches: Vec<GitBranch> = Vec::new();
    let mut i: usize = 0;
    while i < ls.len()
        invariant
            i <= ls@.len(),
            lv == views(ls@),
            lv == lines(stdout@),
            marker@ == seq!['*', ' '],
            branches@.len() == branches_of_lines(lv.take(i as int)).len(),
            forall|k: int|
                0 <= k < branches@.len() ==> ((#[trigger] branches@[k]).name@, branches@[k].is_current)
                    == branches_of_lines(lv.take(i as int))[k],
        decreases ls.len() - i,
    {
        assert(lv.take(i + 1).drop_last() =~= lv.take(i as int));
        assert(lv.take(i + 1).last() == ls@[i as int]@);
        let t = trim_chars(&ls[i]);
        if t.len() > 0 {
            if starts_with_chars(&t, &marker) {
                let name = string_of(&subrange_chars(&t, 2, t.len()));
                branches.push(GitBranch { name, is_current: true });
            } else {
                branches.push(GitBranch { name: string_of(&t), is_current: false });
            }
        }
        i += 1;
    }
    assert(lv.take(ls@.len() as int) =~= lv);
    GitBranches { branches }
}

/// The message of a failed checkout: the error output, or the normal
/// output when there is no error output, trimmed.
pub open spec fn checkout_error_spec(stderr: Seq<char>, stdout: Seq<char>) -> Seq<char> {
    if stderr.len() == 0 {
        trim(stdout)
    } else {
        trim(stderr)
    }
}

/// The message of a failed checkout.
pub fn checkout_error_message(stderr: &str, stdout: &str) -> (m: String)
    ensures
        m@ == checkout_error_spec(stderr@, stdout@),
{
    let e = chars_of(stderr);
    if e.len() == 0 {
        string_of(&trim_chars(&chars_of(stdout)))
    } else {
        string_of(&trim_chars(&e))
    }
}

} // verus!
