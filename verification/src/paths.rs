//! Unix paths as strings: joining, components, file names, equality.
use vstd::prelude::*;

use crate::text::{
    append_chars, chars_of, eq_chars, split_chars, split_on, starts_with, starts_with_chars,
    string_of, views,
};

verus! {

/// `PathBuf::join` on Unix paths: an absolute `name` replaces `base`,
/// otherwise the two are joined with one `/`.
pub open spec fn path_join(base: Seq<char>, name: Seq<char>) -> Seq<char> {
    if name.len() > 0 && name[0] == '/' {
        name
    } else if base.len() == 0 {
        name
    } else if base.last() == '/' {
        base + name
    } else {
        base + seq!['/'] + name
    }
}

/// `PathBuf::join` on Unix paths.
pub fn join_path(base: &str, name: &str) -> (p: String)
    ensures
        p@ == path_join(base@, name@),
{
    let b = chars_of(base);
    let n = chars_of(name);
    if n.len() > 0 && n[0] == '/' {
        return string_of(&n);
    }
    if b.len() == 0 {
        return string_of(&n);
    }
    let mut r = b.clone();
    if b[b.len() - 1] != '/' {
        r.push('/');
    }
    append_chars(&mut r, &n);
    proof {
        if b@.last() != '/' {
            assert(b@.push('/') =~= b@ + seq!['/']);
        }
    }
    string_of(&r)
}

/// A piece between `/`s that is a named component (`..` included); empty
/// pieces and `.` are not.
pub open spec fn is_named(p: Seq<char>) -> bool {
    p.len() > 0 && p != seq!['.']
}

/// The named components of a path, in order.
pub open spec fn named_components(path: Seq<char>) -> Seq<Seq<char>> {
    split_on(path, '/').filter(|p: Seq<char>| is_named(p))
}

pub open spec fn is_absolute(path: Seq<char>) -> bool {
    path.len() > 0 && path[0] == '/'
}

/// A relative path that starts with the current-directory component.
pub open spec fn starts_at_cur_dir(path: Seq<char>) -> bool {
    !is_absolute(path) && (path == seq!['.'] || starts_with(path, seq!['.', '/']))
}

/// `Path` equality: same root, same leading `.`, same named components.
pub open spec fn same_path(a: Seq<char>, b: Seq<char>) -> bool {
    &&& is_absolute(a) == is_absolute(b)
    &&& starts_at_cur_dir(a) == starts_at_cur_dir(b)
    &&& named_components(a) == named_components(b)
}

/// `Path::file_name`: the last component, if it is a name other than `..`.
pub open spec fn file_name(path: Seq<char>) -> Option<Seq<char>> {
    let n = named_components(path);
    if n.len() > 0 && n.last() != seq!['.', '.'] {
        Some(n.last())
    } else {
        None
    }
}

fn is_named_exec(p: &Vec<char>) -> (b: bool)
    ensures
        b == is_named(p@),
{
    if p.len() == 0 {
        return false;
    }
    if p.len() == 1 && p[0] == '.' {
        assert(p@ =~= seq!['.']);
        return false;
    }
    proof {
        if p@ == seq!['.'] {
            assert(p@[0] == '.');
        }
    }
    true
}

/// The named components of a path.
pub fn named_components_exec(path: &Vec<char>) -> (r: Vec<Vec<char>>)
    ensures
        views(r@) == named_components(path@),
{
    let parts = split_chars(path, '/');
    let ghost pv = views(parts@);
    let ghost pred = |p: Seq<char>| is_named(p);
    let mut out: Vec<Vec<char>> = Vec::new();
    let mut i: usize = 0;
    while i < parts.len()
        invariant
            i <= parts@.len(),
            pv == views(parts@),
            pv == split_on(path@, '/'),
            pred == (|p: Seq<char>| is_named(p)),
            views(out@) == pv.take(i as int).filter(pred),
        decreases parts.len() - i,
    {
        assert(pv.take(i + 1) =~= pv.take(i as int).push(parts@[i as int]@));
        proof {
            pv.take(i as int).lemma_filter_push(parts@[i as int]@, pred);
        }
        if is_named_exec(&parts[i]) {
            let ghost before = views(out@);
            out.push(parts[i].clone());
            assert(views(out@) =~= before.push(parts@[i as int]@));
        }
        i += 1;
    }
    assert(pv.take(parts@.len() as int) =~= pv);
    out
}

/// Whether a path starts with the current-directory component.
pub fn starts_at_cur_dir_exec(path: &Vec<char>) -> (b: bool)
    ensures
        b == starts_at_cur_dir(path@),
{
    if path.len() > 0 && path[0] == '/' {
        return false;
    }
    let mut dot: Vec<char> = Vec::new();
    dot.push('.');
    let mut dot_slash: Vec<char> = Vec::new();
    dot_slash.push('.');
    dot_slash.push('/');
    assert(dot@ =~= seq!['.']);
    assert(dot_slash@ =~= seq!['.', '/']);
    eq_chars(path, &dot) || starts_with_chars(path, &dot_slash)
}

/// Whether two paths are equal as `Path`s.
pub fn paths_equal(a: &str, b: &str) -> (r: bool)
    ensures
        r == same_path(a@, b@),
{
    let av = chars_of(a);
    let bv = chars_of(b);
    let abs_a = av.len() > 0 && av[0] == '/';
    let abs_b = bv.len() > 0 && bv[0] == '/';
    if abs_a != abs_b {
        return false;
    }
    if starts_at_cur_dir_exec(&av) != starts_at_cur_dir_exec(&bv) {
        return false;
    }
    let na = named_components_exec(&av);
    let nb = named_components_exec(&bv);
    assert(views(na@).len() == na@.len() && views(nb@).len() == nb@.len());
    if na.len() != nb.len() {
        return false;
    }
    let mut i: usize = 0;
    while i < na.len()
        invariant
            i <= na@.len() == nb@.len(),
            views(na@) == named_components(a@),
            views(nb@) == named_components(b@),
            is_absolute(a@) == is_absolute(b@),
            starts_at_cur_dir(a@) == starts_at_cur_dir(b@),
            forall|j: int| 0 <= j < i ==> na@[j]@ == nb@[j]@,
        decreases na.len() - i,
    {
        if !eq_chars(&na[i], &nb[i]) {
            assert(views(na@)[i as int] != views(nb@)[i as int]);
            return false;
        }
        i += 1;
    }
    assert(views(na@) =~= views(nb@));
    true
}

/// `Path::file_name`.
pub fn path_file_name(path: &str) -> (r: Option<String>)
    ensures
        match r {
            Some(n) => file_name(path@) == Some(n@),
            None => file_name(path@) is None,
        },
{
    let pv = chars_of(path);
    let n = named_components_exec(&pv);
    if n.len() == 0 {
        return None;
    }
    let last = &n[n.len() - 1];
    assert(views(n@).last() == last@);
    let mut dd: Vec<char> = Vec::new();
    dd.push('.');
    dd.push('.');
    assert(dd@ =~= seq!['.', '.']);
    if eq_chars(last, &dd) {
        None
    } else {
        Some(string_of(last))
    }
}

} // verus!
