//! Character-level text handling shared by the rest of the library.
//!
//! Strings are modelled by their view, a `Seq<char>`. The spec functions here
//! say what `str::trim`, `str::lines`, `str::split`, `contains` and friends
//! mean; the executable functions compute them on `Vec<char>` and are proved
//! against those definitions.
use vstd::prelude::*;

verus! {

/// Appends one character to a string (`String::push`).
#[verifier::external_body]
pub(crate) fn push_char(s: &mut String, c: char)
    ensures
        final(s)@ == old(s)@.push(c),
{
    s.push(c);
}

/// The characters of `s`, in order.
pub fn chars_of(s: &str) -> (v: Vec<char>)
    ensures
        v@ == s@,
{
    let mut v: Vec<char> = Vec::new();
    for c in it: s.chars()
        invariant
            v@ == it.seq().take(it.index() as int),
    {
        v.push(c);
    }
    v
}

/// The string whose characters are those of `v`.
pub fn string_of(v: &Vec<char>) -> (s: String)
    ensures
        s@ == v@,
{
    let mut s = String::new();
    let mut i: usize = 0;
    while i < v.len()
        invariant
            i <= v.len(),
            s@ == v@.take(i as int),
        decreases v.len() - i,
    {
        push_char(&mut s, v[i]);
        assert(v@.take(i + 1) =~= v@.take(i as int).push(v@[i as int]));
        i += 1;
    }
    assert(v@.take(v.len() as int) =~= v@);
    s
}

/// The strings of a vector of character vectors.
pub fn strings_of(v: &Vec<Vec<char>>) -> (r: Vec<String>)
    ensures
        r@.len() == v@.len(),
        forall|i: int| 0 <= i < v@.len() ==> #[trigger] r@[i]@ == v@[i]@,
{
    let mut r: Vec<String> = Vec::new();
    let mut i: usize = 0;
    while i < v.len()
        invariant
            i <= v.len(),
            r@.len() == i,
            forall|k: int| 0 <= k < i ==> #[trigger] r@[k]@ == v@[k]@,
        decreases v.len() - i,
    {
        let s = string_of(&v[i]);
        r.push(s);
        i += 1;
    }
    r
}

/// Concatenation of two character sequences into a new string.
pub fn concat_str(a: &str, b: &str) -> (s: String)
    ensures
        s@ == a@ + b@,
{
    let mut s = String::from_str(a);
    s.append(b);
    s
}

/// Unicode `White_Space`, the set that `char::is_whitespace` and
/// `str::trim` use.
pub open spec fn is_white_space(c: char) -> bool {
    ||| ('\u{9}' <= c && c <= '\u{d}')
    ||| c == ' '
    ||| c == '\u{85}'
    ||| c == '\u{a0}'
    ||| c == '\u{1680}'
    ||| ('\u{2000}' <= c && c <= '\u{200a}')
    ||| c == '\u{2028}'
    ||| c == '\u{2029}'
    ||| c == '\u{202f}'
    ||| c == '\u{205f}'
    ||| c == '\u{3000}'
}

pub fn is_white_space_char(c: char) -> (b: bool)
    ensures
        b == is_white_space(c),
{
    ('\u{9}' <= c && c <= '\u{d}') || c == ' ' || c == '\u{85}' || c == '\u{a0}' || c
        == '\u{1680}' || ('\u{2000}' <= c && c <= '\u{200a}') || c == '\u{2028}' || c
        == '\u{2029}' || c == '\u{202f}' || c == '\u{205f}' || c == '\u{3000}'
}

pub open spec fn is_ascii_digit(c: char) -> bool {
    '0' <= c && c <= '9'
}

pub open spec fn is_ascii_alpha(c: char) -> bool {
    ('a' <= c && c <= 'z') || ('A' <= c && c <= 'Z')
}

/// Index of the first character at or after `i` that is not white space
/// (`s.len()` if there is none).
pub open spec fn first_non_ws_from(s: Seq<char>, i: int) -> int
    decreases s.len() - i,
{
    if i >= s.len() {
        s.len() as int
    } else if is_white_space(s[i]) {
        first_non_ws_from(s, i + 1)
    } else {
        i
    }
}

/// End of the text once the white space before position `j` is removed.
pub open spec fn end_non_ws_before(s: Seq<char>, j: int) -> int
    decreases j,
{
    if j <= 0 {
        0
    } else if is_white_space(s[j - 1]) {
        end_non_ws_before(s, j - 1)
    } else {
        j
    }
}

/// `str::trim`: the text without leading and trailing white space.
pub open spec fn trim(s: Seq<char>) -> Seq<char> {
    let a = first_non_ws_from(s, 0);
    let b = end_non_ws_before(s, s.len() as int);
    if a >= b {
        Seq::empty()
    } else {
        s.subrange(a, b)
    }
}

/// `str::trim_end`: the text without trailing white space.
pub open spec fn trim_end(s: Seq<char>) -> Seq<char> {
    s.take(end_non_ws_before(s, s.len() as int))
}

proof fn lemma_first_non_ws_bounds(s: Seq<char>, i: int)
    requires
        0 <= i <= s.len(),
    ensures
        i <= first_non_ws_from(s, i) <= s.len(),
    decreases s.len() - i,
{
    if i < s.len() && is_white_space(s[i]) {
        lemma_first_non_ws_bounds(s, i + 1);
    }
}

proof fn lemma_end_non_ws_bounds(s: Seq<char>, j: int)
    requires
        0 <= j <= s.len(),
    ensures
        0 <= end_non_ws_before(s, j) <= j,
    decreases j,
{
    if j > 0 && is_white_space(s[j - 1]) {
        lemma_end_non_ws_bounds(s, j - 1);
    }
}

/// `str::trim`.
pub fn trim_chars(s: &Vec<char>) -> (r: Vec<char>)
    ensures
        r@ == trim(s@),
{
    let n = s.len();
    let mut a: usize = 0;
    while a < n && is_white_space_char(s[a])
        invariant
            a <= n == s@.len(),
            first_non_ws_from(s@, a as int) == first_non_ws_from(s@, 0),
        decreases n - a,
    {
        a += 1;
    }
    let mut b: usize = n;
    while b > 0 && is_white_space_char(s[b - 1])
        invariant
            b <= n == s@.len(),
            end_non_ws_before(s@, b as int) == end_non_ws_before(s@, n as int),
        decreases b,
    {
        b -= 1;
    }
    let mut r: Vec<char> = Vec::new();
    if a < b {
        let mut k = a;
        while k < b
            invariant
                a <= k <= b <= n == s@.len(),
                r@ == s@.subrange(a as int, k as int),
            decreases b - k,
        {
            r.push(s[k]);
            assert(s@.subrange(a as int, k + 1) =~= s@.subrange(a as int, k as int).push(
                s@[k as int],
            ));
            k += 1;
        }
    }
    r
}

/// `str::trim_end`.
pub fn trim_end_chars(s: &Vec<char>) -> (r: Vec<char>)
    ensures
        r@ == trim_end(s@),
{
    let n = s.len();
    let mut b: usize = n;
    while b > 0 && is_white_space_char(s[b - 1])
        invariant
            b <= n == s@.len(),
            end_non_ws_before(s@, b as int) == end_non_ws_before(s@, n as int),
        decreases b,
    {
        b -= 1;
    }
    take_chars(s, b)
}

/// The first `k` characters.
pub fn take_chars(s: &Vec<char>, k: usize) -> (r: Vec<char>)
    requires
        k <= s@.len(),
    ensures
        r@ == s@.take(k as int),
{
    subrange_chars(s, 0, k)
}

/// The characters from `a` up to `b`.
pub fn subrange_chars(s: &Vec<char>, a: usize, b: usize) -> (r: Vec<char>)
    requires
        a <= b <= s@.len(),
    ensures
        r@ == s@.subrange(a as int, b as int),
{
    let mut r: Vec<char> = Vec::new();
    let mut k = a;
    while k < b
        invariant
            a <= k <= b <= s@.len(),
            r@ == s@.subrange(a as int, k as int),
        decreases b - k,
    {
        r.push(s[k]);
        assert(s@.subrange(a as int, k + 1) =~= s@.subrange(a as int, k as int).push(
            s@[k as int],
        ));
        k += 1;
    }
    r
}

/// `pat` occurs in `s` at position `i`.
pub open spec fn occurs_at(s: Seq<char>, pat: Seq<char>, i: int) -> bool {
    0 <= i && i + pat.len() <= s.len() && s.subrange(i, i + pat.len()) == pat
}

/// `str::contains` with a string pattern.
pub open spec fn contains(s: Seq<char>, pat: Seq<char>) -> bool {
    exists|i: int| occurs_at(s, pat, i)
}

/// `str::starts_with` with a string pattern.
pub open spec fn starts_with(s: Seq<char>, pat: Seq<char>) -> bool {
    pat.len() <= s.len() && s.take(pat.len() as int) == pat
}

/// `str::ends_with` with a string pattern.
pub open spec fn ends_with(s: Seq<char>, pat: Seq<char>) -> bool {
    pat.len() <= s.len() && s.skip(s.len() - pat.len()) == pat
}

/// Whether `pat` occurs in `s` at position `i`.
pub fn occurs_at_exec(s: &Vec<char>, pat: &Vec<char>, i: usize) -> (b: bool)
    ensures
        b == occurs_at(s@, pat@, i as int),
{
    let n = s.len();
    if i > n || pat.len() > n - i {
        return false;
    }
    let mut k: usize = 0;
    while k < pat.len()
        invariant
            n == s@.len(),
            i + pat@.len() <= s@.len(),
            k <= pat@.len(),
            forall|j: int| 0 <= j < k ==> s@[i + j] == pat@[j],
        decreases pat.len() - k,
    {
        if s[i + k] != pat[k] {
            assert(s@.subrange(i as int, i + pat@.len())[k as int] != pat@[k as int]);
            return false;
        }
        k += 1;
    }
    assert(s@.subrange(i as int, i + pat@.len()) =~= pat@);
    true
}

/// `str::contains`.
pub fn contains_chars(s: &Vec<char>, pat: &Vec<char>) -> (b: bool)
    ensures
        b == contains(s@, pat@),
{
    if pat.len() > s.len() {
        assert forall|i: int| !occurs_at(s@, pat@, i) by {}
        return false;
    }
    let limit = s.len() - pat.len();
    let mut i: usize = 0;
    loop
        invariant
            pat@.len() <= s@.len(),
            limit == s@.len() - pat@.len(),
            i <= limit,
            forall|j: int| 0 <= j < i ==> !occurs_at(s@, pat@, j),
        ensures
            forall|j: int| 0 <= j <= limit ==> !occurs_at(s@, pat@, j),
        decreases limit - i,
    {
        if occurs_at_exec(s, pat, i) {
            return true;
        }
        if i == limit {
            break;
        }
        i += 1;
    }
    assert forall|j: int| !occurs_at(s@, pat@, j) by {
        if 0 <= j <= limit {
        }
    }
    false
}

/// `str::contains` on string arguments.
pub fn str_contains(s: &str, pat: &str) -> (b: bool)
    ensures
        b == contains(s@, pat@),
{
    let sv = chars_of(s);
    let pv = chars_of(pat);
    contains_chars(&sv, &pv)
}

/// `str::starts_with`.
pub fn starts_with_chars(s: &Vec<char>, pat: &Vec<char>) -> (b: bool)
    ensures
        b == starts_with(s@, pat@),
{
    let r = occurs_at_exec(s, pat, 0);
    proof {
        if pat@.len() <= s@.len() {
            assert(s@.take(pat@.len() as int) =~= s@.subrange(0, pat@.len() as int));
        }
    }
    r
}

/// Whether two character sequences are equal.
pub fn eq_chars(a: &Vec<char>, b: &Vec<char>) -> (r: bool)
    ensures
        r == (a@ == b@),
{
    if a.len() != b.len() {
        return false;
    }
    let r = occurs_at_exec(a, b, 0);
    proof {
        assert(a@.subrange(0, b@.len() as int) =~= a@);
    }
    r
}

/// Whether two strings are equal.
pub fn str_eq(a: &str, b: &str) -> (r: bool)
    ensures
        r == (a@ == b@),
{
    let av = chars_of(a);
    let bv = chars_of(b);
    eq_chars(&av, &bv)
}

/// `str::ends_with`.
pub fn ends_with_chars(s: &Vec<char>, pat: &Vec<char>) -> (b: bool)
    ensures
        b == ends_with(s@, pat@),
{
    if pat.len() > s.len() {
        return false;
    }
    occurs_at_exec(s, pat, s.len() - pat.len())
}

/// The views of a vector of character vectors.
pub open spec fn views(v: Seq<Vec<char>>) -> Seq<Seq<char>> {
    v.map_values(|x: Vec<char>| x@)
}

/// `str::split` on a single character: the pieces of `s` between occurrences
/// of `sep`. There is always at least one piece.
pub open spec fn split_on(s: Seq<char>, sep: char) -> Seq<Seq<char>>
    decreases s.len(),
{
    if s.len() == 0 {
        seq![Seq::<char>::empty()]
    } else {
        let init = split_on(s.drop_last(), sep);
        if s.last() == sep {
            init.push(Seq::<char>::empty())
        } else {
            init.update(init.len() - 1, init.last().push(s.last()))
        }
    }
}

/// A split has at least one piece.
pub proof fn lemma_split_on_nonempty(s: Seq<char>, sep: char)
    ensures
        split_on(s, sep).len() >= 1,
    decreases s.len(),
{
    if s.len() > 0 {
        lemma_split_on_nonempty(s.drop_last(), sep);
    }
}

/// Splitting a text that is `a`, `sep`, `b` gives the pieces of `a`, then
/// those of `b`.
pub proof fn lemma_split_on_append(a: Seq<char>, b: Seq<char>, sep: char)
    ensures
        split_on(a + seq![sep] + b, sep) == split_on(a, sep) + split_on(b, sep),
    decreases b.len(),
{
    let s = a + seq![sep] + b;
    lemma_split_on_nonempty(a, sep);
    if b.len() == 0 {
        assert(s.drop_last() =~= a);
        assert(s.last() == sep);
        assert(split_on(b, sep) =~= seq![Seq::<char>::empty()]);
        assert(split_on(s, sep) =~= split_on(a, sep) + split_on(b, sep));
    } else {
        let b2 = b.drop_last();
        let c = b.last();
        assert(s.drop_last() =~= a + seq![sep] + b2);
        assert(s.last() == c);
        lemma_split_on_append(a, b2, sep);
        lemma_split_on_nonempty(b2, sep);
        if c == sep {
            assert(split_on(s, sep) =~= split_on(a, sep) + split_on(b, sep));
        } else {
            assert(split_on(s, sep) =~= split_on(a, sep) + split_on(b, sep));
        }
    }
}

/// A text without `sep` is a single piece.
pub proof fn lemma_split_on_without_sep(b: Seq<char>, sep: char)
    requires
        !b.contains(sep),
    ensures
        split_on(b, sep) == seq![b],
    decreases b.len(),
{
    if b.len() == 0 {
        assert(b =~= Seq::<char>::empty());
        assert(split_on(b, sep) =~= seq![b]);
    } else {
        let b2 = b.drop_last();
        assert(!b2.contains(sep)) by {
            if b2.contains(sep) {
                let i = choose|i: int| 0 <= i < b2.len() && b2[i] == sep;
                assert(b[i] == sep);
            }
        }
        lemma_split_on_without_sep(b2, sep);
        assert(b[b.len() - 1] != sep);
        assert(b.drop_last() == b2);
        let init = split_on(b2, sep);
        assert(init == seq![b2]);
        assert(split_on(b, sep) == init.update(0, b2.push(b.last())));
        assert(b2.push(b.last()) =~= b);
        assert(split_on(b, sep) =~= seq![b]);
    }
}

/// Joining the pieces of a split with the separator gives the text back.
pub proof fn lemma_join_split(s: Seq<char>, sep: char)
    ensures
        join(split_on(s, sep), seq![sep]) == s,
    decreases s.len(),
{
    if s.len() == 0 {
    } else {
        let s2 = s.drop_last();
        let c = s.last();
        let p = split_on(s2, sep);
        lemma_join_split(s2, sep);
        lemma_split_on_nonempty(s2, sep);
        if c == sep {
            let q = p.push(Seq::<char>::empty());
            assert(q.drop_last() =~= p);
            assert(join(q, seq![sep]) =~= s2 + seq![sep]);
            assert(s2 + seq![sep] =~= s);
        } else {
            let q = p.update(p.len() - 1, p.last().push(c));
            if p.len() == 1 {
                assert(join(q, seq![sep]) =~= p[0].push(c));
                assert(s2.push(c) =~= s);
            } else {
                assert(q.drop_last() =~= p.drop_last());
                assert(join(q, seq![sep]) =~= join(p.drop_last(), seq![sep]) + seq![sep]
                    + p.last().push(c));
                assert(join(p, seq![sep]) == join(p.drop_last(), seq![sep]) + seq![sep]
                    + p.last());
                assert(join(q, seq![sep]) =~= s2.push(c));
                assert(s2.push(c) =~= s);
            }
        }
    }
}

/// Every piece of a split occurs in the text, and the last piece ends it.
pub proof fn lemma_split_pieces_occur(s: Seq<char>, sep: char)
    ensures
        forall|k: int|
            0 <= k < split_on(s, sep).len() ==> contains(s, #[trigger] split_on(s, sep)[k]),
        split_on(s, sep).len() >= 1,
        occurs_at(s, split_on(s, sep).last(), s.len() - split_on(s, sep).last().len()),
    decreases s.len(),
{
    lemma_split_on_nonempty(s, sep);
    let p = split_on(s, sep);
    if s.len() == 0 {
        assert(p =~= seq![Seq::<char>::empty()]);
        assert(occurs_at(s, p[0], 0)) by {
            assert(s.subrange(0, 0) =~= p[0]);
        }
        assert forall|k: int| 0 <= k < p.len() implies contains(s, #[trigger] p[k]) by {
            assert(k == 0);
            assert(occurs_at(s, p[k], 0));
        }
    } else {
        let s2 = s.drop_last();
        let c = s.last();
        let p2 = split_on(s2, sep);
        lemma_split_pieces_occur(s2, sep);
        assert forall|k: int| 0 <= k < p2.len() implies contains(s, #[trigger] p2[k]) by {
            assert(contains(s2, p2[k]));
            let o = choose|o: int| occurs_at(s2, p2[k], o);
            assert(s.subrange(o, o + p2[k].len()) =~= s2.subrange(o, o + p2[k].len()));
            assert(occurs_at(s, p2[k], o));
        }
        let l2 = p2.last();
        let o2 = s2.len() - l2.len();
        if c == sep {
            assert(occurs_at(s, p.last(), s.len() - p.last().len())) by {
                assert(s.subrange(s.len() as int, s.len() as int) =~= Seq::<char>::empty());
            }
            assert forall|k: int| 0 <= k < p.len() implies contains(s, #[trigger] p[k]) by {
                if k < p2.len() {
                    assert(p[k] == p2[k]);
                } else {
                    assert(occurs_at(s, p[k], s.len() - p.last().len()));
                }
            }
        } else {
            assert(s.subrange(o2, s.len() as int) =~= l2.push(c));
            assert(occurs_at(s, p.last(), s.len() - p.last().len()));
            assert forall|k: int| 0 <= k < p.len() implies contains(s, #[trigger] p[k]) by {
                if k < p2.len() - 1 {
                    assert(p[k] == p2[k]);
                } else {
                    assert(occurs_at(s, p[k], s.len() - p.last().len()));
                }
            }
        }
    }
}

/// What occurs in a part of a text occurs in the text.
pub proof fn lemma_contains_through(s: Seq<char>, part: Seq<char>, o: int, x: Seq<char>)
    requires
        occurs_at(s, part, o),
        contains(part, x),
    ensures
        contains(s, x),
{
    let q = choose|q: int| occurs_at(part, x, q);
    assert(s.subrange(o + q, o + q + x.len()) =~= part.subrange(q, q + x.len()));
    assert(occurs_at(s, x, o + q));
}

/// A filter that keeps every element keeps the sequence.
pub proof fn lemma_filter_keeps_all(s: Seq<Seq<char>>, pred: spec_fn(Seq<char>) -> bool)
    requires
        forall|k: int| 0 <= k < s.len() ==> pred(#[trigger] s[k]),
    ensures
        s.filter(pred) == s,
    decreases s.len(),
{
    if s.len() > 0 {
        let s2 = s.drop_last();
        lemma_filter_keeps_all(s2, pred);
        assert(s2.push(s.last()) =~= s);
        s2.lemma_filter_push(s.last(), pred);
        assert(pred(s[s.len() - 1]));
    } else {
        assert(s.filter(pred) =~= s) by {
            reveal(Seq::filter);
        }
    }
}

/// `str::split` on a single character.
pub fn split_chars(s: &Vec<char>, sep: char) -> (parts: Vec<Vec<char>>)
    ensures
        views(parts@) == split_on(s@, sep),
{
    let mut done: Vec<Vec<char>> = Vec::new();
    let mut cur: Vec<char> = Vec::new();
    let mut i: usize = 0;
    assert(s@.take(0) =~= Seq::<char>::empty());
    while i < s.len()
        invariant
            i <= s@.len(),
            views(done@).push(cur@) == split_on(s@.take(i as int), sep),
        decreases s.len() - i,
    {
        let c = s[i];
        let ghost prev = s@.take(i as int);
        assert(s@.take(i + 1).drop_last() =~= prev);
        assert(s@.take(i + 1).last() == c);
        proof {
            lemma_split_on_nonempty(prev, sep);
        }
        if c == sep {
            let ghost before = views(done@);
            let finished = cur;
            done.push(finished);
            cur = Vec::new();
            assert(views(done@) =~= before.push(finished@));
            assert(views(done@) =~= split_on(prev, sep));
        } else {
            let ghost before = views(done@);
            cur.push(c);
            assert(views(done@) == before);
            assert(views(done@).push(cur@) =~= split_on(prev, sep).update(
                split_on(prev, sep).len() - 1,
                split_on(prev, sep).last().push(c),
            ));
        }
        i += 1;
    }
    assert(s@.take(s@.len() as int) =~= s@);
    let ghost before = views(done@);
    done.push(cur);
    assert(views(done@) =~= before.push(cur@));
    done
}

/// Drops one trailing `'\r'`.
pub open spec fn strip_cr(l: Seq<char>) -> Seq<char> {
    if l.len() > 0 && l.last() == '\r' {
        l.drop_last()
    } else {
        l
    }
}

/// `str::lines`: the pieces between `'\n'`s; a piece that ended in `'\n'`
/// loses one trailing `'\r'`, and a final empty piece is not a line.
pub open spec fn lines(s: Seq<char>) -> Seq<Seq<char>> {
    let p = split_on(s, '\n');
    let body = p.drop_last().map_values(|l: Seq<char>| strip_cr(l));
    if p.last().len() == 0 {
        body
    } else {
        body.push(p.last())
    }
}

/// `str::lines`.
pub fn lines_chars(s: &Vec<char>) -> (ls: Vec<Vec<char>>)
    ensures
        views(ls@) == lines(s@),
{
    let parts = split_chars(s, '\n');
    proof {
        lemma_split_on_nonempty(s@, '\n');
    }
    let n = parts.len();
    let ghost p = split_on(s@, '\n');
    let mut out: Vec<Vec<char>> = Vec::new();
    let mut i: usize = 0;
    while i + 1 < n
        invariant
            n == parts@.len() >= 1,
            views(parts@) == p,
            i + 1 <= n,
            views(out@) =~= p.take(i as int).map_values(|l: Seq<char>| strip_cr(l)),
        decreases n - i,
    {
        let piece = &parts[i];
        assert(piece@ == p[i as int]);
        let m = piece.len();
        let line = if m > 0 && piece[m - 1] == '\r' {
            take_chars(piece, m - 1)
        } else {
            take_chars(piece, m)
        };
        proof {
            assert(piece@.take(m as int) =~= piece@);
            assert(m > 0 ==> piece@.take(m - 1) =~= piece@.drop_last());
        }
        let ghost before = views(out@);
        out.push(line);
        assert(views(out@) =~= before.push(line@));
        assert(p.take(i + 1).map_values(|l: Seq<char>| strip_cr(l)) =~= p.take(
            i as int,
        ).map_values(|l: Seq<char>| strip_cr(l)).push(strip_cr(p[i as int])));
        i += 1;
    }
    assert(p.take(i as int) =~= p.drop_last());
    let last = &parts[n - 1];
    assert(last@ == p.last());
    if last.len() > 0 {
        let l = take_chars(last, last.len());
        assert(last@.take(last@.len() as int) =~= last@);
        let ghost before = views(out@);
        out.push(l);
        assert(views(out@) =~= before.push(l@));
    }
    out
}

/// Joins pieces with `sep` between consecutive pieces.
pub open spec fn join(pieces: Seq<Seq<char>>, sep: Seq<char>) -> Seq<char>
    decreases pieces.len(),
{
    if pieces.len() == 0 {
        Seq::empty()
    } else if pieces.len() == 1 {
        pieces[0]
    } else {
        join(pieces.drop_last(), sep) + sep + pieces.last()
    }
}

/// `[T]::join` for character pieces.
pub fn join_chars(pieces: &Vec<Vec<char>>, sep: &Vec<char>) -> (r: Vec<char>)
    ensures
        r@ == join(views(pieces@), sep@),
{
    let mut r: Vec<char> = Vec::new();
    let mut i: usize = 0;
    while i < pieces.len()
        invariant
            i <= pieces@.len(),
            r@ == join(views(pieces@).take(i as int), sep@),
        decreases pieces.len() - i,
    {
        let ghost before = r@;
        if i > 0 {
            append_chars(&mut r, sep);
        }
        append_chars(&mut r, &pieces[i]);
        assert(views(pieces@).take(i + 1).drop_last() =~= views(pieces@).take(i as int));
        assert(views(pieces@).take(i + 1).last() == pieces@[i as int]@);
        proof {
            if i == 0 {
                assert(before =~= Seq::<char>::empty());
                assert(r@ =~= pieces@[0]@);
            }
        }
        i += 1;
    }
    assert(views(pieces@).take(pieces@.len() as int) =~= views(pieces@));
    r
}

/// Appends all of `b` to `a`.
pub fn append_chars(a: &mut Vec<char>, b: &Vec<char>)
    ensures
        final(a)@ == old(a)@ + b@,
{
    let mut k: usize = 0;
    let ghost a0 = a@;
    while k < b.len()
        invariant
            k <= b@.len(),
            a@ == a0 + b@.take(k as int),
        decreases b.len() - k,
    {
        a.push(b[k]);
        assert(b@.take(k + 1) =~= b@.take(k as int).push(b@[k as int]));
        assert(a0 + b@.take(k + 1) =~= (a0 + b@.take(k as int)).push(b@[k as int]));
        k += 1;
    }
    assert(b@.take(b@.len() as int) =~= b@);
}

/// The pieces, each followed by `'\n'`.
pub open spec fn terminated(xs: Seq<Seq<char>>) -> Seq<char>
    decreases xs.len(),
{
    if xs.len() == 0 {
        Seq::empty()
    } else {
        terminated(xs.drop_last()) + xs.last() + seq!['\n']
    }
}

/// Appending a text without the separator extends the last piece.
pub proof fn lemma_split_on_extend(s: Seq<char>, x: Seq<char>, sep: char)
    requires
        !x.contains(sep),
    ensures
        split_on(s + x, sep) == split_on(s, sep).update(
            split_on(s, sep).len() - 1,
            split_on(s, sep).last() + x,
        ),
    decreases x.len(),
{
    lemma_split_on_nonempty(s, sep);
    if x.len() == 0 {
        assert(s + x =~= s);
        assert(split_on(s, sep).last() + x =~= split_on(s, sep).last());
        assert(split_on(s, sep).update(split_on(s, sep).len() - 1, split_on(s, sep).last())
            =~= split_on(s, sep));
    } else {
        let x2 = x.drop_last();
        let c = x.last();
        assert(!x2.contains(sep)) by {
            if x2.contains(sep) {
                let i = choose|i: int| 0 <= i < x2.len() && x2[i] == sep;
                assert(x[i] == sep);
            }
        }
        assert(c != sep) by {
            assert(x[x.len() - 1] == c);
        }
        lemma_split_on_extend(s, x2, sep);
        assert((s + x).drop_last() =~= s + x2);
        assert((s + x).last() == c);
        assert(split_on(s, sep).last() + x2 + seq![c] =~= split_on(s, sep).last() + x);
        assert((split_on(s, sep).last() + x2).push(c) =~= split_on(s, sep).last() + x);
        assert(split_on(s + x, sep) =~= split_on(s, sep).update(
            split_on(s, sep).len() - 1,
            split_on(s, sep).last() + x,
        ));
    }
}

/// The pieces of newline-terminated lines are the lines and a final empty
/// piece.
pub proof fn lemma_split_terminated(xs: Seq<Seq<char>>)
    requires
        forall|k: int| 0 <= k < xs.len() ==> !(#[trigger] xs[k]).contains('\n'),
    ensures
        split_on(terminated(xs), '\n') == xs.push(Seq::<char>::empty()),
    decreases xs.len(),
{
    if xs.len() == 0 {
        assert(split_on(terminated(xs), '\n') =~= xs.push(Seq::<char>::empty()));
    } else {
        let xs2 = xs.drop_last();
        let x = xs.last();
        assert(!x.contains('\n')) by {
            assert(x == xs[xs.len() - 1]);
        }
        lemma_split_terminated(xs2);
        lemma_split_on_extend(terminated(xs2), x, '\n');
        let t = terminated(xs);
        assert(t.drop_last() =~= terminated(xs2) + x);
        assert(t.last() == '\n');
        assert(split_on(terminated(xs2) + x, '\n') =~= xs2.push(x));
        assert(split_on(t, '\n') =~= xs2.push(x).push(Seq::<char>::empty()));
        assert(xs2.push(x) =~= xs);
    }
}

/// The lines of newline-terminated lines without `'\n'` or a final `'\r'`
/// are those lines.
pub proof fn lemma_lines_terminated(xs: Seq<Seq<char>>)
    requires
        forall|k: int| 0 <= k < xs.len() ==> !(#[trigger] xs[k]).contains('\n'),
        forall|k: int| 0 <= k < xs.len() ==> !(#[trigger] xs[k]).contains('\r'),
    ensures
        lines(terminated(xs)) == xs,
{
    lemma_split_terminated(xs);
    let p = split_on(terminated(xs), '\n');
    assert(p.drop_last() =~= xs);
    assert forall|k: int| 0 <= k < xs.len() implies strip_cr(#[trigger] xs[k]) == xs[k] by {
        if xs[k].len() > 0 && xs[k].last() == '\r' {
            assert(xs[k][xs[k].len() - 1] == '\r');
        }
    }
    assert(p.drop_last().map_values(|l: Seq<char>| strip_cr(l)) =~= xs);
}

/// Newline-terminated pieces are the pieces joined by `'\n'`, then a final
/// `'\n'`.
pub proof fn lemma_terminated_join(xs: Seq<Seq<char>>)
    requires
        xs.len() > 0,
    ensures
        terminated(xs) == join(xs, seq!['\n']) + seq!['\n'],
    decreases xs.len(),
{
    if xs.len() == 1 {
        assert(xs.drop_last() =~= Seq::<Seq<char>>::empty());
        assert(terminated(xs.drop_last()) == Seq::<char>::empty());
        assert(xs.last() == xs[0]);
        assert(terminated(xs) =~= xs[0] + seq!['\n']);
    } else {
        lemma_terminated_join(xs.drop_last());
        assert(terminated(xs) =~= join(xs, seq!['\n']) + seq!['\n']);
    }
}

/// A text without `'\r'` that is empty or ends with `'\n'` is its lines,
/// newline-terminated.
pub proof fn lemma_terminated_lines(c: Seq<char>)
    requires
        !c.contains('\r'),
        c.len() == 0 || c.last() == '\n',
    ensures
        terminated(lines(c)) == c,
        forall|k: int| 0 <= k < lines(c).len() ==> !(#[trigger] lines(c)[k]).contains('\n'),
        forall|k: int| 0 <= k < lines(c).len() ==> !(#[trigger] lines(c)[k]).contains('\r'),
{
    lemma_split_on_nonempty(c, '\n');
    if c.len() == 0 {
        assert(split_on(c, '\n') =~= seq![Seq::<char>::empty()]);
        assert(lines(c) =~= Seq::<Seq<char>>::empty());
    } else {
        let u = c.drop_last();
        assert(c =~= u + seq!['\n'] + Seq::<char>::empty());
        lemma_split_on_append(u, Seq::<char>::empty(), '\n');
        assert(split_on(Seq::<char>::empty(), '\n') =~= seq![Seq::<char>::empty()]);
        let pu = split_on(u, '\n');
        assert(split_on(c, '\n') =~= pu + seq![Seq::<char>::empty()]);
        assert(split_on(c, '\n').drop_last() =~= pu);
        lemma_split_pieces_occur(u, '\n');
        assert forall|k: int| 0 <= k < pu.len() implies !(#[trigger] pu[k]).contains('\n')
            && !pu[k].contains('\r') && strip_cr(pu[k]) == pu[k] by {
            assert(contains(u, pu[k]));
            let o = choose|o: int| occurs_at(u, pu[k], o);
            if pu[k].contains('\r') {
                let i = choose|i: int| 0 <= i < pu[k].len() && pu[k][i] == '\r';
                assert(u.subrange(o, o + pu[k].len())[i] == '\r');
                assert(c[o + i] == '\r');
            }
            if pu[k].contains('\n') {
                lemma_split_piece_has_no_sep(u, '\n', k);
            }
            if pu[k].len() > 0 && pu[k].last() == '\r' {
                assert(pu[k][pu[k].len() - 1] == '\r');
            }
        }
        assert(lines(c) =~= pu);
        lemma_terminated_join(pu);
        lemma_join_split(u, '\n');
    }
}

/// No piece of a split holds the separator.
pub proof fn lemma_split_piece_has_no_sep(s: Seq<char>, sep: char, k: int)
    requires
        0 <= k < split_on(s, sep).len(),
    ensures
        !split_on(s, sep)[k].contains(sep),
    decreases s.len(),
{
    if s.len() > 0 {
        let init = split_on(s.drop_last(), sep);
        lemma_split_on_nonempty(s.drop_last(), sep);
        if s.last() == sep {
            if k < init.len() {
                lemma_split_piece_has_no_sep(s.drop_last(), sep, k);
            }
        } else {
            if k < init.len() - 1 {
                lemma_split_piece_has_no_sep(s.drop_last(), sep, k);
            } else {
                lemma_split_piece_has_no_sep(s.drop_last(), sep, init.len() - 1);
                let l = init.last().push(s.last());
                assert(split_on(s, sep)[k] == l);
                if l.contains(sep) {
                    let i = choose|i: int| 0 <= i < l.len() && l[i] == sep;
                    if i < init.last().len() {
                        assert(init.last()[i] == sep);
                    }
                }
            }
        }
    }
}

/// Splitting pieces without the separator, joined by it, gives the pieces.
pub proof fn lemma_split_join(xs: Seq<Seq<char>>, sep: char)
    requires
        xs.len() > 0,
        forall|k: int| 0 <= k < xs.len() ==> !(#[trigger] xs[k]).contains(sep),
    ensures
        split_on(join(xs, seq![sep]), sep) == xs,
    decreases xs.len(),
{
    if xs.len() == 1 {
        lemma_split_on_without_sep(xs[0], sep);
        assert(xs =~= seq![xs[0]]);
    } else {
        let xs2 = xs.drop_last();
        lemma_split_join(xs2, sep);
        assert(!xs.last().contains(sep)) by {
            assert(xs.last() == xs[xs.len() - 1]);
        }
        lemma_split_on_append(join(xs2, seq![sep]), xs.last(), sep);
        lemma_split_on_without_sep(xs.last(), sep);
        assert(join(xs, seq![sep]) == join(xs2, seq![sep]) + seq![sep] + xs.last());
        assert(xs2 + seq![xs.last()] =~= xs);
    }
}

} // verus!
