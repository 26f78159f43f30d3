//! Removal of terminal escape sequences from dev-server output.
use vstd::prelude::*;

use crate::text::{chars_of, is_ascii_alpha, is_ascii_digit, push_char};

verus! {

/// End of the run of CSI parameter characters (ASCII digits and `;`) that
/// starts at `j`.
pub open spec fn params_end(s: Seq<char>, j: int) -> int
    decreases s.len() - j,
{
    if 0 <= j < s.len() && (is_ascii_digit(s[j]) || s[j] == ';') {
        params_end(s, j + 1)
    } else {
        j
    }
}

/// End of an OSC body that starts at `j`: it runs up to the first BEL or ESC.
pub open spec fn osc_body_end(s: Seq<char>, j: int) -> int
    decreases s.len() - j,
{
    if 0 <= j < s.len() && s[j] != '\x07' && s[j] != '\x1b' {
        osc_body_end(s, j + 1)
    } else {
        j
    }
}

/// Where the escape sequence that starts with the ESC at `i` ends:
/// - `ESC [` parameters, then one optional ASCII letter (CSI);
/// - `ESC ]` a body up to BEL or ESC, then `BEL`, or `ESC` with an optional
///   `\` (OSC);
/// - otherwise `ESC` and the one character after it, if any.
pub open spec fn escape_end(s: Seq<char>, i: int) -> int {
    let j = i + 1;
    if j < s.len() && s[j] == '[' {
        let k = params_end(s, j + 1);
        if k < s.len() && is_ascii_alpha(s[k]) {
            k + 1
        } else {
            k
        }
    } else if j < s.len() && s[j] == ']' {
        let k = osc_body_end(s, j + 1);
        if k < s.len() && s[k] == '\x1b' {
            if k + 1 < s.len() && s[k + 1] == '\\' {
                k + 2
            } else {
                k + 1
            }
        } else if k < s.len() && s[k] == '\x07' {
            k + 1
        } else {
            k
        }
    } else if j < s.len() {
        j + 1
    } else {
        j
    }
}

/// The parameters of a CSI sequence end within the text.
pub proof fn lemma_params_end(s: Seq<char>, j: int)
    requires
        0 <= j <= s.len(),
    ensures
        j <= params_end(s, j) <= s.len(),
    decreases s.len() - j,
{
    if j < s.len() && (is_ascii_digit(s[j]) || s[j] == ';') {
        lemma_params_end(s, j + 1);
    }
}

/// The body of an OSC sequence ends within the text.
pub proof fn lemma_osc_body_end(s: Seq<char>, j: int)
    requires
        0 <= j <= s.len(),
    ensures
        j <= osc_body_end(s, j) <= s.len(),
    decreases s.len() - j,
{
    if j < s.len() && s[j] != '\x07' && s[j] != '\x1b' {
        lemma_osc_body_end(s, j + 1);
    }
}

/// An escape sequence covers its ESC and ends within the text.
pub proof fn lemma_escape_end(s: Seq<char>, i: int)
    requires
        0 <= i < s.len(),
    ensures
        i < escape_end(s, i) <= s.len(),
{
    let j = i + 1;
    if j < s.len() && s[j] == '[' {
        lemma_params_end(s, j + 1);
    } else if j < s.len() && s[j] == ']' {
        lemma_osc_body_end(s, j + 1);
    }
}

/// The visible text of `s` from position `i` on: characters outside escape
/// sequences are kept, each escape sequence is dropped whole.
pub open spec fn visible_from(s: Seq<char>, i: int) -> Seq<char>
    decreases s.len() - i,
{
    if i < 0 || i >= s.len() {
        Seq::empty()
    } else if s[i] != '\x1b' {
        seq![s[i]] + visible_from(s, i + 1)
    } else {
        proof {
            lemma_escape_end(s, i);
        }
        visible_from(s, escape_end(s, i))
    }
}

/// The text of `s` without its ANSI escape sequences.
pub open spec fn visible_text(s: Seq<char>) -> Seq<char> {
    visible_from(s, 0)
}

fn is_ascii_digit_char(c: char) -> (b: bool)
    ensures
        b == is_ascii_digit(c),
{
    '0' <= c && c <= '9'
}

fn is_ascii_alpha_char(c: char) -> (b: bool)
    ensures
        b == is_ascii_alpha(c),
{
    ('a' <= c && c <= 'z') || ('A' <= c && c <= 'Z')
}

/// Index after the escape sequence that starts with the ESC at `i`.
fn skip_escape(v: &Vec<char>, i: usize) -> (e: usize)
    requires
        i < v@.len(),
    ensures
        e == escape_end(v@, i as int),
{
    let n = v.len();
    let j = i + 1;
    if j < n && v[j] == '[' {
        let mut k = j + 1;
        while k < n && (is_ascii_digit_char(v[k]) || v[k] == ';')
            invariant
                n == v@.len(),
                j + 1 <= k <= n,
                params_end(v@, k as int) == params_end(v@, j + 1),
            decreases n - k,
        {
            k += 1;
        }
        if k < n && is_ascii_alpha_char(v[k]) {
            k + 1
        } else {
            k
        }
    } else if j < n && v[j] == ']' {
        let mut k = j + 1;
        while k < n && v[k] != '\x07' && v[k] != '\x1b'
            invariant
                n == v@.len(),
                j + 1 <= k <= n,
                osc_body_end(v@, k as int) == osc_body_end(v@, j + 1),
            decreases n - k,
        {
            k += 1;
        }
        if k < n && v[k] == '\x1b' {
            if k + 1 < n && v[k + 1] == '\\' {
                k + 2
            } else {
                k + 1
            }
        } else if k < n && v[k] == '\x07' {
            k + 1
        } else {
            k
        }
    } else if j < n {
        j + 1
    } else {
        j
    }
}

/// Removes ANSI escape sequences (colours, cursor control, OSC titles) so
/// that terminal output reads cleanly outside a terminal.
pub fn strip_ansi(s: &str) -> (r: String)
    ensures
        r@ == visible_text(s@),
{
    let v = chars_of(s);
    let n = v.len();
    let mut r = String::new();
    let mut i: usize = 0;
    while i < n
        invariant
            n == v@.len(),
            v@ == s@,
            i <= n,
            r@ + visible_from(v@, i as int) == visible_text(v@),
        decreases n - i,
    {
        if v[i] != '\x1b' {
            let ghost before = r@;
            push_char(&mut r, v[i]);
            assert(before + visible_from(v@, i as int) =~= r@ + visible_from(v@, i + 1));
            i += 1;
        } else {
            proof {
                lemma_escape_end(v@, i as int);
            }
            i = skip_escape(&v, i);
        }
    }
    assert(visible_from(v@, n as int) =~= Seq::<char>::empty());
    assert(r@ + Seq::<char>::empty() =~= r@);
    r
}

/// The visible text from `i` on holds no ESC.
pub proof fn lemma_visible_from_no_escape(s: Seq<char>, i: int)
    ensures
        !visible_from(s, i).contains('\x1b'),
    decreases s.len() - i,
{
    if 0 <= i < s.len() {
        if s[i] != '\x1b' {
            lemma_visible_from_no_escape(s, i + 1);
            let r = visible_from(s, i + 1);
            assert forall|k: int| 0 <= k < (seq![s[i]] + r).len() implies (seq![s[i]] + r)[k]
                != '\x1b' by {
                if k > 0 {
                    assert((seq![s[i]] + r)[k] == r[k - 1]);
                }
            }
        } else {
            lemma_escape_end(s, i);
            lemma_visible_from_no_escape(s, escape_end(s, i));
        }
    }
}

/// Text without escape sequences passes through unchanged.
pub proof fn lemma_plain_text_kept(s: Seq<char>, i: int)
    requires
        !s.contains('\x1b'),
        0 <= i <= s.len(),
    ensures
        visible_from(s, i) == s.skip(i),
    decreases s.len() - i,
{
    if i < s.len() {
        assert(s[i] != '\x1b') by {
            if s[i] == '\x1b' {
                assert(s.contains(s[i]));
            }
        }
        lemma_plain_text_kept(s, i + 1);
        assert(seq![s[i]] + s.skip(i + 1) =~= s.skip(i));
    } else {
        assert(s.skip(i) =~= Seq::<char>::empty());
    }
}

/// Stripping is idempotent: the stripped text has no escape sequences left,
/// so stripping it again changes nothing.
pub proof fn lemma_strip_idempotent(s: Seq<char>)
    ensures
        !visible_text(s).contains('\x1b'),
        visible_text(visible_text(s)) == visible_text(s),
{
    lemma_visible_from_no_escape(s, 0);
    lemma_plain_text_kept(visible_text(s), 0);
    assert(visible_text(s).skip(0) =~= visible_text(s));
}

/// Where a run of CSI parameters starts or ends does not depend on the text
/// before it.
proof fn lemma_params_end_shift(pre: Seq<char>, t: Seq<char>, j: int)
    requires
        0 <= j,
    ensures
        params_end(pre + t, pre.len() + j) == pre.len() + params_end(t, j),
    decreases t.len() - j,
{
    if j < t.len() {
        assert((pre + t)[pre.len() + j] == t[j]);
        lemma_params_end_shift(pre, t, j + 1);
    }
}

/// Where an OSC body ends does not depend on the text before it.
proof fn lemma_osc_body_end_shift(pre: Seq<char>, t: Seq<char>, j: int)
    requires
        0 <= j,
    ensures
        osc_body_end(pre + t, pre.len() + j) == pre.len() + osc_body_end(t, j),
    decreases t.len() - j,
{
    if j < t.len() {
        assert((pre + t)[pre.len() + j] == t[j]);
        lemma_osc_body_end_shift(pre, t, j + 1);
    }
}

/// Where an escape sequence ends does not depend on the text before it.
proof fn lemma_escape_end_shift(pre: Seq<char>, t: Seq<char>, i: int)
    requires
        0 <= i,
    ensures
        escape_end(pre + t, pre.len() + i) == pre.len() + escape_end(t, i),
{
    let w = pre + t;
    let o = pre.len() as int;
    assert forall|k: int| 0 <= k < t.len() implies w[o + k] == t[k] by {}
    lemma_params_end_shift(pre, t, i + 2);
    lemma_osc_body_end_shift(pre, t, i + 2);
    let kp = params_end(t, i + 2);
    let ko = osc_body_end(t, i + 2);
    if i + 2 <= t.len() {
        lemma_params_end(t, i + 2);
        lemma_osc_body_end(t, i + 2);
    }
    if 0 <= kp < t.len() {
        assert(w[o + kp] == t[kp]);
    }
    if 0 <= ko < t.len() {
        assert(w[o + ko] == t[ko]);
    }
    if 0 <= ko + 1 < t.len() {
        assert(w[o + ko + 1] == t[ko + 1]);
    }
    if i + 1 < t.len() {
        assert(w[o + i + 1] == t[i + 1]);
    }
}

/// The visible text after a position does not depend on the text before it.
proof fn lemma_visible_from_shift(pre: Seq<char>, t: Seq<char>, i: int)
    requires
        0 <= i,
    ensures
        visible_from(pre + t, pre.len() + i) == visible_from(t, i),
    decreases t.len() - i,
{
    if i < t.len() {
        assert((pre + t)[pre.len() + i] == t[i]);
        if t[i] != '\x1b' {
            lemma_visible_from_shift(pre, t, i + 1);
        } else {
            lemma_escape_end(t, i);
            lemma_escape_end_shift(pre, t, i);
            lemma_visible_from_shift(pre, t, escape_end(t, i));
        }
    }
}

/// Text without ESC before `t` is kept as it is.
proof fn lemma_visible_plain_prefix(u: Seq<char>, t: Seq<char>, i: int)
    requires
        !u.contains('\x1b'),
        0 <= i <= u.len(),
    ensures
        visible_from(u + t, i) == u.skip(i) + visible_from(t, 0),
    decreases u.len() - i,
{
    if i < u.len() {
        assert((u + t)[i] == u[i]);
        assert(u[i] != '\x1b') by {
            if u[i] == '\x1b' {
                assert(u.contains(u[i]));
            }
        }
        lemma_visible_plain_prefix(u, t, i + 1);
        assert(seq![u[i]] + (u.skip(i + 1) + visible_from(t, 0)) =~= u.skip(i) + visible_from(
            t,
            0,
        ));
    } else {
        lemma_visible_from_shift(u, t, 0);
        assert(u.skip(i) =~= Seq::<char>::empty());
        assert(Seq::<char>::empty() + visible_from(t, 0) =~= visible_from(t, 0));
    }
}

/// The run of CSI parameters over `params` ends at the character after it
/// when that character is a letter.
proof fn lemma_params_run(w: Seq<char>, j: int, params: Seq<char>, k: int)
    requires
        0 <= j,
        0 <= k <= params.len(),
        j + params.len() < w.len(),
        w.subrange(j, j + params.len()) == params,
        forall|m: int| 0 <= m < params.len() ==> is_ascii_digit(#[trigger] params[m]) || params[m] == ';',
        is_ascii_alpha(w[j + params.len()]),
    ensures
        params_end(w, j + k) == j + params.len(),
    decreases params.len() - k,
{
    if k < params.len() {
        assert(w[j + k] == params[k]);
        lemma_params_run(w, j, params, k + 1);
    } else {
        let c = w[j + params.len()];
        assert(!is_ascii_digit(c) && c != ';');
    }
}

/// A CSI sequence `ESC [ p1;p2;...;pn X`, whose parameters are digits and
/// `;` and whose final character is a letter, is removed whole: what comes
/// before it (without escapes) and the visible text after it are all that
/// is left.
pub proof fn lemma_csi_removed_whole(
    before: Seq<char>,
    params: Seq<char>,
    last: char,
    after: Seq<char>,
)
    requires
        !before.contains('\x1b'),
        forall|m: int| 0 <= m < params.len() ==> is_ascii_digit(#[trigger] params[m]) || params[m] == ';',
        is_ascii_alpha(last),
    ensures
        visible_text(before + seq!['\x1b', '['] + params + seq![last] + after) == before
            + visible_text(after),
{
    let csi = seq!['\x1b', '['] + params + seq![last];
    let t = csi + after;
    assert(before + seq!['\x1b', '['] + params + seq![last] + after =~= before + t);
    lemma_visible_plain_prefix(before, t, 0);
    assert(before.skip(0) =~= before);
    assert(t[0] == '\x1b');
    assert(t[1] == '[');
    assert(t.subrange(2, 2 + params.len() as int) =~= params);
    assert(t[2 + params.len() as int] == last);
    lemma_params_run(t, 2, params, 0);
    assert(escape_end(t, 0) == csi.len());
    lemma_visible_from_shift(csi, after, 0);
}

/// The body of an OSC sequence runs up to the first BEL or ESC.
proof fn lemma_osc_run(w: Seq<char>, j: int, body: Seq<char>, k: int)
    requires
        0 <= j,
        0 <= k <= body.len(),
        j + body.len() < w.len(),
        w.subrange(j, j + body.len()) == body,
        forall|m: int| 0 <= m < body.len() ==> #[trigger] body[m] != '\x07' && body[m] != '\x1b',
        w[j + body.len()] == '\x07',
    ensures
        osc_body_end(w, j + k) == j + body.len(),
    decreases body.len() - k,
{
    if k < body.len() {
        assert(w[j + k] == body[k]);
        lemma_osc_run(w, j, body, k + 1);
    }
}

/// An OSC sequence `ESC ] body BEL` (a window title, for instance), whose
/// body holds neither BEL nor ESC, is removed whole.
pub proof fn lemma_osc_removed_whole(before: Seq<char>, body: Seq<char>, after: Seq<char>)
    requires
        !before.contains('\x1b'),
        forall|m: int| 0 <= m < body.len() ==> #[trigger] body[m] != '\x07' && body[m] != '\x1b',
    ensures
        visible_text(before + seq!['\x1b', ']'] + body + seq!['\x07'] + after) == before
            + visible_text(after),
{
    let osc = seq!['\x1b', ']'] + body + seq!['\x07'];
    let t = osc + after;
    assert(before + seq!['\x1b', ']'] + body + seq!['\x07'] + after =~= before + t);
    lemma_visible_plain_prefix(before, t, 0);
    assert(before.skip(0) =~= before);
    assert(t[0] == '\x1b');
    assert(t[1] == ']');
    assert(t.subrange(2, 2 + body.len() as int) =~= body);
    assert(t[2 + body.len() as int] == '\x07');
    lemma_osc_run(t, 2, body, 0);
    assert(escape_end(t, 0) == osc.len());
    lemma_visible_from_shift(osc, after, 0);
}

/// An ESC followed by a character that opens neither a CSI nor an OSC
/// sequence is removed together with that character, and nothing else.
pub proof fn lemma_short_escape_removed(before: Seq<char>, c: char, after: Seq<char>)
    requires
        !before.contains('\x1b'),
        c != '[',
        c != ']',
    ensures
        visible_text(before + seq!['\x1b', c] + after) == before + visible_text(after),
{
    let esc = seq!['\x1b', c];
    let t = esc + after;
    assert(before + seq!['\x1b', c] + after =~= before + t);
    lemma_visible_plain_prefix(before, t, 0);
    assert(before.skip(0) =~= before);
    assert(t[0] == '\x1b');
    assert(t[1] == c);
    assert(escape_end(t, 0) == 2);
    lemma_visible_from_shift(esc, after, 0);
}

/// `a` is a subsequence of `b`: its characters occur in `b` at increasing
/// positions, given by `ix`.
pub open spec fn subsequence_at(a: Seq<char>, b: Seq<char>, ix: Seq<int>) -> bool {
    &&& ix.len() == a.len()
    &&& forall|k: int| 0 <= k < a.len() ==> 0 <= #[trigger] ix[k] < b.len() && a[k] == b[ix[k]]
    &&& forall|k1: int, k2: int| 0 <= k1 < k2 < a.len() ==> #[trigger] ix[k1] < #[trigger] ix[k2]
}

/// `a` is a subsequence of `b`.
pub open spec fn is_subsequence(a: Seq<char>, b: Seq<char>) -> bool {
    exists|ix: Seq<int>| #[trigger] subsequence_at(a, b, ix)
}

/// The positions in `s` of the visible text from `i` on: increasing, each
/// at least `i` plus its rank.
proof fn lemma_visible_positions(s: Seq<char>, i: int) -> (ix: Seq<int>)
    requires
        0 <= i,
    ensures
        subsequence_at(visible_from(s, i), s, ix),
        forall|k: int| 0 <= k < ix.len() ==> #[trigger] ix[k] >= i + k,
    decreases s.len() - i,
{
    if i >= s.len() {
        Seq::empty()
    } else if s[i] != '\x1b' {
        let rest = lemma_visible_positions(s, i + 1);
        let ix = seq![i] + rest;
        let v = visible_from(s, i);
        assert(v == seq![s[i]] + visible_from(s, i + 1));
        assert forall|k: int| 0 <= k < v.len() implies 0 <= #[trigger] ix[k] < s.len() && v[k]
            == s[ix[k]] && ix[k] >= i + k by {
            if k > 0 {
                assert(ix[k] == rest[k - 1]);
                assert(v[k] == visible_from(s, i + 1)[k - 1]);
            }
        }
        assert forall|k1: int, k2: int| 0 <= k1 < k2 < v.len() implies #[trigger] ix[k1]
            < #[trigger] ix[k2] by {
            assert(ix[k2] == rest[k2 - 1]);
            if k1 > 0 {
                assert(ix[k1] == rest[k1 - 1]);
            }
        }
        ix
    } else {
        lemma_escape_end(s, i);
        let ix = lemma_visible_positions(s, escape_end(s, i));
        assert forall|k: int| 0 <= k < ix.len() implies #[trigger] ix[k] >= i + k by {}
        ix
    }
}

/// Stripping only removes: the result is a subsequence of the input (so no
/// longer), holds no ESC, and equals the input exactly when the input holds
/// no ESC.
pub proof fn lemma_strip_subsequence(s: Seq<char>)
    ensures
        is_subsequence(visible_text(s), s),
        visible_text(s).len() <= s.len(),
        !visible_text(s).contains('\x1b'),
        visible_text(s) == s <==> !s.contains('\x1b'),
{
    let ix = lemma_visible_positions(s, 0);
    assert(subsequence_at(visible_text(s), s, ix));
    if visible_text(s).len() > s.len() {
        let k = s.len() as int;
        assert(ix[k] >= k);
    }
    lemma_visible_from_no_escape(s, 0);
    if !s.contains('\x1b') {
        lemma_plain_text_kept(s, 0);
        assert(s.skip(0) =~= s);
    }
}

} // verus!
