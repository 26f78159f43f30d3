//! Deciding whether a newer release of the application is available.
use vstd::prelude::*;

use crate::client::{decimal, digit_char};
use crate::text::{chars_of, is_ascii_digit, split_chars, split_on, string_of, views};

verus! {

/// A newer release of the application.
pub struct AppUpdateInfo {
    /// The release's version, without a leading `v`.
    pub version: String,
    /// The page of the release.
    pub url: String,
}

/// `s` without one leading `v`, if it has one.
pub open spec fn strip_one_v(s: Seq<char>) -> Seq<char> {
    if s.len() > 0 && s[0] == 'v' {
        s.skip(1)
    } else {
        s
    }
}

/// `s` without one leading `v`, if it has one.
fn strip_one_v_exec(s: &Vec<char>) -> (r: Vec<char>)
    ensures
        r@ == strip_one_v(s@),
{
    if s.len() > 0 && s[0] == 'v' {
        crate::text::subrange_chars(s, 1, s.len())
    } else {
        s.clone()
    }
}

/// Decimal value of a run of ASCII digits.
pub open spec fn dec_value(d: Seq<char>) -> nat
    decreases d.len(),
{
    if d.len() == 0 {
        0
    } else {
        (dec_value(d.drop_last()) * 10 + (d.last() as int - '0' as int)) as nat
    }
}

pub open spec fn all_digits(d: Seq<char>) -> bool {
    forall|i: int| 0 <= i < d.len() ==> is_ascii_digit(#[trigger] d[i])
}

/// The digits of an unsigned integer literal: one leading `+` is allowed.
pub open spec fn unsigned_digits(s: Seq<char>) -> Seq<char> {
    if s.len() > 0 && s[0] == '+' {
        s.skip(1)
    } else {
        s
    }
}

/// `u32::from_str`: an optional `+`, then one or more ASCII digits whose
/// value fits in a `u32`.
pub open spec fn parse_u32(s: Seq<char>) -> Option<u32> {
    let d = unsigned_digits(s);
    if d.len() > 0 && all_digits(d) && dec_value(d) <= u32::MAX {
        Some(dec_value(d) as u32)
    } else {
        None
    }
}

/// A version segment: one or more ASCII digits (no sign) whose value fits
/// in a `u32`.
pub open spec fn parse_digits(s: Seq<char>) -> Option<u32> {
    if s.len() > 0 && all_digits(s) && dec_value(s) <= u32::MAX {
        Some(dec_value(s) as u32)
    } else {
        None
    }
}

/// A prefix of a run of digits has no greater value than the run.
pub proof fn lemma_dec_value_prefix(d: Seq<char>, k: int)
    requires
        all_digits(d),
        0 <= k <= d.len(),
    ensures
        dec_value(d.take(k)) <= dec_value(d),
    decreases d.len(),
{
    if k < d.len() {
        let p = d.drop_last();
        assert(p.take(k) =~= d.take(k));
        assert(all_digits(p));
        lemma_dec_value_prefix(p, k);
        assert(is_ascii_digit(d[d.len() - 1]));
    } else {
        assert(d.take(k) =~= d);
    }
}

/// `u32::from_str`.
pub fn parse_u32_chars(s: &Vec<char>) -> (r: Option<u32>)
    ensures
        r == parse_u32(s@),
{
    let n = s.len();
    let start: usize = if n > 0 && s[0] == '+' {
        1
    } else {
        0
    };
    let ghost d = unsigned_digits(s@);
    assert(d =~= s@.subrange(start as int, n as int));
    if start == n {
        return None;
    }
    let mut acc: u64 = 0;
    let mut i = start;
    while i < n
        invariant
            n == s@.len(),
            start <= i <= n,
            d =~= s@.subrange(start as int, n as int),
            d == unsigned_digits(s@),
            all_digits(d.take(i - start)),
            acc == dec_value(d.take(i - start)),
            acc <= u32::MAX,
        decreases n - i,
    {
        let c = s[i];
        if !('0' <= c && c <= '9') {
            assert(d[i - start] == c);
            assert(!all_digits(d));
            return None;
        }
        let digit = (c as u32 - '0' as u32) as u64;
        assert(d.take(i + 1 - start).drop_last() =~= d.take(i - start));
        assert(d.take(i + 1 - start).last() == c);
        acc = acc * 10 + digit;
        assert(dec_value(d.take(i + 1 - start)) == dec_value(d.take(i - start)) * 10 + (c as int
            - '0' as int));
        assert(acc == dec_value(d.take(i + 1 - start)));
        assert(all_digits(d.take(i + 1 - start)));
        if acc > 0xffff_ffff {
            proof {
                lemma_dec_value_prefix_if_digits(d, i + 1 - start);
            }
            return None;
        }
        i += 1;
    }
    assert(d.take(n - start) =~= d);
    Some(acc as u32)
}

/// If `d` is all digits, its prefixes are bounded by it; otherwise `d` does
/// not parse at all.
proof fn lemma_dec_value_prefix_if_digits(d: Seq<char>, k: int)
    requires
        0 <= k <= d.len(),
    ensures
        all_digits(d) ==> dec_value(d.take(k)) <= dec_value(d),
{
    if all_digits(d) {
        lemma_dec_value_prefix(d, k);
    }
}

/// A release version `major.minor.patch`.
pub type VersionTriple = (u32, u32, u32);

/// `"v0.2.7"` / `"0.2.7"`: after one optional leading `v`, exactly three
/// `.`-separated segments, each one or more ASCII digits that fit in a
/// `u32`; anything else is not a version.
pub open spec fn parse_version_spec(s: Seq<char>) -> Option<VersionTriple> {
    let parts = split_on(strip_one_v(s), '.');
    if parts.len() == 3 && parse_digits(parts[0]) is Some && parse_digits(parts[1]) is Some
        && parse_digits(parts[2]) is Some {
        Some((parse_digits(parts[0])->0, parse_digits(parts[1])->0, parse_digits(parts[2])->0))
    } else {
        None
    }
}

/// A version segment.
fn parse_digits_chars(s: &Vec<char>) -> (r: Option<u32>)
    ensures
        r == parse_digits(s@),
{
    if s.len() > 0 && s[0] == '+' {
        assert(!all_digits(s@)) by {
            assert(!is_ascii_digit(s@[0]));
        }
        return None;
    }
    assert(unsigned_digits(s@) == s@);
    parse_u32_chars(s)
}

/// Parses a `v0.2.7` / `0.2.7` version; anything else is `None`.
pub fn parse_version(s: &str) -> (r: Option<VersionTriple>)
    ensures
        r == parse_version_spec(s@),
{
    let v = chars_of(s);
    let t = strip_one_v_exec(&v);
    let parts = split_chars(&t, '.');
    assert(views(parts@).len() == parts@.len());
    if parts.len() != 3 {
        return None;
    }
    assert(views(parts@)[0] == parts@[0]@);
    assert(views(parts@)[1] == parts@[1]@);
    assert(views(parts@)[2] == parts@[2]@);
    let major = match parse_digits_chars(&parts[0]) {
        Some(x) => x,
        None => return None,
    };
    let minor = match parse_digits_chars(&parts[1]) {
        Some(x) => x,
        None => return None,
    };
    let patch = match parse_digits_chars(&parts[2]) {
        Some(x) => x,
        None => return None,
    };
    Some((major, minor, patch))
}

/// The decimal digits of `n` are digits without `.` or `v`, and read back
/// as `n`.
proof fn lemma_decimal_digits(n: nat)
    ensures
        decimal(n).len() > 0,
        all_digits(decimal(n)),
        dec_value(decimal(n)) == n,
        !decimal(n).contains('.'),
        decimal(n)[0] != 'v',
    decreases n,
{
    lemma_digit_char_value(n % 10);
    if n < 10 {
        assert(n % 10 == n);
        assert(decimal(n) == seq![digit_char(n)]);
        assert(decimal(n).drop_last() =~= Seq::<char>::empty());
        assert(dec_value(decimal(n).drop_last()) == 0);
        assert(decimal(n).last() == digit_char(n));
        assert(dec_value(decimal(n)) == dec_value(decimal(n).drop_last()) * 10 + (digit_char(n) as int
            - '0' as int));
    } else {
        lemma_decimal_digits(n / 10);
        let p = decimal(n / 10);
        assert(decimal(n) == p.push(digit_char(n % 10)));
        assert(decimal(n).drop_last() =~= p);
        assert(decimal(n).last() == digit_char(n % 10));
        assert(dec_value(decimal(n)) == dec_value(p) * 10 + (digit_char(n % 10) as int - '0' as int));
        assert((n / 10) * 10 + n % 10 == n);
        assert(decimal(n)[0] == p[0]);
        assert forall|i: int| 0 <= i < decimal(n).len() implies is_ascii_digit(#[trigger] decimal(n)[i]) by {
            if i < p.len() {
                assert(decimal(n)[i] == p[i]);
            }
        }
        assert(!decimal(n).contains('.')) by {
            if decimal(n).contains('.') {
                let i = choose|i: int| 0 <= i < decimal(n).len() && decimal(n)[i] == '.';
                if i < p.len() {
                    assert(p[i] == '.');
                }
            }
        }
    }
}

/// A decimal digit character stands for its value.
proof fn lemma_digit_char_value(d: nat)
    requires
        d < 10,
    ensures
        is_ascii_digit(digit_char(d)),
        digit_char(d) as int - '0' as int == d,
        digit_char(d) != '.',
        digit_char(d) != 'v',
{
}

/// The three pieces of `a.b.c` for texts without `.`.
proof fn lemma_split_three(a: Seq<char>, b: Seq<char>, c: Seq<char>)
    requires
        !a.contains('.'),
        !b.contains('.'),
        !c.contains('.'),
    ensures
        split_on(a + seq!['.'] + b + seq!['.'] + c, '.') == seq![a, b, c],
{
    let bc = b + seq!['.'] + c;
    assert(a + seq!['.'] + b + seq!['.'] + c =~= a + seq!['.'] + bc);
    crate::text::lemma_split_on_append(a, bc, '.');
    crate::text::lemma_split_on_append(b, c, '.');
    crate::text::lemma_split_on_without_sep(a, '.');
    crate::text::lemma_split_on_without_sep(b, '.');
    crate::text::lemma_split_on_without_sep(c, '.');
    assert(seq![a] + (seq![b] + seq![c]) =~= seq![a, b, c]);
}

/// Writing three numbers as `a.b.c` (or `va.b.c`) and parsing the text gives
/// the numbers back.
pub proof fn lemma_parse_version_roundtrip(a: u32, b: u32, c: u32)
    ensures
        parse_version_spec(decimal(a as nat) + seq!['.'] + decimal(b as nat) + seq!['.'] + decimal(
            c as nat,
        )) == Some((a, b, c)),
        parse_version_spec(seq!['v'] + decimal(a as nat) + seq!['.'] + decimal(b as nat) + seq![
            '.',
        ] + decimal(c as nat)) == Some((a, b, c)),
{
    let da = decimal(a as nat);
    let db = decimal(b as nat);
    let dc = decimal(c as nat);
    lemma_decimal_digits(a as nat);
    lemma_decimal_digits(b as nat);
    lemma_decimal_digits(c as nat);
    let t = da + seq!['.'] + db + seq!['.'] + dc;
    lemma_split_three(da, db, dc);
    assert(t[0] == da[0]);
    assert(strip_one_v(t) == t);
    assert((seq!['v'] + t).skip(1) =~= t);
    assert(seq!['v'] + da + seq!['.'] + db + seq!['.'] + dc =~= seq!['v'] + t);
}

/// Lexicographic order of version triples.
pub open spec fn version_newer(a: VersionTriple, b: VersionTriple) -> bool {
    a.0 > b.0 || (a.0 == b.0 && (a.1 > b.1 || (a.1 == b.1 && a.2 > b.2)))
}

/// What the update check reports for a release tagged `tag` at `url`, when
/// the running application is `current`.
pub open spec fn app_update_spec(tag: Seq<char>, url: Seq<char>, current: Seq<char>) -> Option<
    (Seq<char>, Seq<char>),
> {
    match (parse_version_spec(tag), parse_version_spec(current)) {
        (Some(latest), Some(cur)) => if version_newer(latest, cur) {
            Some((strip_one_v(tag), url))
        } else {
            None
        },
        _ => None,
    }
}

/// The text `major.minor.patch` of three numbers.
pub open spec fn version_text(a: u32, b: u32, c: u32) -> Seq<char> {
    decimal(a as nat) + seq!['.'] + decimal(b as nat) + seq!['.'] + decimal(c as nat)
}

/// A release `va.b.c` is offered over a running `x.y.z` exactly when it is
/// later: a higher major, or the same major and a higher minor, or the same
/// major and minor and a higher patch; the offer names the version without
/// its `v` and the release page.
pub proof fn lemma_update_offered_iff_later(
    a: u32,
    b: u32,
    c: u32,
    x: u32,
    y: u32,
    z: u32,
    url: Seq<char>,
)
    ensures
        app_update_spec(seq!['v'] + version_text(a, b, c), url, version_text(x, y, z)) is Some
            <==> (a > x || (a == x && b > y) || (a == x && b == y && c > z)),
        app_update_spec(seq!['v'] + version_text(a, b, c), url, version_text(x, y, z)) is Some
            ==> app_update_spec(seq!['v'] + version_text(a, b, c), url, version_text(x, y, z))->0
            == (version_text(a, b, c), url),
        app_update_spec(version_text(a, b, c), url, seq!['v'] + version_text(x, y, z)) is Some
            <==> (a > x || (a == x && b > y) || (a == x && b == y && c > z)),
        app_update_spec(version_text(a, b, c), url, seq!['v'] + version_text(x, y, z)) is Some
            ==> app_update_spec(version_text(a, b, c), url, seq!['v'] + version_text(x, y, z))->0
            == (version_text(a, b, c), url),
{
    lemma_parse_version_roundtrip(a, b, c);
    lemma_parse_version_roundtrip(x, y, z);
    assert(seq!['v'] + version_text(a, b, c) =~= seq!['v'] + decimal(a as nat) + seq!['.']
        + decimal(b as nat) + seq!['.'] + decimal(c as nat));
    assert(seq!['v'] + version_text(x, y, z) =~= seq!['v'] + decimal(x as nat) + seq!['.']
        + decimal(y as nat) + seq!['.'] + decimal(z as nat));
    assert((seq!['v'] + version_text(a, b, c)).skip(1) =~= version_text(a, b, c));
    lemma_version_text_starts_with_digit(a, b, c);
}

/// A version text starts with a digit, so it has no `v` to strip.
proof fn lemma_version_text_starts_with_digit(a: u32, b: u32, c: u32)
    ensures
        version_text(a, b, c).len() > 0,
        version_text(a, b, c)[0] != 'v',
        strip_one_v(version_text(a, b, c)) == version_text(a, b, c),
{
    lemma_decimal_digits(a as nat);
    assert(version_text(a, b, c)[0] == decimal(a as nat)[0]);
}

/// A newer patch release of the same major and minor version is offered,
/// and an update is never offered over the same or a later version.
pub proof fn lemma_patch_release_offered(a: u32, b: u32, c: u32, d: u32, url: Seq<char>)
    ensures
        c > d ==> app_update_spec(seq!['v'] + version_text(a, b, c), url, version_text(a, b, d))
            is Some,
        c <= d ==> app_update_spec(seq!['v'] + version_text(a, b, c), url, version_text(a, b, d))
            is None,
{
    lemma_update_offered_iff_later(a, b, c, a, b, d, url);
}

/// Decides the update to offer from a release's tag and page: only a tag
/// that parses and is newer than `current` (which must parse too) is offered.
pub fn app_update_from(tag: &str, url: &str, current: &str) -> (r: Option<AppUpdateInfo>)
    ensures
        r is Some <==> app_update_spec(tag@, url@, current@) is Some,
        r is Some ==> (r->0.version@, r->0.url@) == app_update_spec(tag@, url@, current@)->0,
{
    let latest = match parse_version(tag) {
        Some(x) => x,
        None => return None,
    };
    let cur = match parse_version(current) {
        Some(x) => x,
        None => return None,
    };
    let newer = latest.0 > cur.0 || (latest.0 == cur.0 && (latest.1 > cur.1 || (latest.1
        == cur.1 && latest.2 > cur.2)));
    if newer {
        let tv = chars_of(tag);
        let version = string_of(&strip_one_v_exec(&tv));
        Some(AppUpdateInfo { version, url: String::from_str(url) })
    } else {
        None
    }
}

/// The string at `key` of the JSON object that `body` encodes, if `body`
/// parses as JSON, is an object, and holds a string there.
pub uninterp spec fn json_string_field(body: Seq<u8>, key: Seq<char>) -> Option<Seq<char>>;

/// `serde_json::from_slice` into a `serde_json::Value`, then `Value::get` and
/// the string variant. Claimed: the outcome is a function of the bytes and
/// the key alone (`json_string_field`); nothing more is said of it.
#[verifier::external_body]
fn json_str_field(body: &[u8], key: &str) -> (r: Option<String>)
    ensures
        match r {
            Some(v) => json_string_field(body@, key@) == Some(v@),
            None => json_string_field(body@, key@) is None,
        },
{
    let value: serde_json::Value = match serde_json::from_slice(body) {
        Ok(v) => v,
        Err(_) => return None,
    };
    match value.get(key) {
        Some(serde_json::Value::String(s)) => Some(s.clone()),
        _ => None,
    }
}

/// The update to offer, read from the body of the latest-release endpoint:
/// its `tag_name` and `html_url` strings, decided by `app_update_from`.
pub fn release_update(body: &[u8], current: &str) -> (r: Option<AppUpdateInfo>)
    ensures
        match (json_string_field(body@, "tag_name"@), json_string_field(body@, "html_url"@)) {
            (Some(tag), Some(url)) => {
                &&& (r is Some <==> app_update_spec(tag, url, current@) is Some)
                &&& (r is Some ==> (r->0.version@, r->0.url@) == app_update_spec(
                    tag,
                    url,
                    current@,
                )->0)
            },
            _ => r is None,
        },
{
    let tag = match json_str_field(body, "tag_name") {
        Some(t) => t,
        None => return None,
    };
    let url = match json_str_field(body, "html_url") {
        Some(u) => u,
        None => return None,
    };
    app_update_from(tag.as_str(), url.as_str(), current)
}

} // verus!
