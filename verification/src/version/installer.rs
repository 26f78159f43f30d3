//! Where a version's archive is downloaded from and where its entries go.
use vstd::prelude::*;

use crate::paths::{
    is_absolute, is_named, join_path, named_components, named_components_exec, path_join,
    starts_at_cur_dir,
    starts_at_cur_dir_exec,
};
use crate::text::{
    append_chars, chars_of, concat_str, contains, ends_with, join, join_chars, starts_with, str_contains,
    string_of, views,
};
use crate::version::error::VersionManagerError;

verus! {

/// The operating system the archive is for.
#[derive(Clone, Copy)]
pub enum HostOs {
    MacOs,
    Windows,
    Other,
}

/// The platform part of an archive name for the host.
pub open spec fn platform_prefix_spec(os: HostOs, aarch64: bool) -> Seq<char> {
    match os {
        HostOs::MacOs => if aarch64 {
            "darwin-arm64"@
        } else {
            "darwin-x64"@
        },
        HostOs::Windows => if aarch64 {
            "win-arm64"@
        } else {
            "win-x64"@
        },
        HostOs::Other => "linux-x64"@,
    }
}

/// The platform to fall back to when the host's archive does not exist:
/// the x64 build, run under emulation, on ARM macOS and Windows.
pub open spec fn fallback_platform_spec(os: HostOs, aarch64: bool) -> Option<Seq<char>> {
    match os {
        HostOs::MacOs => if aarch64 {
            Some("darwin-x64"@)
        } else {
            None
        },
        HostOs::Windows => if aarch64 {
            Some("win-x64"@)
        } else {
            None
        },
        HostOs::Other => None,
    }
}

/// The platform part of an archive name names the host: its system
/// (`darwin-`, `win-`, `linux-`) and, on macOS and Windows, its
/// architecture (`arm64` on ARM, `x64` otherwise); the fallback, which
/// exists exactly on ARM macOS and Windows, is the x64 build of the same
/// system, never the primary platform itself.
pub proof fn lemma_platform_names_host(os: HostOs, aarch64: bool)
    ensures
        os is MacOs ==> starts_with(platform_prefix_spec(os, aarch64), "darwin-"@),
        os is Windows ==> starts_with(platform_prefix_spec(os, aarch64), "win-"@),
        os is Other ==> starts_with(platform_prefix_spec(os, aarch64), "linux-"@),
        !(os is Other) && aarch64 ==> ends_with(platform_prefix_spec(os, aarch64), "-arm64"@),
        !(os is Other) && !aarch64 ==> ends_with(platform_prefix_spec(os, aarch64), "-x64"@),
        fallback_platform_spec(os, aarch64) is Some <==> (aarch64 && !(os is Other)),
        fallback_platform_spec(os, aarch64) is Some ==> {
            let f = fallback_platform_spec(os, aarch64)->0;
            &&& f != platform_prefix_spec(os, aarch64)
            &&& ends_with(f, "-x64"@)
            &&& f == platform_prefix_spec(os, false)
        },
{
    reveal_strlit("darwin-");
    reveal_strlit("win-");
    reveal_strlit("linux-");
    reveal_strlit("-arm64");
    reveal_strlit("-x64");
    reveal_strlit("darwin-arm64");
    reveal_strlit("darwin-x64");
    reveal_strlit("win-arm64");
    reveal_strlit("win-x64");
    reveal_strlit("linux-x64");
    let p = platform_prefix_spec(os, aarch64);
    match os {
        HostOs::MacOs => {
            assert(p.take(7) =~= "darwin-"@);
            if aarch64 {
                assert(p.skip(p.len() - 6) =~= "-arm64"@);
                assert("darwin-x64"@.len() != p.len());
            } else {
                assert(p.skip(p.len() - 4) =~= "-x64"@);
            }
            assert("darwin-x64"@.skip(6) =~= "-x64"@);
        },
        HostOs::Windows => {
            assert(p.take(4) =~= "win-"@);
            if aarch64 {
                assert(p.skip(p.len() - 6) =~= "-arm64"@);
                assert("win-x64"@.len() != p.len());
            } else {
                assert(p.skip(p.len() - 4) =~= "-x64"@);
            }
            assert("win-x64"@.skip(3) =~= "-x64"@);
        },
        HostOs::Other => {
            assert(p.take(6) =~= "linux-"@);
        },
    }
}

/// The archive format for the host.
pub open spec fn archive_ext_spec(os: HostOs) -> Seq<char> {
    match os {
        HostOs::Windows => "zip"@,
        _ => "tar.gz"@,
    }
}

pub fn platform_prefix(os: HostOs, aarch64: bool) -> (p: String)
    ensures
        p@ == platform_prefix_spec(os, aarch64),
{
    match os {
        HostOs::MacOs => if aarch64 {
            String::from_str("darwin-arm64")
        } else {
            String::from_str("darwin-x64")
        },
        HostOs::Windows => if aarch64 {
            String::from_str("win-arm64")
        } else {
            String::from_str("win-x64")
        },
        HostOs::Other => String::from_str("linux-x64"),
    }
}

pub fn fallback_platform_prefix(os: HostOs, aarch64: bool) -> (p: Option<String>)
    ensures
        match p {
            Some(x) => fallback_platform_spec(os, aarch64) == Some(x@),
            None => fallback_platform_spec(os, aarch64) is None,
        },
{
    match os {
        HostOs::MacOs => if aarch64 {
            Some(String::from_str("darwin-x64"))
        } else {
            None
        },
        HostOs::Windows => if aarch64 {
            Some(String::from_str("win-x64"))
        } else {
            None
        },
        HostOs::Other => None,
    }
}

pub fn archive_ext(os: HostOs) -> (e: String)
    ensures
        e@ == archive_ext_spec(os),
{
    match os {
        HostOs::Windows => String::from_str("zip"),
        _ => String::from_str("tar.gz"),
    }
}

/// `node-<version>-<platform>.<ext>`.
pub open spec fn archive_filename_spec(version: Seq<char>, platform: Seq<char>, os: HostOs) -> Seq<
    char,
> {
    "node-"@ + version + "-"@ + platform + "."@ + archive_ext_spec(os)
}

/// The archive's file name.
pub fn archive_filename_with_platform(version: &str, platform: &str, os: HostOs) -> (f: String)
    ensures
        f@ == archive_filename_spec(version@, platform@, os),
{
    let mut v = chars_of("node-");
    append_chars(&mut v, &chars_of(version));
    append_chars(&mut v, &chars_of("-"));
    append_chars(&mut v, &chars_of(platform));
    append_chars(&mut v, &chars_of("."));
    append_chars(&mut v, &chars_of(archive_ext(os).as_str()));
    string_of(&v)
}

/// The index of the end of `s` once every trailing `c` is removed.
pub open spec fn end_without_trailing(s: Seq<char>, c: char, j: int) -> int
    decreases j,
{
    if j <= 0 {
        0
    } else if s[j - 1] == c {
        end_without_trailing(s, c, j - 1)
    } else {
        j
    }
}

/// `str::trim_end_matches(c)`.
pub open spec fn trim_end_char(s: Seq<char>, c: char) -> Seq<char> {
    s.take(end_without_trailing(s, c, s.len() as int))
}

proof fn lemma_end_without_trailing(s: Seq<char>, c: char, j: int)
    requires
        0 <= j <= s.len(),
    ensures
        0 <= end_without_trailing(s, c, j) <= j,
    decreases j,
{
    if j > 0 && s[j - 1] == c {
        lemma_end_without_trailing(s, c, j - 1);
    }
}

/// `str::trim_end_matches(c)`.
pub fn trim_end_char_exec(s: &Vec<char>, c: char) -> (r: Vec<char>)
    ensures
        r@ == trim_end_char(s@, c),
{
    let n = s.len();
    let mut j = n;
    while j > 0 && s[j - 1] == c
        invariant
            j <= n == s@.len(),
            end_without_trailing(s@, c, j as int) == end_without_trailing(s@, c, n as int),
        decreases j,
    {
        j -= 1;
    }
    crate::text::take_chars(s, j)
}

/// `<source>/<version>/<archive>`, with the source's trailing `/`s removed.
pub open spec fn download_url_spec(source: Seq<char>, version: Seq<char>, platform: Seq<char>, os: HostOs) -> Seq<
    char,
> {
    trim_end_char(source, '/') + seq!['/'] + version + seq!['/'] + archive_filename_spec(
        version,
        platform,
        os,
    )
}

/// Where the archive of `version` for `platform` is downloaded from.
pub fn download_url(source: &str, version: &str, platform: &str, os: HostOs) -> (u: String)
    ensures
        u@ == download_url_spec(source@, version@, platform@, os),
{
    let sv = chars_of(source);
    let mut v = trim_end_char_exec(&sv, '/');
    v.push('/');
    append_chars(&mut v, &chars_of(version));
    v.push('/');
    append_chars(&mut v, &chars_of(archive_filename_with_platform(version, platform, os).as_str()));
    proof {
        let t = trim_end_char(source@, '/');
        assert(v@ =~= t + seq!['/'] + version@ + seq!['/'] + archive_filename_spec(
            version@,
            platform@,
            os,
        ));
    }
    string_of(&v)
}

/// Refuses to install a version whose directory is already there.
pub fn check_not_installed(version: &str, version_dir_exists: bool) -> (r: Result<(), VersionManagerError>)
    ensures
        r is Ok <==> !version_dir_exists,
        r matches Err(e) ==> (e matches VersionManagerError::AlreadyInstalled(v) && v@ == version@),
{
    if version_dir_exists {
        Err(VersionManagerError::AlreadyInstalled(version.to_owned()))
    } else {
        Ok(())
    }
}

/// The error of a download that failed before or while the body arrived.
pub fn download_failure(detail: &str) -> (e: VersionManagerError)
    ensures
        e matches VersionManagerError::Network(m) && m@ == "download failed: "@ + detail@,
{
    VersionManagerError::Network(concat_str("download failed: ", detail))
}

/// The error of a download that the server answered with another status
/// than success; `status` is the status as the HTTP client writes it.
pub fn download_status_failure(status: &str) -> (e: VersionManagerError)
    ensures
        e matches VersionManagerError::Network(m) && m@ == "HTTP "@ + status@,
{
    VersionManagerError::Network(concat_str("HTTP ", status))
}

/// A failed download that is worth retrying with the fallback platform:
/// the server answered 404.
pub open spec fn is_missing_archive(e: VersionManagerError) -> bool {
    e matches VersionManagerError::Network(m) && contains(m@, "404"@)
}

/// Whether a failed download should be retried with the fallback platform.
pub fn should_try_fallback(e: &VersionManagerError) -> (b: bool)
    ensures
        b == is_missing_archive(*e),
{
    match e {
        VersionManagerError::Network(m) => str_contains(m.as_str(), "404"),
        _ => false,
    }
}

/// The components of an entry's path after the first, as
/// `Path::components().skip(1)` leaves them: an absolute path loses its
/// root and a path that starts with `.` loses that `.`, keeping every named
/// component; any other path loses its first named component.
pub open spec fn components_after_first(entry: Seq<char>) -> Seq<Seq<char>> {
    let n = named_components(entry);
    if is_absolute(entry) || starts_at_cur_dir(entry) {
        n
    } else if n.len() == 0 {
        n
    } else {
        n.skip(1)
    }
}

/// Whether a path has a `..` component.
pub open spec fn has_parent_component(path: Seq<char>) -> bool {
    named_components(path).contains(seq!['.', '.'])
}

/// Where an archive entry is extracted: its path without the first
/// component, under the version's directory; `None` when nothing is left
/// (the top-level directory itself) or when the entry has a `..` component
/// (it could lead out of the version's directory).
pub open spec fn entry_target_spec(version_dir: Seq<char>, entry: Seq<char>) -> Option<Seq<char>> {
    let rest = components_after_first(entry);
    if rest.len() == 0 || has_parent_component(entry) {
        None
    } else {
        Some(path_join(version_dir, join(rest, seq!['/'])))
    }
}

/// The kept components of an entry are named components without `/`, and
/// none is `..` when the entry has none.
proof fn lemma_kept_components(entry: Seq<char>)
    ensures
        forall|k: int|
            0 <= k < components_after_first(entry).len() ==> {
                let c = #[trigger] components_after_first(entry)[k];
                &&& is_named(c)
                &&& !c.contains('/')
                &&& (!has_parent_component(entry) ==> c != seq!['.', '.'])
            },
{
    let pred = |p: Seq<char>| is_named(p);
    let sp = crate::text::split_on(entry, '/');
    let n = named_components(entry);
    assert(n == sp.filter(pred));
    assert forall|k: int| 0 <= k < n.len() implies is_named(#[trigger] n[k]) && !n[k].contains('/') by {
        sp.lemma_filter_pred(pred, k);
        assert(sp.filter(pred).contains(n[k]));
        sp.lemma_filter_contains_rev(pred, n[k]);
        let j = choose|j: int| 0 <= j < sp.len() && sp[j] == n[k];
        crate::text::lemma_split_piece_has_no_sep(entry, '/', j);
    }
    let r = components_after_first(entry);
    assert forall|k: int| 0 <= k < r.len() implies {
        let c = #[trigger] r[k];
        &&& is_named(c)
        &&& !c.contains('/')
        &&& (!has_parent_component(entry) ==> c != seq!['.', '.'])
    } by {
        let m = if r.len() == n.len() {
            k
        } else {
            k + 1
        };
        assert(r[k] == n[m]);
        if !has_parent_component(entry) && r[k] == seq!['.', '.'] {
            assert(n.contains(seq!['.', '.']));
        }
    }
}

/// The named components of `base`, then `/`, then `name`.
proof fn lemma_components_after_slash(base: Seq<char>, name: Seq<char>)
    ensures
        named_components(base + seq!['/'] + name) == named_components(base) + named_components(name),
{
    let pred = |p: Seq<char>| is_named(p);
    crate::text::lemma_split_on_append(base, name, '/');
    Seq::<Seq<char>>::filter_distributes_over_add(
        crate::text::split_on(base, '/'),
        crate::text::split_on(name, '/'),
        pred,
    );
}

/// An extracted entry lies under the version's directory: its path starts
/// with the directory, and its named components are the directory's
/// followed by at least one more, none of them `..`.
pub proof fn lemma_entry_target_under(version_dir: Seq<char>, entry: Seq<char>)
    requires
        entry_target_spec(version_dir, entry) is Some,
    ensures
        ({
            let p = entry_target_spec(version_dir, entry)->0;
            let rest = components_after_first(entry);
            &&& crate::text::starts_with(p, version_dir)
            &&& named_components(p) == named_components(version_dir) + rest
            &&& rest.len() > 0
            &&& forall|k: int| 0 <= k < rest.len() ==> #[trigger] rest[k] != seq!['.', '.']
        }),
{
    let rest = components_after_first(entry);
    let name = join(rest, seq!['/']);
    let p = entry_target_spec(version_dir, entry)->0;
    let e = Seq::<char>::empty();
    let pred = |x: Seq<char>| is_named(x);
    lemma_kept_components(entry);
    crate::text::lemma_split_join(rest, '/');
    crate::text::lemma_filter_keeps_all(rest, pred);
    assert(named_components(name) == rest);
    // The name starts with its first component, which is not empty and has no `/`.
    assert(name.len() > 0 && name[0] != '/') by {
        lemma_join_starts_with_first(rest);
        assert(is_named(rest[0]));
        assert(rest[0].len() > 0);
        assert(name[0] == rest[0][0]);
        if rest[0][0] == '/' {
            assert(rest[0].contains('/'));
        }
    }
    assert(crate::text::split_on(e, '/') =~= seq![e]);
    assert(named_components(e) =~= Seq::<Seq<char>>::empty()) by {
        Seq::<Seq<char>>::empty().lemma_filter_push(e, pred);
        assert(Seq::<Seq<char>>::empty().push(e) =~= seq![e]);
        assert(Seq::<Seq<char>>::empty().filter(pred) =~= Seq::<Seq<char>>::empty()) by {
            reveal(Seq::filter);
        }
    }
    if version_dir.len() == 0 {
        assert(p == name);
        assert(version_dir =~= e);
        assert(named_components(version_dir) + rest =~= rest);
        assert(p.take(0) =~= version_dir);
    } else if version_dir.last() == '/' {
        let b = version_dir.drop_last();
        assert(p == version_dir + name);
        assert(version_dir + name =~= b + seq!['/'] + name);
        assert(version_dir =~= b + seq!['/'] + e);
        lemma_components_after_slash(b, name);
        lemma_components_after_slash(b, e);
        assert(named_components(b) + Seq::<Seq<char>>::empty() =~= named_components(b));
        assert(p.take(version_dir.len() as int) =~= version_dir);
    } else {
        assert(p == version_dir + seq!['/'] + name);
        lemma_components_after_slash(version_dir, name);
        assert(p.take(version_dir.len() as int) =~= version_dir);
    }
}

/// Joined pieces start with the first piece.
proof fn lemma_join_starts_with_first(xs: Seq<Seq<char>>)
    requires
        xs.len() > 0,
    ensures
        join(xs, seq!['/']).len() >= xs[0].len(),
        forall|i: int| 0 <= i < xs[0].len() ==> join(xs, seq!['/'])[i] == #[trigger] xs[0][i],
    decreases xs.len(),
{
    if xs.len() > 1 {
        lemma_join_starts_with_first(xs.drop_last());
        assert(xs.drop_last()[0] == xs[0]);
    }
}

/// Where an archive entry is extracted to.
pub fn entry_target(version_dir: &str, entry: &str) -> (t: Option<String>)
    ensures
        match t {
            Some(p) => entry_target_spec(version_dir@, entry@) == Some(p@),
            None => entry_target_spec(version_dir@, entry@) is None,
        },
{
    let ev = chars_of(entry);
    let comps = named_components_exec(&ev);
    assert(views(comps@).len() == comps@.len());
    let mut dd: Vec<char> = Vec::new();
    dd.push('.');
    dd.push('.');
    assert(dd@ =~= seq!['.', '.']);
    let mut c: usize = 0;
    while c < comps.len()
        invariant
            c <= comps@.len(),
            dd@ == seq!['.', '.'],
            views(comps@) == named_components(entry@),
            forall|m: int| 0 <= m < c ==> comps@[m]@ != seq!['.', '.'],
        decreases comps.len() - c,
    {
        if crate::text::eq_chars(&comps[c], &dd) {
            assert(views(comps@)[c as int] == seq!['.', '.']);
            assert(has_parent_component(entry@));
            return None;
        }
        c += 1;
    }
    assert(!has_parent_component(entry@)) by {
        if named_components(entry@).contains(seq!['.', '.']) {
            let m = choose|m: int| 0 <= m < named_components(entry@).len() && named_components(entry@)[m] == seq!['.', '.'];
            assert(views(comps@)[m] == comps@[m]@);
        }
    }
    let keep_all = (ev.len() > 0 && ev[0] == '/') || starts_at_cur_dir_exec(&ev);
    let start: usize = if keep_all || comps.len() == 0 {
        0
    } else {
        1
    };
    let ghost cv = views(comps@);
    assert(components_after_first(entry@) == cv.subrange(start as int, cv.len() as int));
    if comps.len() <= start {
        return None;
    }
    let mut rest: Vec<Vec<char>> = Vec::new();
    let mut k: usize = start;
    while k < comps.len()
        invariant
            start <= k <= comps@.len(),
            cv == views(comps@),
            views(rest@) == cv.subrange(start as int, k as int),
        decreases comps.len() - k,
    {
        let ghost before = views(rest@);
        rest.push(comps[k].clone());
        assert(views(rest@) =~= before.push(cv[k as int]));
        assert(cv.subrange(start as int, k + 1) =~= cv.subrange(start as int, k as int).push(
            cv[k as int],
        ));
        k += 1;
    }
    let mut sep: Vec<char> = Vec::new();
    sep.push('/');
    assert(sep@ =~= seq!['/']);
    let joined = join_chars(&rest, &sep);
    let js = string_of(&joined);
    Some(join_path(version_dir, js.as_str()))
}

} // verus!
