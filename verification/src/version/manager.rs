//! The version manager: the index and download URLs in use, and how the
//! outcome of each command is reported.
use vstd::prelude::*;

use crate::commands::dev_server::strings_view;
use crate::paths::{join_path, path_join};
use crate::text::{append_chars, chars_of, contains, contains_chars, ends_with, ends_with_chars, string_of};
use crate::version::activator::VersionActivator;
use crate::version::deleter::VersionDeleter;
use crate::version::error::VersionManagerError;
use crate::version::event::VersionEvent;
use crate::version::installer::{trim_end_char, trim_end_char_exec};
use crate::version::types::{duplicate_versions, versions_view, NodeVersion, NodeVersionView};

verus! {

/// A command of the version manager.
pub enum VersionCommand {
    Get,
    Refresh,
    Install { version: String },
    Activate { version: String },
    Delete { version: String },
}

/// Where a command's version list comes from.
pub enum ListSource {
    /// The list fetched from the index, to be written to the cache; when
    /// `cache_write_required`, a failed write fails the command.
    Fetched { versions: Vec<NodeVersion>, cache_write_required: bool },
    /// The index could not be had: the cached list is read instead.
    FromCache,
    /// The index could not be had and the command fails.
    Failed(VersionManagerError),
}

/// What a cache write means for the command: its error when the write is
/// required, else nothing (the list in hand is still used).
pub fn cache_write_outcome(required: bool, written: Result<(), VersionManagerError>) -> (r: Result<
    (),
    VersionManagerError,
>)
    ensures
        required ==> r == written,
        !required ==> r is Ok,
{
    if required {
        written
    } else {
        Ok(())
    }
}

/// What a command returns: the updated version list and the events to
/// report.
pub struct ExecuteOutput {
    pub versions: Vec<NodeVersion>,
    pub events: Vec<VersionEvent>,
}

/// `s` without every trailing occurrence of `pat` (`str::trim_end_matches`
/// with a string pattern).
pub open spec fn strip_suffix_all(s: Seq<char>, pat: Seq<char>) -> Seq<char>
    decreases s.len(),
{
    if pat.len() > 0 && ends_with(s, pat) {
        strip_suffix_all(s.take(s.len() - pat.len()), pat)
    } else {
        s
    }
}

/// The base URL of the release archives for an index URL: a URL that ends
/// in `/` or mentions `.json` loses its trailing `index.json`s and then its
/// trailing `/`s; every base URL ends in one `/`.
pub open spec fn dist_url_spec(index_url: Seq<char>) -> Seq<char> {
    if ends_with(index_url, seq!['/']) || contains(index_url, ".json"@) {
        trim_end_char(strip_suffix_all(index_url, "index.json"@), '/') + seq!['/']
    } else {
        index_url + seq!['/']
    }
}

/// The base URL of the release archives for an index URL.
pub fn derive_dist_url(index_url: &str) -> (d: String)
    ensures
        d@ == dist_url_spec(index_url@),
{
    let v = chars_of(index_url);
    let mut slash: Vec<char> = Vec::new();
    slash.push('/');
    assert(slash@ =~= seq!['/']);
    let json = chars_of(".json");
    if ends_with_chars(&v, &slash) || contains_chars(&v, &json) {
        let pat = chars_of("index.json");
        let mut t = v.clone();
        while pat.len() > 0 && ends_with_chars(&t, &pat)
            invariant
                pat@ == "index.json"@,
                strip_suffix_all(t@, pat@) == strip_suffix_all(index_url@, pat@),
            decreases t@.len(),
        {
            t = crate::text::take_chars(&t, t.len() - pat.len());
        }
        let mut r = trim_end_char_exec(&t, '/');
        r.push('/');
        string_of(&r)
    } else {
        let mut r = v.clone();
        r.push('/');
        string_of(&r)
    }
}

/// The index URL in use and the archive base URL derived from it.
pub struct VersionUrls {
    pub index_url: String,
    pub dist_url: String,
}

impl VersionUrls {
    pub fn new(index_url: String) -> (u: VersionUrls)
        ensures
            u.index_url@ == index_url@,
            u.dist_url@ == dist_url_spec(index_url@),
    {
        let dist_url = derive_dist_url(index_url.as_str());
        VersionUrls { index_url, dist_url }
    }

    /// Switches to another index, deriving its archive base URL.
    pub fn set_index_url(&mut self, url: String)
        ensures
            final(self).index_url@ == url@,
            final(self).dist_url@ == dist_url_spec(url@),
    {
        self.dist_url = derive_dist_url(url.as_str());
        self.index_url = url;
    }
}

/// A version list matched against the installation: each entry is marked
/// installed when its version is among `installed` and active when it is
/// the `current` one; nothing else changes.
pub open spec fn enriched(
    vs: Seq<NodeVersionView>,
    installed: Seq<Seq<char>>,
    current: Option<Seq<char>>,
) -> Seq<NodeVersionView> {
    vs.map_values(
        |v: NodeVersionView|
            NodeVersionView {
                installed: Some(installed.contains(v.version)),
                active: Some(current == Some(v.version)),
                ..v
            },
    )
}

fn contains_string(v: &Vec<String>, x: &String) -> (b: bool)
    ensures
        b == strings_view(v@).contains(x@),
{
    let mut i: usize = 0;
    while i < v.len()
        invariant
            i <= v@.len(),
            forall|j: int| 0 <= j < i ==> v@[j]@ != x@,
        decreases v.len() - i,
    {
        if crate::text::str_eq(v[i].as_str(), x.as_str()) {
            assert(strings_view(v@)[i as int] == x@);
            return true;
        }
        i += 1;
    }
    assert forall|j: int| 0 <= j < strings_view(v@).len() implies strings_view(v@)[j] != x@ by {
        assert(strings_view(v@)[j] == v@[j]@);
    }
    false
}

/// Marks each listed version installed and/or active.
pub fn enrich(versions: &mut Vec<NodeVersion>, installed: &Vec<String>, current: &Option<String>)
    ensures
        versions_view(final(versions)@) == enriched(
            versions_view(old(versions)@),
            strings_view(installed@),
            match current {
                Some(c) => Some(c@),
                None => None,
            },
        ),
{
    let ghost cur = match current {
        Some(c) => Some(c@),
        None => None::<Seq<char>>,
    };
    let ghost target = enriched(versions_view(versions@), strings_view(installed@), cur);
    let ghost n = versions@.len();
    let mut i: usize = 0;
    while i < versions.len()
        invariant
            n == versions@.len() == target.len(),
            i <= n,
            cur == match current {
                Some(c) => Some(c@),
                None => None::<Seq<char>>,
            },
            forall|j: int| 0 <= j < i ==> #[trigger] versions@[j]@ == target[j],
            forall|j: int|
                i <= j < n ==> #[trigger] target[j] == (NodeVersionView {
                    installed: Some(strings_view(installed@).contains(versions@[j]@.version)),
                    active: Some(cur == Some(versions@[j]@.version)),
                    ..versions@[j]@
                }),
        decreases n - i,
    {
        let ghost before = versions@;
        let is_installed = contains_string(installed, &versions[i].version);
        let is_active = match current {
            Some(c) => crate::text::str_eq(c.as_str(), versions[i].version.as_str()),
            None => false,
        };
        let mut v = versions[i].duplicate();
        v.installed = Some(is_installed);
        v.active = Some(is_active);
        versions.set(i, v);
        assert forall|j: int| i < j < n implies #[trigger] versions@[j] == before[j] by {}
        i += 1;
    }
    assert(versions_view(versions@) =~= target);
}

/// Two entries for different versions are never both active.
pub proof fn lemma_enrich_single_active(
    vs: Seq<NodeVersionView>,
    installed: Seq<Seq<char>>,
    current: Option<Seq<char>>,
    i: int,
    j: int,
)
    requires
        0 <= i < vs.len(),
        0 <= j < vs.len(),
        vs[i].version != vs[j].version,
    ensures
        !(enriched(vs, installed, current)[i].active == Some(true) && enriched(
            vs,
            installed,
            current,
        )[j].active == Some(true)),
{
}

/// The events a finished command reports: the activated version first for
/// an activation, then the new list for every command but `Get`.
pub open spec fn command_events_ok(
    cmd: VersionCommand,
    versions: Seq<NodeVersionView>,
    events: Seq<VersionEvent>,
) -> bool {
    match cmd {
        VersionCommand::Get => events.len() == 0,
        VersionCommand::Activate { version } => {
            &&& events.len() == 2
            &&& events[0] matches VersionEvent::VersionActivated { version: v } && v@ == version@
            &&& events[1] matches VersionEvent::VersionsUpdated(l) && versions_view(l@) == versions
        },
        _ => {
            &&& events.len() == 1
            &&& events[0] matches VersionEvent::VersionsUpdated(l) && versions_view(l@) == versions
        },
    }
}

/// The version manager's own state: the directories it works in and the
/// URLs it downloads from.
pub struct VersionManager {
    pub activator: VersionActivator,
    pub deleter: VersionDeleter,
    pub versions_dir: String,
    pub cache_dir: String,
    pub urls: VersionUrls,
}

impl VersionManager {
    /// The index URL in use.
    pub open spec fn index_url_spec(&self) -> Seq<char> {
        self.urls.index_url@
    }

    /// The archive base URL in use.
    pub open spec fn dist_url_spec(&self) -> Seq<char> {
        self.urls.dist_url@
    }

    /// The archive base URL always follows from the index URL.
    pub open spec fn urls_agree(&self) -> bool {
        self.urls.dist_url@ == dist_url_spec(self.urls.index_url@)
    }

    pub fn new(nodepilot_dir: String, versions_dir: String, cache_dir: String, source_url: String) -> (m:
        VersionManager)
        ensures
            m.index_url_spec() == source_url@,
            m.dist_url_spec() == dist_url_spec(source_url@),
            m.urls_agree(),
            m.activator.nodepilot_dir@ == nodepilot_dir@,
            m.activator.versions_dir@ == versions_dir@,
            m.deleter.versions_dir@ == versions_dir@,
            m.deleter.current_symlink@ == path_join(nodepilot_dir@, "current"@),
            m.versions_dir@ == versions_dir@,
            m.cache_dir@ == cache_dir@,
    {
        let deleter = VersionDeleter::new(versions_dir.clone(), nodepilot_dir.as_str());
        let activator = VersionActivator::new(nodepilot_dir, versions_dir.clone());
        VersionManager {
            activator,
            deleter,
            versions_dir,
            cache_dir,
            urls: VersionUrls::new(source_url),
        }
    }

    /// The index URL in use.
    pub fn source_url(&self) -> (u: String)
        ensures
            u@ == self.index_url_spec(),
    {
        self.urls.index_url.clone()
    }

    /// The archive base URL in use.
    pub fn dist_url(&self) -> (u: String)
        ensures
            u@ == self.dist_url_spec(),
    {
        self.urls.dist_url.clone()
    }

    /// Switches to another version index; the archive base URL follows.
    pub fn set_source_url(&mut self, url: String)
        ensures
            final(self).index_url_spec() == url@,
            final(self).dist_url_spec() == dist_url_spec(url@),
            final(self).urls_agree(),
            final(self).activator == old(self).activator,
            final(self).deleter == old(self).deleter,
            final(self).versions_dir == old(self).versions_dir,
            final(self).cache_dir == old(self).cache_dir,
    {
        self.urls.set_index_url(url);
    }

    /// Where the version list is cached.
    pub fn cache_path(&self) -> (p: String)
        ensures
            p@ == path_join(self.cache_dir@, "versions.json"@),
    {
        join_path(self.cache_dir.as_str(), "versions.json")
    }

    /// Whether the command needs a fresh list from the index (only
    /// `Refresh`); the others fall back to the cached list.
    pub fn needs_fresh_list(cmd: &VersionCommand) -> (b: bool)
        ensures
            b == (*cmd is Refresh),
    {
        match cmd {
            VersionCommand::Refresh => true,
            _ => false,
        }
    }

    /// Where a command's version list comes from, given what asking the
    /// index gave: the fetched list (to be written to the cache; for
    /// `Refresh` a failed write fails the command), or, when the index could
    /// not be had, the cached list, except for `Refresh`, which fails with
    /// the index's error.
    pub fn choose_list_source(
        cmd: &VersionCommand,
        fetched: Result<Vec<NodeVersion>, VersionManagerError>,
    ) -> (s: ListSource)
        ensures
            match fetched {
                Ok(vs) => s matches ListSource::Fetched { versions, cache_write_required }
                    && versions@ == vs@ && cache_write_required == (*cmd is Refresh),
                Err(e) => if *cmd is Refresh {
                    s matches ListSource::Failed(x) && x == e
                } else {
                    s is FromCache
                },
            },
    {
        let fresh = Self::needs_fresh_list(cmd);
        match fetched {
            Ok(versions) => ListSource::Fetched { versions, cache_write_required: fresh },
            Err(e) => if fresh {
                ListSource::Failed(e)
            } else {
                ListSource::FromCache
            },
        }
    }

    /// The output of a command once the version list is fetched: the list
    /// matched against the installation, and the command's events.
    pub fn finish(
        cmd: &VersionCommand,
        versions: Vec<NodeVersion>,
        installed: &Vec<String>,
        current: &Option<String>,
    ) -> (out: ExecuteOutput)
        ensures
            versions_view(out.versions@) == enriched(
                versions_view(versions@),
                strings_view(installed@),
                match current {
                    Some(c) => Some(c@),
                    None => None,
                },
            ),
            command_events_ok(*cmd, versions_view(out.versions@), out.events@),
    {
        let mut versions = versions;
        enrich(&mut versions, installed, current);
        let mut events: Vec<VersionEvent> = Vec::new();
        match cmd {
            VersionCommand::Get => {},
            VersionCommand::Activate { version } => {
                events.push(VersionEvent::VersionActivated { version: version.clone() });
                events.push(VersionEvent::VersionsUpdated(duplicate_versions(&versions)));
            },
            _ => {
                events.push(VersionEvent::VersionsUpdated(duplicate_versions(&versions)));
            },
        }
        ExecuteOutput { versions, events }
    }
}

/// The archive base URL derived from an archive base URL is itself.
pub proof fn lemma_dist_url_idempotent(index_url: Seq<char>)
    ensures
        dist_url_spec(dist_url_spec(index_url)) == dist_url_spec(index_url),
        ends_with(dist_url_spec(index_url), seq!['/']),
{
    let d = dist_url_spec(index_url);
    let base = if ends_with(index_url, seq!['/']) || contains(index_url, ".json"@) {
        trim_end_char(strip_suffix_all(index_url, "index.json"@), '/')
    } else {
        index_url
    };
    assert(d == base + seq!['/']);
    assert(d.skip(d.len() - 1) =~= seq!['/']);
    assert(ends_with(d, seq!['/']));
    lemma_strip_suffix_when_ends_in_slash(d);
    lemma_trim_slash_after_base(base);
    assert(dist_url_spec(d) == trim_end_char(d, '/') + seq!['/']);
    if ends_with(index_url, seq!['/']) || contains(index_url, ".json"@) {
        lemma_trim_end_char_tight(strip_suffix_all(index_url, "index.json"@), '/');
        assert(trim_end_char(d, '/') == base);
    } else {
        assert(trim_end_char(d, '/') == trim_end_char(index_url, '/'));
        // The index URL here does not end in `/`, so trimming keeps it.
        if index_url.len() > 0 && index_url.last() == '/' {
            assert(index_url.skip(index_url.len() - 1) =~= seq!['/']);
        }
        lemma_trim_end_char_none(index_url, '/');
    }
}

/// The archive base URL ends in exactly one `/`: it is `/` itself, or the
/// character before its final `/` is not `/`.
pub proof fn lemma_dist_url_single_slash(index_url: Seq<char>)
    ensures
        ({
            let d = dist_url_spec(index_url);
            &&& d.len() > 0 && d.last() == '/'
            &&& d == seq!['/'] || d[d.len() - 2] != '/'
        }),
{
    let d = dist_url_spec(index_url);
    if ends_with(index_url, seq!['/']) || contains(index_url, ".json"@) {
        let x = strip_suffix_all(index_url, "index.json"@);
        let base = trim_end_char(x, '/');
        lemma_end_facts(x, '/', x.len() as int);
        assert(d == base + seq!['/']);
        if base.len() == 0 {
            assert(d =~= seq!['/']);
        } else {
            assert(d[d.len() - 2] == base.last());
        }
    } else {
        assert(d == index_url + seq!['/']);
        if index_url.len() == 0 {
            assert(d =~= seq!['/']);
        } else {
            assert(d[d.len() - 2] == index_url.last());
            if index_url.last() == '/' {
                assert(index_url.skip(index_url.len() - 1) =~= seq!['/']);
            }
        }
    }
}

/// An index at `p/index.json`, with `p` not ending in `/`, has its
/// archives under `p/`.
pub proof fn lemma_dist_url_of_index_json(p: Seq<char>)
    requires
        p.len() == 0 || p.last() != '/',
    ensures
        dist_url_spec(p + "/index.json"@) == p + seq!['/'],
{
    reveal_strlit("/index.json");
    reveal_strlit("index.json");
    reveal_strlit(".json");
    let s = p + "/index.json"@;
    let q = p + seq!['/'];
    assert(s =~= q + "index.json"@);
    assert(contains(s, ".json"@)) by {
        let o = s.len() - 5;
        assert(s.subrange(o, o + 5) =~= ".json"@);
        assert(crate::text::occurs_at(s, ".json"@, o));
    }
    assert(ends_with(s, "index.json"@)) by {
        assert(s.skip(s.len() - 10) =~= "index.json"@);
    }
    assert(s.take(s.len() - 10) =~= q);
    assert(!ends_with(q, "index.json"@)) by {
        if ends_with(q, "index.json"@) {
            assert(q.skip(q.len() - 10)[9] == q[q.len() - 1]);
        }
    }
    assert(strip_suffix_all(q, "index.json"@) == q);
    assert(strip_suffix_all(s, "index.json"@) == q);
    lemma_trim_slash_after_base(p);
    lemma_trim_end_char_none(p, '/');
}

proof fn lemma_strip_suffix_when_ends_in_slash(d: Seq<char>)
    requires
        ends_with(d, seq!['/']),
    ensures
        strip_suffix_all(d, "index.json"@) == d,
{
    reveal_strlit("index.json");
    assert(d.skip(d.len() - 1)[0] == d[d.len() - 1]);
    assert(d[d.len() - 1] == '/');
    if ends_with(d, "index.json"@) {
        assert(d.skip(d.len() - 10)[9] == d[d.len() - 1]);
        assert("index.json"@[9] == 'n');
    }
}

/// Trimming the trailing `/`s of `base + "/"` gives back the trimmed `base`.
proof fn lemma_trim_slash_after_base(base: Seq<char>)
    ensures
        trim_end_char(base + seq!['/'], '/') == trim_end_char(base, '/'),
{
    let s = base + seq!['/'];
    assert(s[s.len() - 1] == '/');
    assert(crate::version::installer::end_without_trailing(s, '/', s.len() as int)
        == crate::version::installer::end_without_trailing(s, '/', base.len() as int));
    lemma_end_same_prefix(s, base, base.len() as int);
    lemma_end_facts(base, '/', base.len() as int);
    assert(s.take(crate::version::installer::end_without_trailing(base, '/', base.len() as int))
        =~= base.take(crate::version::installer::end_without_trailing(base, '/', base.len() as int)));
}

proof fn lemma_end_same_prefix(s: Seq<char>, base: Seq<char>, j: int)
    requires
        0 <= j <= base.len(),
        base.len() <= s.len(),
        forall|k: int| 0 <= k < base.len() ==> s[k] == base[k],
    ensures
        crate::version::installer::end_without_trailing(s, '/', j)
            == crate::version::installer::end_without_trailing(base, '/', j),
        crate::version::installer::end_without_trailing(base, '/', j) <= j,
    decreases j,
{
    if j > 0 {
        lemma_end_same_prefix(s, base, j - 1);
    }
}

/// A trimmed text has no trailing `c` left, so trimming it again keeps it.
proof fn lemma_trim_end_char_tight(s: Seq<char>, c: char)
    ensures
        trim_end_char(trim_end_char(s, c), c) == trim_end_char(s, c),
{
    let e = crate::version::installer::end_without_trailing(s, c, s.len() as int);
    lemma_end_facts(s, c, s.len() as int);
    let t = s.take(e);
    lemma_trim_end_char_none(t, c);
}

proof fn lemma_end_facts(s: Seq<char>, c: char, j: int)
    requires
        0 <= j <= s.len(),
    ensures
        0 <= crate::version::installer::end_without_trailing(s, c, j) <= j,
        crate::version::installer::end_without_trailing(s, c, j) > 0 ==> s[
            crate::version::installer::end_without_trailing(s, c, j) - 1] != c,
    decreases j,
{
    if j > 0 && s[j - 1] == c {
        lemma_end_facts(s, c, j - 1);
    }
}

/// A text that does not end in `c` is its own trim.
proof fn lemma_trim_end_char_none(s: Seq<char>, c: char)
    requires
        s.len() == 0 || s.last() != c,
    ensures
        trim_end_char(s, c) == s,
{
    assert(s.take(s.len() as int) =~= s);
}

} // verus!
