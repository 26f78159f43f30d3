//! Which version is active and installed, and what activating one does to
//! the `current` link.
use vstd::prelude::*;

use crate::paths::{file_name, is_named, join_path, named_components, path_file_name, path_join, same_path};
use crate::text::{lemma_split_on_append, lemma_split_on_without_sep, split_on};
use crate::version::error::VersionManagerError;

verus! {

/// Where the versions live: the nodepilot directory, holding the `current`
/// link, and the versions directory, holding one directory per version.
pub struct VersionActivator {
    pub nodepilot_dir: String,
    pub versions_dir: String,
}

/// What is found at the `current` link's path.
pub enum LinkState {
    /// Nothing.
    Absent,
    /// A symbolic link.
    Symlink,
    /// Something that is not a symbolic link.
    Other,
}

/// How to activate a version: whether the old link goes first, then the
/// link to make from `link` to `target`.
pub struct ActivatePlan {
    pub remove_existing: bool,
    pub target: String,
    pub link: String,
}

/// The version a link target names: its file name.
pub open spec fn version_of_target(target: Option<Seq<char>>) -> Option<Seq<char>> {
    match target {
        Some(t) => file_name(t),
        None => None,
    }
}

/// The names of the directory entries that are directories, in order.
pub open spec fn installed_names(entries: Seq<(Seq<char>, bool)>) -> Seq<Seq<char>>
    decreases entries.len(),
{
    if entries.len() == 0 {
        Seq::empty()
    } else {
        let prev = installed_names(entries.drop_last());
        let e = entries.last();
        if e.1 && file_name(e.0) is Some {
            prev.push(file_name(e.0)->0)
        } else {
            prev
        }
    }
}

impl VersionActivator {
    pub fn new(nodepilot_dir: String, versions_dir: String) -> (a: VersionActivator)
        ensures
            a.nodepilot_dir == nodepilot_dir,
            a.versions_dir == versions_dir,
    {
        VersionActivator { nodepilot_dir, versions_dir }
    }

    /// The path of the `current` link.
    pub open spec fn current_link_spec(&self) -> Seq<char> {
        path_join(self.nodepilot_dir@, "current"@)
    }

    /// The directory of `version`.
    pub open spec fn version_dir_spec(&self, version: Seq<char>) -> Seq<char> {
        path_join(self.versions_dir@, version)
    }

    /// The path of the `current` link.
    pub fn current_symlink(&self) -> (p: String)
        ensures
            p@ == self.current_link_spec(),
    {
        join_path(self.nodepilot_dir.as_str(), "current")
    }

    /// The directory of `version`.
    pub fn version_dir(&self, version: &str) -> (p: String)
        ensures
            p@ == self.version_dir_spec(version@),
    {
        join_path(self.versions_dir.as_str(), version)
    }

    /// The active version, read from the target of the `current` link (`None`
    /// when the link is missing or unreadable).
    pub fn current_version_from(&self, link_target: Option<String>) -> (v: Option<String>)
        ensures
            match v {
                Some(x) => version_of_target(
                    match link_target {
                        Some(t) => Some(t@),
                        None => None,
                    },
                ) == Some(x@),
                None => version_of_target(
                    match link_target {
                        Some(t) => Some(t@),
                        None => None,
                    },
                ) is None,
            },
    {
        match link_target {
            Some(t) => path_file_name(t.as_str()),
            None => None,
        }
    }

    /// The installed versions: the names of the entries of the versions
    /// directory that are directories (`(path, is_dir)` pairs, in the order
    /// they were listed).
    pub fn installed_from(&self, entries: &Vec<(String, bool)>) -> (names: Vec<String>)
        ensures
            names@.len() == installed_names(entries@.map_values(|e: (String, bool)| (e.0@, e.1))).len(),
            forall|i: int|
                0 <= i < names@.len() ==> #[trigger] names@[i]@ == installed_names(
                    entries@.map_values(|e: (String, bool)| (e.0@, e.1)),
                )[i],
    {
        let ghost ev = entries@.map_values(|e: (String, bool)| (e.0@, e.1));
        let mut names: Vec<String> = Vec::new();
        let mut i: usize = 0;
        while i < entries.len()
            invariant
                i <= entries@.len(),
                ev == entries@.map_values(|e: (String, bool)| (e.0@, e.1)),
                names@.len() == installed_names(ev.take(i as int)).len(),
                forall|k: int|
                    0 <= k < names@.len() ==> #[trigger] names@[k]@ == installed_names(
                        ev.take(i as int),
                    )[k],
            decreases entries.len() - i,
        {
            assert(ev.take(i + 1).drop_last() =~= ev.take(i as int));
            assert(ev.take(i + 1).last() == (entries@[i as int].0@, entries@[i as int].1));
            if entries[i].1 {
                match path_file_name(entries[i].0.as_str()) {
                    Some(n) => {
                        names.push(n);
                    },
                    None => {},
                }
            }
            i += 1;
        }
        assert(ev.take(entries@.len() as int) =~= ev);
        names
    }

    /// How to activate `version`, given whether its directory exists and what
    /// is at the `current` path: a missing version is not found; something
    /// other than a link at `current` is an error; otherwise the link is
    /// (re)made to point at the version's directory.
    pub fn plan_activate(&self, version: &str, version_dir_exists: bool, current: &LinkState) -> (r:
        Result<ActivatePlan, VersionManagerError>)
        ensures
            !version_dir_exists ==> (r matches Err(VersionManagerError::NotFound(v)) && v@
                == version@),
            version_dir_exists && current is Other ==> (r matches Err(VersionManagerError::Io(m))
                && m@ == "current is not a symlink"@),
            version_dir_exists && !(current is Other) ==> (r matches Ok(p) && p.remove_existing == (
            current is Symlink) && p.target@ == self.version_dir_spec(version@) && p.link@
                == self.current_link_spec()),
    {
        if !version_dir_exists {
            return Err(VersionManagerError::NotFound(String::from_str(version)));
        }
        let remove_existing = match current {
            LinkState::Absent => false,
            LinkState::Symlink => true,
            LinkState::Other => {
                return Err(VersionManagerError::Io(String::from_str("current is not a symlink")));
            },
        };
        Ok(
            ActivatePlan {
                remove_existing,
                target: self.version_dir(version),
                link: self.current_symlink(),
            },
        )
    }
}

/// A version name that is a single path component.
pub open spec fn is_plain_name(v: Seq<char>) -> bool {
    v.len() > 0 && !v.contains('/') && v != seq!['.'] && v != seq!['.', '.']
}

/// The components of `a`, a separator, then the plain name `v`: those of
/// `a`, then `v`.
proof fn lemma_components_then_name(a: Seq<char>, v: Seq<char>)
    requires
        is_plain_name(v),
    ensures
        named_components(a + seq!['/'] + v) == named_components(a).push(v),
{
    let pred = |p: Seq<char>| is_named(p);
    lemma_split_on_append(a, v, '/');
    lemma_split_on_without_sep(v, '/');
    Seq::<Seq<char>>::filter_distributes_over_add(split_on(a, '/'), seq![v], pred);
    Seq::<Seq<char>>::empty().lemma_filter_push(v, pred);
    assert(Seq::<Seq<char>>::empty().push(v) =~= seq![v]);
    assert(Seq::<Seq<char>>::empty().filter(pred) =~= Seq::<Seq<char>>::empty()) by {
        reveal(Seq::filter);
    }
    assert(split_on(a, '/').filter(pred) + seq![v] =~= split_on(a, '/').filter(pred).push(v));
}

/// After activating a version, the `current` link names it: the file name
/// of the version's directory is the version.
pub proof fn lemma_activated_version_is_current(a: VersionActivator, version: Seq<char>)
    requires
        is_plain_name(version),
    ensures
        version_of_target(Some(a.version_dir_spec(version))) == Some(version),
{
    let d = a.versions_dir@;
    let v = version;
    assert(v[0] != '/') by {
        if v[0] == '/' {
            assert(v.contains('/'));
        }
    }
    if d.len() == 0 {
        lemma_split_on_without_sep(v, '/');
        let pred = |p: Seq<char>| is_named(p);
        Seq::<Seq<char>>::empty().lemma_filter_push(v, pred);
        assert(Seq::<Seq<char>>::empty().push(v) =~= seq![v]);
        assert(Seq::<Seq<char>>::empty().filter(pred) =~= Seq::<Seq<char>>::empty()) by {
            reveal(Seq::filter);
        }
        assert(named_components(v) =~= seq![v]);
    } else if d.last() == '/' {
        assert(d + v =~= d.drop_last() + seq!['/'] + v);
        lemma_components_then_name(d.drop_last(), v);
    } else {
        lemma_components_then_name(d, v);
    }
}

/// The active version is never deleted: whatever form the `current` link's
/// target takes, when the version read from it is `version`, deletion
/// treats the target as pointing at `version` and refuses.
pub proof fn lemma_active_version_not_deletable(
    a: VersionActivator,
    d: crate::version::deleter::VersionDeleter,
    version: Seq<char>,
    target: Seq<char>,
)
    requires
        version_of_target(Some(target)) == Some(version),
    ensures
        d.targets_version(target, version),
{
}

/// A link that activation made is read as that version and refused by
/// deletion.
pub proof fn lemma_activated_version_not_deletable(
    a: VersionActivator,
    d: crate::version::deleter::VersionDeleter,
    version: Seq<char>,
)
    requires
        is_plain_name(version),
        a.versions_dir@ == d.versions_dir@,
    ensures
        version_of_target(Some(a.version_dir_spec(version))) == Some(version),
        d.targets_version(a.version_dir_spec(version), version),
{
    lemma_activated_version_is_current(a, version);
}

} // verus!
