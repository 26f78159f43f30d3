//! Node.js versions as the remote index lists them and as the UI shows them.
use vstd::prelude::*;

verus! {

/// The `lts` field of the index: a codename for LTS releases, `false`
/// otherwise.
pub enum LtsStatus {
    Codename(String),
    False(bool),
}

impl LtsStatus {
    /// Whether the release is an LTS release.
    pub fn is_lts(&self) -> (b: bool)
        ensures
            b == (self is Codename),
    {
        match self {
            LtsStatus::Codename(_) => true,
            LtsStatus::False(_) => false,
        }
    }

    /// The LTS codename, if the release has one.
    pub fn codename(&self) -> (c: Option<&str>)
        ensures
            match self {
                LtsStatus::Codename(s) => c matches Some(x) && x@ == s@,
                LtsStatus::False(_) => c is None,
            },
    {
        match self {
            LtsStatus::Codename(s) => Some(s.as_str()),
            LtsStatus::False(_) => None,
        }
    }
}

/// One release in the remote version index.
pub struct RemoteVersion {
    pub version: String,
    pub date: String,
    pub files: Vec<String>,
    pub npm: Option<String>,
    pub v8: Option<String>,
    pub uv: Option<String>,
    pub zlib: Option<String>,
    pub openssl: Option<String>,
    pub modules: Option<String>,
    pub lts: LtsStatus,
    pub security: bool,
}

/// A release as the version list shows it.
pub struct NodeVersion {
    pub version: String,
    pub date: String,
    pub lts: bool,
    pub lts_codename: Option<String>,
    pub files: Vec<String>,
    /// Set once the list is matched against the installed versions.
    pub installed: Option<bool>,
    /// Set once the list is matched against the active version.
    pub active: Option<bool>,
}

/// The contents of a listed release.
pub struct NodeVersionView {
    pub version: Seq<char>,
    pub date: Seq<char>,
    pub lts: bool,
    pub lts_codename: Option<Seq<char>>,
    pub files: Seq<Seq<char>>,
    pub installed: Option<bool>,
    pub active: Option<bool>,
}

impl View for NodeVersion {
    type V = NodeVersionView;

    open spec fn view(&self) -> NodeVersionView {
        NodeVersionView {
            version: self.version@,
            date: self.date@,
            lts: self.lts,
            lts_codename: crate::commands::projects::opt_view(self.lts_codename),
            files: crate::commands::dev_server::strings_view(self.files@),
            installed: self.installed,
            active: self.active,
        }
    }
}

/// The contents of a version list.
pub open spec fn versions_view(vs: Seq<NodeVersion>) -> Seq<NodeVersionView> {
    vs.map_values(|v: NodeVersion| v@)
}

fn clone_strings(v: &Vec<String>) -> (r: Vec<String>)
    ensures
        crate::commands::dev_server::strings_view(r@) == crate::commands::dev_server::strings_view(
            v@,
        ),
{
    let r = v.clone();
    assert(crate::commands::dev_server::strings_view(r@) =~= crate::commands::dev_server::strings_view(
        v@,
    ));
    r
}

impl NodeVersion {
    /// A copy of the entry.
    pub fn duplicate(&self) -> (r: NodeVersion)
        ensures
            r@ == self@,
    {
        NodeVersion {
            version: self.version.clone(),
            date: self.date.clone(),
            lts: self.lts,
            lts_codename: match &self.lts_codename {
                Some(c) => Some(c.clone()),
                None => None,
            },
            files: clone_strings(&self.files),
            installed: self.installed,
            active: self.active,
        }
    }
}

/// A copy of a version list.
pub fn duplicate_versions(vs: &Vec<NodeVersion>) -> (r: Vec<NodeVersion>)
    ensures
        versions_view(r@) == versions_view(vs@),
{
    let mut r: Vec<NodeVersion> = Vec::new();
    let mut i: usize = 0;
    while i < vs.len()
        invariant
            i <= vs@.len(),
            versions_view(r@) == versions_view(vs@).take(i as int),
        decreases vs.len() - i,
    {
        let ghost before = versions_view(r@);
        r.push(vs[i].duplicate());
        assert(versions_view(r@) =~= before.push(vs@[i as int]@));
        assert(versions_view(vs@).take(i + 1) =~= versions_view(vs@).take(i as int).push(
            vs@[i as int]@,
        ));
        i += 1;
    }
    assert(versions_view(vs@).take(vs@.len() as int) =~= versions_view(vs@));
    r
}

/// The listed form of a release: version, date and files as they are, LTS
/// flag and codename from `lts`, not yet matched against the installation.
pub open spec fn node_version_of(rv: RemoteVersion) -> NodeVersion {
    NodeVersion {
        version: rv.version,
        date: rv.date,
        lts: rv.lts is Codename,
        lts_codename: match rv.lts {
            LtsStatus::Codename(s) => Some(s),
            LtsStatus::False(_) => None,
        },
        files: rv.files,
        installed: None,
        active: None,
    }
}

impl From<RemoteVersion> for NodeVersion {
    fn from(rv: RemoteVersion) -> (v: NodeVersion)
        ensures
            v == node_version_of(rv),
    {
        let (lts, lts_codename) = match rv.lts {
            LtsStatus::Codename(s) => (true, Some(s)),
            LtsStatus::False(_) => (false, None),
        };
        NodeVersion {
            version: rv.version,
            date: rv.date,
            lts,
            lts_codename,
            files: rv.files,
            installed: None,
            active: None,
        }
    }
}

impl vstd::std_specs::convert::FromSpecImpl<RemoteVersion> for NodeVersion {
    open spec fn obeys_from_spec() -> bool {
        true
    }

    open spec fn from_spec(rv: RemoteVersion) -> NodeVersion {
        node_version_of(rv)
    }
}

/// The listed form of every release of the index, in order.
pub fn versions_from_remote(remote: Vec<RemoteVersion>) -> (vs: Vec<NodeVersion>)
    ensures
        vs@.len() == remote@.len(),
        forall|i: int| 0 <= i < vs@.len() ==> #[trigger] vs@[i] == node_version_of(remote@[i]),
{
    let ghost r0 = remote@;
    let mut rest = remote;
    let mut out: Vec<NodeVersion> = Vec::new();
    let mut rev: Vec<NodeVersion> = Vec::new();
    // Take releases from the back, then restore the order.
    while rest.len() > 0
        invariant
            rest@.len() + rev@.len() == r0.len(),
            rest@ == r0.take(rest@.len() as int),
            forall|i: int|
                0 <= i < rev@.len() ==> #[trigger] rev@[i] == node_version_of(
                    r0[r0.len() - 1 - i],
                ),
        decreases rest@.len(),
    {
        let ghost n = rest@.len();
        let rv = rest.pop().unwrap();
        assert(rv == r0[n - 1]);
        assert(rest@ =~= r0.take(n - 1));
        rev.push(NodeVersion::from(rv));
    }
    while rev.len() > 0
        invariant
            rev@.len() + out@.len() == r0.len(),
            forall|i: int|
                0 <= i < rev@.len() ==> #[trigger] rev@[i] == node_version_of(
                    r0[r0.len() - 1 - i],
                ),
            forall|i: int| 0 <= i < out@.len() ==> #[trigger] out@[i] == node_version_of(r0[i]),
        decreases rev@.len(),
    {
        let v = rev.pop().unwrap();
        out.push(v);
    }
    out
}

} // verus!
