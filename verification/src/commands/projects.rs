//! Project bindings (which project directory runs on which Node.js version)
//! and the user configuration.
use vstd::prelude::*;

use crate::error::AppError;
use crate::version::manager::{dist_url_spec, VersionManager};
use crate::text::{str_eq, string_of};

verus! {

/// A project directory bound to a Node.js version.
pub struct ProjectBinding {
    pub version: String,
    pub name: String,
    pub path: String,
    pub default_script: Option<String>,
    pub command_prefix: Option<String>,
    pub start_command: Option<String>,
}

/// The contents of a project binding.
pub struct ProjectBindingView {
    pub version: Seq<char>,
    pub name: Seq<char>,
    pub path: Seq<char>,
    pub default_script: Option<Seq<char>>,
    pub command_prefix: Option<Seq<char>>,
    pub start_command: Option<Seq<char>>,
}

/// The view of an optional string.
pub open spec fn opt_view(o: Option<String>) -> Option<Seq<char>> {
    match o {
        Some(s) => Some(s@),
        None => None,
    }
}

impl View for ProjectBinding {
    type V = ProjectBindingView;

    open spec fn view(&self) -> ProjectBindingView {
        ProjectBindingView {
            version: self.version@,
            name: self.name@,
            path: self.path@,
            default_script: opt_view(self.default_script),
            command_prefix: opt_view(self.command_prefix),
            start_command: opt_view(self.start_command),
        }
    }
}

/// The contents of a list of bindings.
pub open spec fn bindings_view(ps: Seq<ProjectBinding>) -> Seq<ProjectBindingView> {
    ps.map_values(|p: ProjectBinding| p@)
}

/// A new binding has no default script, prefix or start command.
pub open spec fn fresh_binding(
    version: Seq<char>,
    name: Seq<char>,
    path: Seq<char>,
) -> ProjectBindingView {
    ProjectBindingView {
        version,
        name,
        path,
        default_script: None,
        command_prefix: None,
        start_command: None,
    }
}

/// The binding is the one of `path` on `version`.
pub open spec fn is_binding_of(p: ProjectBindingView, version: Seq<char>, path: Seq<char>) -> bool {
    p.version == version && p.path == path
}

/// Bindings that are not the one of `path` on `version`.
pub open spec fn other_binding(version: Seq<char>, path: Seq<char>) -> spec_fn(
    ProjectBindingView,
) -> bool {
    |p: ProjectBindingView| !is_binding_of(p, version, path)
}

/// Index of the first binding of `path` on `version` at or after `i`.
pub open spec fn find_binding_from(
    ps: Seq<ProjectBindingView>,
    version: Seq<char>,
    path: Seq<char>,
    i: int,
) -> Option<int>
    decreases ps.len() - i,
{
    if i < 0 || i >= ps.len() {
        None
    } else if is_binding_of(ps[i], version, path) {
        Some(i)
    } else {
        find_binding_from(ps, version, path, i + 1)
    }
}

/// Index of the first binding of `path` on `version`.
pub open spec fn find_binding(ps: Seq<ProjectBindingView>, version: Seq<char>, path: Seq<char>) -> Option<
    int,
> {
    find_binding_from(ps, version, path, 0)
}

fn clone_opt(o: &Option<String>) -> (r: Option<String>)
    ensures
        opt_view(r) == opt_view(*o),
{
    match o {
        Some(s) => Some(s.clone()),
        None => None,
    }
}

impl ProjectBinding {
    /// A copy of the binding.
    pub fn duplicate(&self) -> (r: ProjectBinding)
        ensures
            r@ == self@,
    {
        ProjectBinding {
            version: self.version.clone(),
            name: self.name.clone(),
            path: self.path.clone(),
            default_script: clone_opt(&self.default_script),
            command_prefix: clone_opt(&self.command_prefix),
            start_command: clone_opt(&self.start_command),
        }
    }
}

/// Adds the binding of `path` on `version`, named `name`, at the end.
pub fn bind_project(projects: &mut Vec<ProjectBinding>, version: String, name: String, path: String)
    ensures
        bindings_view(final(projects)@) == bindings_view(old(projects)@).push(
            fresh_binding(version@, name@, path@),
        ),
{
    let ghost before = bindings_view(projects@);
    projects.push(
        ProjectBinding {
            version,
            name,
            path,
            default_script: None,
            command_prefix: None,
            start_command: None,
        },
    );
    assert(bindings_view(projects@) =~= before.push(fresh_binding(version@, name@, path@)));
}

/// Removes every binding of `path` on `version`; the others keep their order.
pub fn unbind_project(projects: Vec<ProjectBinding>, version: &str, path: &str) -> (r: Vec<
    ProjectBinding,
>)
    ensures
        bindings_view(r@) == bindings_view(projects@).filter(other_binding(version@, path@)),
{
    let ghost pv = bindings_view(projects@);
    let ghost pred = other_binding(version@, path@);
    let mut kept: Vec<ProjectBinding> = Vec::new();
    let mut i: usize = 0;
    while i < projects.len()
        invariant
            i <= projects@.len(),
            pv == bindings_view(projects@),
            pred == other_binding(version@, path@),
            bindings_view(kept@) == pv.take(i as int).filter(pred),
        decreases projects.len() - i,
    {
        let p = &projects[i];
        assert(pv.take(i + 1) =~= pv.take(i as int).push(p@));
        proof {
            pv.take(i as int).lemma_filter_push(p@, pred);
        }
        if !(str_eq(p.version.as_str(), version) && str_eq(p.path.as_str(), path)) {
            let ghost before = bindings_view(kept@);
            kept.push(p.duplicate());
            assert(bindings_view(kept@) =~= before.push(p@));
        }
        i += 1;
    }
    assert(pv.take(projects@.len() as int) =~= pv);
    kept
}

fn find_binding_index(projects: &Vec<ProjectBinding>, version: &str, path: &str) -> (r: Option<
    usize,
>)
    ensures
        match r {
            Some(i) => i < projects@.len() && find_binding(bindings_view(projects@), version@, path@)
                == Some(i as int),
            None => find_binding(bindings_view(projects@), version@, path@) is None,
        },
{
    let ghost pv = bindings_view(projects@);
    let mut i: usize = 0;
    while i < projects.len()
        invariant
            i <= projects@.len(),
            pv == bindings_view(projects@),
            find_binding_from(pv, version@, path@, i as int) == find_binding(
                pv,
                version@,
                path@,
            ),
        decreases projects.len() - i,
    {
        let p = &projects[i];
        assert(pv[i as int] == p@);
        if str_eq(p.version.as_str(), version) && str_eq(p.path.as_str(), path) {
            return Some(i);
        }
        i += 1;
    }
    None
}

/// The error for a binding that is not there.
pub open spec fn is_binding_not_found(e: AppError) -> bool {
    e matches AppError::NotFound(m) && m@ == "project binding not found"@
}

fn binding_not_found() -> (e: AppError)
    ensures
        is_binding_not_found(e),
{
    AppError::NotFound(String::from_str("project binding not found"))
}

/// Renames the first binding of `path` on `version`; an error if there is
/// none.
pub fn update_project_name(
    projects: &mut Vec<ProjectBinding>,
    version: &str,
    path: &str,
    new_name: String,
) -> (r: Result<(), AppError>)
    ensures
        match find_binding(bindings_view(old(projects)@), version@, path@) {
            Some(i) => r is Ok && bindings_view(final(projects)@) == bindings_view(
                old(projects)@,
            ).update(i, ProjectBindingView { name: new_name@, ..bindings_view(old(projects)@)[i] }),
            None => r matches Err(e) && is_binding_not_found(e) && final(projects)@ == old(
                projects,
            )@,
        },
{
    match find_binding_index(projects, version, path) {
        Some(i) => {
            let ghost before = bindings_view(projects@);
            let old_p = projects[i].duplicate();
            let p = ProjectBinding { name: new_name, ..old_p };
            projects.set(i, p);
            assert(bindings_view(projects@) =~= before.update(
                i as int,
                ProjectBindingView { name: new_name@, ..before[i as int] },
            ));
            Ok(())
        },
        None => Err(binding_not_found()),
    }
}

/// Sets the default script, command prefix and start command of the first
/// binding of `path` on `version`; an error if there is none.
pub fn update_project_config(
    projects: &mut Vec<ProjectBinding>,
    version: &str,
    path: &str,
    default_script: Option<String>,
    command_prefix: Option<String>,
    start_command: Option<String>,
) -> (r: Result<(), AppError>)
    ensures
        match find_binding(bindings_view(old(projects)@), version@, path@) {
            Some(i) => r is Ok && bindings_view(final(projects)@) == bindings_view(
                old(projects)@,
            ).update(
                i,
                ProjectBindingView {
                    default_script: opt_view(default_script),
                    command_prefix: opt_view(command_prefix),
                    start_command: opt_view(start_command),
                    ..bindings_view(old(projects)@)[i]
                },
            ),
            None => r matches Err(e) && is_binding_not_found(e) && final(projects)@ == old(
                projects,
            )@,
        },
{
    match find_binding_index(projects, version, path) {
        Some(i) => {
            let ghost before = bindings_view(projects@);
            let ghost ds = opt_view(default_script);
            let ghost cp = opt_view(command_prefix);
            let ghost sc = opt_view(start_command);
            let old_p = projects[i].duplicate();
            let p = ProjectBinding { default_script, command_prefix, start_command, ..old_p };
            projects.set(i, p);
            assert(bindings_view(projects@) =~= before.update(
                i as int,
                ProjectBindingView {
                    default_script: ds,
                    command_prefix: cp,
                    start_command: sc,
                    ..before[i as int]
                },
            ));
            Ok(())
        },
        None => Err(binding_not_found()),
    }
}

/// Unbinding undoes binding: binding a project that was not bound and then
/// unbinding it leaves the bindings as they were.
pub proof fn lemma_unbind_undoes_bind(
    ps: Seq<ProjectBindingView>,
    version: Seq<char>,
    name: Seq<char>,
    path: Seq<char>,
)
    requires
        forall|k: int| 0 <= k < ps.len() ==> !is_binding_of(#[trigger] ps[k], version, path),
    ensures
        ps.push(fresh_binding(version, name, path)).filter(other_binding(version, path)) == ps,
    decreases ps.len(),
{
    let pred = other_binding(version, path);
    ps.lemma_filter_push(fresh_binding(version, name, path), pred);
    lemma_filter_keeps_bindings(ps, pred);
}

proof fn lemma_filter_keeps_bindings(
    ps: Seq<ProjectBindingView>,
    pred: spec_fn(ProjectBindingView) -> bool,
)
    requires
        forall|k: int| 0 <= k < ps.len() ==> pred(#[trigger] ps[k]),
    ensures
        ps.filter(pred) == ps,
    decreases ps.len(),
{
    if ps.len() > 0 {
        let p2 = ps.drop_last();
        lemma_filter_keeps_bindings(p2, pred);
        assert(p2.push(ps.last()) =~= ps);
        p2.lemma_filter_push(ps.last(), pred);
        assert(pred(ps[ps.len() - 1]));
    } else {
        assert(ps.filter(pred) =~= ps) by {
            reveal(Seq::filter);
        }
    }
}

/// After unbinding, no binding of `path` on `version` is left.
pub proof fn lemma_unbind_removes_all(ps: Seq<ProjectBindingView>, version: Seq<char>, path: Seq<char>)
    ensures
        forall|k: int|
            0 <= k < ps.filter(other_binding(version, path)).len() ==> !is_binding_of(
                #[trigger] ps.filter(other_binding(version, path))[k],
                version,
                path,
            ),
{
    let pred = other_binding(version, path);
    assert forall|k: int| 0 <= k < ps.filter(pred).len() implies !is_binding_of(
        #[trigger] ps.filter(pred)[k],
        version,
        path,
    ) by {
        ps.lemma_filter_pred(pred, k);
    }
}

// ---------------------------------------------------------------------------
// Configuration
// ---------------------------------------------------------------------------

/// The user configuration.
pub struct AppConfig {
    /// A mirror of the Node.js version index, if one is set.
    pub mirror_url: Option<String>,
}

/// The official Node.js version index.
pub open spec fn default_index_url() -> Seq<char> {
    "https://nodejs.org/dist/index.json"@
}

/// The official Node.js version index.
pub fn default_index_url_string() -> (s: String)
    ensures
        s@ == default_index_url(),
{
    String::from_str("https://nodejs.org/dist/index.json")
}

/// The configuration reported when no config file exists yet: the source in
/// use counts as a mirror unless it is the official index.
pub fn config_for_source(source_url: &str) -> (c: AppConfig)
    ensures
        opt_view(c.mirror_url) == if source_url@ == default_index_url() {
            None
        } else {
            Some(source_url@)
        },
{
    let d = default_index_url_string();
    if str_eq(source_url, d.as_str()) {
        AppConfig { mirror_url: None }
    } else {
        AppConfig { mirror_url: Some(String::from_str(source_url)) }
    }
}

/// Applies a configuration that is being saved: a mirror becomes the
/// version index in use (the archive base URL follows); without one, the
/// source in use stays.
pub fn apply_config(manager: &mut VersionManager, config: &AppConfig)
    ensures
        match config.mirror_url {
            Some(u) => {
                &&& final(manager).index_url_spec() == u@
                &&& final(manager).dist_url_spec() == dist_url_spec(u@)
                &&& final(manager).activator == old(manager).activator
                &&& final(manager).deleter == old(manager).deleter
                &&& final(manager).versions_dir == old(manager).versions_dir
                &&& final(manager).cache_dir == old(manager).cache_dir
            },
            None => *final(manager) == *old(manager),
        },
{
    match &config.mirror_url {
        Some(u) => manager.set_source_url(u.clone()),
        None => {},
    }
}

/// The version index to use at start-up: the configured mirror if the
/// config was read and sets one, otherwise the official index.
pub open spec fn startup_source_spec(config: Option<Option<Seq<char>>>) -> Seq<char> {
    match config {
        Some(Some(m)) => m,
        _ => default_index_url(),
    }
}

/// The version index to use at start-up, given the config file's contents
/// if it could be read and parsed.
pub fn startup_source_url(config: Option<AppConfig>) -> (s: String)
    ensures
        s@ == startup_source_spec(
            match config {
                Some(c) => Some(opt_view(c.mirror_url)),
                None => None,
            },
        ),
{
    match config {
        Some(c) => match c.mirror_url {
            Some(m) => m,
            None => default_index_url_string(),
        },
        None => default_index_url_string(),
    }
}

/// The configuration reported for a source leads back to that source at
/// the next start-up.
pub proof fn lemma_config_roundtrip(source_url: Seq<char>)
    ensures
        startup_source_spec(
            Some(
                if source_url == default_index_url() {
                    None
                } else {
                    Some(source_url)
                },
            ),
        ) == source_url,
{
}

} // verus!
