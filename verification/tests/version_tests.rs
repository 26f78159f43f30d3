use nodepilot::client::{HttpClient, HttpClientError, HttpClientMock, HttpResponse};
use nodepilot::error::AppError;
use nodepilot::version::activator::{LinkState, VersionActivator};
use nodepilot::version::deleter::VersionDeleter;
use nodepilot::version::error::VersionManagerError;
use nodepilot::version::event::VersionEvent;
use nodepilot::version::fetcher::{
    cache_parse_failure, fetch_index, index_outcome, list_parse_failure,
};
use nodepilot::version::installer::{
    archive_ext, archive_filename_with_platform, check_not_installed, download_failure,
    download_status_failure, download_url, entry_target, fallback_platform_prefix,
    platform_prefix, should_try_fallback, HostOs,
};
use nodepilot::version::manager::{derive_dist_url, enrich, VersionUrls};
use nodepilot::version::types::{versions_from_remote, LtsStatus, NodeVersion, RemoteVersion};
use nodepilot::version::{VersionCommand, VersionManager};
use nodepilot::tray::icon_label;

fn activator() -> VersionActivator {
    VersionActivator::new("/nodepilot".to_string(), "/nodepilot/versions".to_string())
}

fn deleter() -> VersionDeleter {
    VersionDeleter::new("/nodepilot/versions".to_string(), "/nodepilot")
}

// --- activator ---

#[test]
fn test_get_installed_versions_empty() {
    let versions = activator().installed_from(&vec![]);
    assert!(versions.is_empty());
}

#[test]
fn test_get_installed_versions_with_versions() {
    let entries = vec![
        ("/nodepilot/versions/v22.0.0".to_string(), true),
        ("/nodepilot/versions/v20.0.0".to_string(), true),
        ("/nodepilot/versions/notes.txt".to_string(), false),
    ];
    let mut versions = activator().installed_from(&entries);
    versions.sort();
    assert_eq!(versions, vec!["v20.0.0", "v22.0.0"]);
}

#[test]
fn test_activate_and_get_current() {
    let a = activator();
    let plan = a.plan_activate("v20.0.0", true, &LinkState::Absent).ok().unwrap();
    assert!(!plan.remove_existing);
    assert_eq!(plan.target, "/nodepilot/versions/v20.0.0");
    assert_eq!(plan.link, "/nodepilot/current");
    assert_eq!(a.current_version_from(Some(plan.target)), Some("v20.0.0".to_string()));
}

#[test]
fn test_activate_not_found() {
    let err = activator().plan_activate("v99.0.0", false, &LinkState::Absent).err().unwrap();
    assert!(err.message().contains("not found"));
}

#[test]
fn activate_replaces_link_and_refuses_non_link() {
    let a = activator();
    let plan = a.plan_activate("v22.0.0", true, &LinkState::Symlink).ok().unwrap();
    assert!(plan.remove_existing);
    match a.plan_activate("v22.0.0", true, &LinkState::Other) {
        Err(VersionManagerError::Io(m)) => assert_eq!(m, "current is not a symlink"),
        _ => panic!("expected an I/O error"),
    }
}

#[test]
fn current_version_read_from_link() {
    let a = activator();
    assert_eq!(a.current_version_from(None), None);
    assert_eq!(a.current_version_from(Some("/x/versions/v18.1.0/".to_string())), Some("v18.1.0".to_string()));
    assert_eq!(a.current_version_from(Some("/".to_string())), None);
}

// --- deleter ---

#[test]
fn test_delete_version() {
    let dir = deleter().plan_delete("v20.0.0", true, None).ok().unwrap();
    assert_eq!(dir, "/nodepilot/versions/v20.0.0");
    let dir = deleter()
        .plan_delete("v20.0.0", true, Some("/nodepilot/versions/v22.0.0"))
        .ok()
        .unwrap();
    assert_eq!(dir, "/nodepilot/versions/v20.0.0");
}

#[test]
fn test_delete_active_version_errors() {
    let err = deleter()
        .plan_delete("v20.0.0", true, Some("/nodepilot/versions/v20.0.0"))
        .err()
        .unwrap();
    assert!(err.message().contains("active"));
}

#[test]
fn test_delete_not_found() {
    let err = deleter().plan_delete("v99.0.0", false, None).err().unwrap();
    assert!(err.message().contains("not found"));
}

#[test]
fn active_version_refused_for_relative_link_target() {
    let err = deleter().plan_delete("v20.0.0", true, Some("versions/v20.0.0")).err().unwrap();
    assert!(matches!(err, VersionManagerError::Active(v) if v == "v20.0.0"));
    assert_eq!(
        activator().current_version_from(Some("versions/v20.0.0".to_string())),
        Some("v20.0.0".to_string())
    );
    assert!(deleter().plan_delete("v20.0.0", true, Some("versions/v20.0.1")).is_ok());
}

#[test]
fn active_version_found_through_equal_path() {
    let err = deleter()
        .plan_delete("v20.0.0", true, Some("/nodepilot//versions/v20.0.0/"))
        .err()
        .unwrap();
    assert!(matches!(err, VersionManagerError::Active(v) if v == "v20.0.0"));
}

// --- installer ---

#[test]
fn test_install_already_installed() {
    let err = check_not_installed("v20.0.0", true).err().unwrap();
    assert!(err.message().contains("already installed"));
    assert!(check_not_installed("v20.0.0", false).is_ok());
}

#[test]
fn test_install_download_error() {
    let err = download_failure("connection error: timeout");
    assert!(err.message().contains("download failed"));
    assert_eq!(err.message(), "network error: download failed: connection error: timeout");
}

#[test]
fn download_urls_per_platform() {
    assert_eq!(platform_prefix(HostOs::MacOs, true), "darwin-arm64");
    assert_eq!(platform_prefix(HostOs::MacOs, false), "darwin-x64");
    assert_eq!(platform_prefix(HostOs::Windows, false), "win-x64");
    assert_eq!(platform_prefix(HostOs::Other, false), "linux-x64");
    assert_eq!(fallback_platform_prefix(HostOs::MacOs, true), Some("darwin-x64".to_string()));
    assert_eq!(fallback_platform_prefix(HostOs::Other, false), None);
    assert_eq!(archive_ext(HostOs::Windows), "zip");
    assert_eq!(archive_ext(HostOs::MacOs), "tar.gz");
    assert_eq!(
        archive_filename_with_platform("v20.0.0", "darwin-arm64", HostOs::MacOs),
        "node-v20.0.0-darwin-arm64.tar.gz"
    );
    assert_eq!(
        download_url("https://nodejs.org/dist/", "v20.0.0", "darwin-arm64", HostOs::MacOs),
        "https://nodejs.org/dist/v20.0.0/node-v20.0.0-darwin-arm64.tar.gz"
    );
    assert_eq!(
        download_url("https://nodejs.org/dist///", "v20.0.0", "win-x64", HostOs::Windows),
        "https://nodejs.org/dist/v20.0.0/node-v20.0.0-win-x64.zip"
    );
}

#[test]
fn fallback_only_on_404() {
    assert!(should_try_fallback(&download_status_failure("404 Not Found")));
    assert!(!should_try_fallback(&download_status_failure("500 Internal Server Error")));
    assert!(!should_try_fallback(&VersionManagerError::NotFound("404".to_string())));
    assert_eq!(download_status_failure("404 Not Found").message(), "network error: HTTP 404 Not Found");
}

#[test]
fn archive_entries_lose_top_directory() {
    assert_eq!(entry_target("/v/v20", "node-v20/bin/node"), Some("/v/v20/bin/node".to_string()));
    assert_eq!(entry_target("/v/v20", "./node-v20/lib/a.js"), Some("/v/v20/node-v20/lib/a.js".to_string()));
    assert_eq!(entry_target("/v/v20", "/abs/x"), Some("/v/v20/abs/x".to_string()));
    assert_eq!(entry_target("/v/v20", "node-v20/"), None);
    assert_eq!(entry_target("/v/v20", "node-v20/../../etc/passwd"), None);
    assert_eq!(entry_target("/v/v20", "../x/y"), None);
    assert_eq!(entry_target("/v/v20", "node-v20/lib/..a/b"), Some("/v/v20/lib/..a/b".to_string()));
}

// --- fetcher ---

#[test]
fn fetch_index_reads_prepared_body() {
    let mut http = HttpClientMock::new();
    http.expect(
        "https://nodejs.org/dist/index.json",
        Ok(HttpResponse { data: b"[]".to_vec(), content_length: None }),
    );
    assert_eq!(fetch_index(&http, "https://nodejs.org/dist/index.json").ok().unwrap(), b"[]".to_vec());
}

#[test]
fn test_fetch_remote_network_error() {
    let mut http = HttpClientMock::new();
    http.expect(
        "https://nodejs.org/dist/index.json",
        Err(HttpClientError::Connection("timeout".to_string())),
    );
    let err = fetch_index(&http, "https://nodejs.org/dist/index.json").err().unwrap();
    assert!(matches!(err, VersionManagerError::Network(_)));
    assert_eq!(
        err.message(),
        "network error: failed to fetch version list: connection error: timeout"
    );
}

#[test]
fn fetch_errors_name_their_cause() {
    let e = index_outcome(Err(HttpClientError::HttpStatus(404, "Not Found".to_string()))).err().unwrap();
    assert_eq!(e.message(), "network error: failed to fetch version list: HTTP 404: Not Found");
    assert_eq!(list_parse_failure("eof").message(), "parse error: failed to parse version list: eof");
    assert_eq!(cache_parse_failure("eof").message(), "parse error: failed to parse cache: eof");
}

// --- HTTP mock ---

#[test]
fn mock_answers_prepared_and_refuses_others() {
    let mut http = HttpClientMock::new();
    http.expect("u", Ok(HttpResponse { data: vec![1], content_length: Some(1) }));
    http.expect("u", Ok(HttpResponse { data: vec![2], content_length: None }));
    match http.get("u") {
        Ok(r) => assert_eq!(r.data, vec![2]),
        Err(_) => panic!("expected the prepared response"),
    }
    match http.get("other") {
        Err(HttpClientError::Other(m)) => assert_eq!(m, "no mock for other"),
        _ => panic!("expected an error"),
    }
}

// --- manager ---

#[test]
fn test_manager_set_source_url() {
    let mut manager = VersionManager::new(
        "/nodepilot".to_string(),
        "/nodepilot/versions".to_string(),
        "/nodepilot/cache".to_string(),
        "https://nodejs.org/dist/index.json".to_string(),
    );
    assert_eq!(manager.source_url(), "https://nodejs.org/dist/index.json");
    manager.set_source_url("https://mirror.example.com/index.json".to_string());
    assert_eq!(manager.source_url(), "https://mirror.example.com/index.json");
    assert_eq!(manager.dist_url(), "https://mirror.example.com/");
    assert_eq!(manager.cache_path(), "/nodepilot/cache/versions.json");
}

#[test]
fn dist_url_derivation() {
    assert_eq!(derive_dist_url("https://nodejs.org/dist/index.json"), "https://nodejs.org/dist/");
    assert_eq!(derive_dist_url("https://mirror.example.com/node/"), "https://mirror.example.com/node/");
    assert_eq!(derive_dist_url("https://mirror.example.com/node"), "https://mirror.example.com/node/");
    assert_eq!(derive_dist_url("https://m.example.com/list.json"), "https://m.example.com/list.json/");
    assert_eq!(derive_dist_url("https://m.example.com//"), "https://m.example.com/");
    assert_eq!(derive_dist_url(""), "/");
    assert_eq!(derive_dist_url("https://m.example.com/a/index.json"), "https://m.example.com/a/");
    let once = derive_dist_url("https://nodejs.org/dist/index.json");
    assert_eq!(derive_dist_url(&once), once);
    let mut urls = VersionUrls::new("https://a.example.com/index.json".to_string());
    urls.set_index_url("https://b.example.com/x".to_string());
}

fn remote(version: &str, lts: LtsStatus) -> RemoteVersion {
    RemoteVersion {
        version: version.to_string(),
        date: "2024-04-23".to_string(),
        files: vec!["darwin-arm64".to_string()],
        npm: None,
        v8: None,
        uv: None,
        zlib: None,
        openssl: None,
        modules: None,
        lts,
        security: false,
    }
}

#[test]
fn lts_status_reads_codename() {
    assert!(LtsStatus::Codename("Iron".to_string()).is_lts());
    assert_eq!(LtsStatus::Codename("Iron".to_string()).codename(), Some("Iron"));
    assert!(!LtsStatus::False(false).is_lts());
    assert_eq!(LtsStatus::False(false).codename(), None);
}

#[test]
fn test_fetch_remote_parses_versions() {
    let vs = versions_from_remote(vec![
        remote("v20.0.0", LtsStatus::False(false)),
        remote("v22.0.0", LtsStatus::Codename("Iron".to_string())),
    ]);
    assert_eq!(vs.len(), 2);
    assert_eq!(vs[0].version, "v20.0.0");
    assert!(!vs[0].lts);
    assert_eq!(vs[1].version, "v22.0.0");
    assert!(vs[1].lts);
    assert_eq!(vs[1].lts_codename.as_deref(), Some("Iron"));
    assert!(vs[1].installed.is_none());
    let one: NodeVersion = remote("v18.0.0", LtsStatus::False(false)).into();
    assert_eq!(one.date, "2024-04-23");
}

#[test]
fn enrich_marks_installed_and_active() {
    let mut vs = versions_from_remote(vec![
        remote("v20.0.0", LtsStatus::False(false)),
        remote("v22.0.0", LtsStatus::False(false)),
        remote("v18.0.0", LtsStatus::False(false)),
    ]);
    enrich(&mut vs, &vec!["v20.0.0".to_string(), "v22.0.0".to_string()], &Some("v22.0.0".to_string()));
    assert_eq!(vs[0].installed, Some(true));
    assert_eq!(vs[0].active, Some(false));
    assert_eq!(vs[1].installed, Some(true));
    assert_eq!(vs[1].active, Some(true));
    assert_eq!(vs[2].installed, Some(false));
    assert_eq!(vs[2].active, Some(false));
    enrich(&mut vs, &vec![], &None);
    assert_eq!(vs[1].active, Some(false));
}

#[test]
fn test_manager_refresh() {
    let vs = versions_from_remote(vec![remote("v20.0.0", LtsStatus::False(false))]);
    assert!(VersionManager::needs_fresh_list(&VersionCommand::Refresh));
    assert!(!VersionManager::needs_fresh_list(&VersionCommand::Get));
    let out = VersionManager::finish(&VersionCommand::Refresh, vs, &vec!["v20.0.0".to_string()], &None);
    assert_eq!(out.versions.len(), 1);
    assert_eq!(out.events.len(), 1);
    match &out.events[0] {
        VersionEvent::VersionsUpdated(l) => assert_eq!(l[0].installed, Some(true)),
        _ => panic!("expected a list update"),
    }
}

#[test]
fn test_manager_get_versions() {
    let vs = versions_from_remote(vec![
        remote("v20.0.0", LtsStatus::False(false)),
        remote("v22.0.0", LtsStatus::False(false)),
    ]);
    let out = VersionManager::finish(&VersionCommand::Get, vs, &vec![], &None);
    assert_eq!(out.versions.len(), 2);
    assert_eq!(out.versions[0].version, "v20.0.0");
    assert!(out.events.is_empty());
}

#[test]
fn activate_reports_activation_then_list() {
    let vs = versions_from_remote(vec![remote("v20.0.0", LtsStatus::False(false))]);
    let cmd = VersionCommand::Activate { version: "v20.0.0".to_string() };
    let out = VersionManager::finish(&cmd, vs, &vec!["v20.0.0".to_string()], &Some("v20.0.0".to_string()));
    assert_eq!(out.events.len(), 2);
    assert!(matches!(&out.events[0], VersionEvent::VersionActivated { version } if version == "v20.0.0"));
    assert!(matches!(&out.events[1], VersionEvent::VersionsUpdated(l) if l[0].active == Some(true)));
}

// --- errors ---

#[test]
fn version_errors_become_app_errors_with_same_text() {
    let errs = vec![
        VersionManagerError::Network("n".to_string()),
        VersionManagerError::Parse("p".to_string()),
        VersionManagerError::AlreadyInstalled("v1".to_string()),
        VersionManagerError::NotFound("v2".to_string()),
        VersionManagerError::Active("v3".to_string()),
        VersionManagerError::Io("io".to_string()),
    ];
    let texts = vec![
        "network error: n",
        "parse error: p",
        "version already installed: v1",
        "version not found: v2",
        "cannot delete active version: v3",
        "I/O error: io",
    ];
    for (e, t) in errs.into_iter().zip(texts) {
        assert_eq!(e.message(), t);
        let a: AppError = e.into();
        assert_eq!(a.message(), t);
    }
    assert_eq!(AppError::Config("c".to_string()).message(), "config error: c");
    assert_eq!(AppError::Setup("s".to_string()).message(), "setup error: s");
}

// --- tray ---

#[test]
fn tray_label_is_major_version() {
    assert_eq!(icon_label("v20.11.1"), "20");
    assert_eq!(icon_label("22.0.0"), "22");
    assert_eq!(icon_label("v"), "");
    assert_eq!(icon_label("vv1.0"), "v1");
}
