use std::io::Write;

use nodepilot::version::archive::{
    extraction_plan, plan_extraction, read_archive, ArchiveEntry, EntryKind, PlannedEntry,
};
use nodepilot::version::error::VersionManagerError;
use nodepilot::version::event::{install_progress, VersionEvent};
use nodepilot::version::installer::HostOs;
use nodepilot::version::manager::{cache_write_outcome, ListSource};
use nodepilot::version::types::NodeVersion;
use nodepilot::version::{VersionCommand, VersionManager};

fn entry(path: &str, kind: EntryKind, contents: &[u8]) -> ArchiveEntry {
    let (dir, symlink, link) = match kind {
        EntryKind::Dir => (true, false, None),
        EntryKind::File => (false, false, None),
        EntryKind::Symlink(t) => (false, true, Some(t)),
    };
    ArchiveEntry { path: path.to_string(), dir, symlink, link, contents: contents.to_vec(), mode: None }
}

fn ok<T>(r: Result<T, VersionManagerError>) -> T {
    match r {
        Ok(v) => v,
        Err(e) => panic!("unexpected error: {}", e.message()),
    }
}

fn is_file(p: &PlannedEntry) -> bool {
    matches!(p.kind, EntryKind::File)
}

fn is_dir(p: &PlannedEntry) -> bool {
    matches!(p.kind, EntryKind::Dir)
}

fn tar_gz(build: impl FnOnce(&mut tar::Builder<Vec<u8>>)) -> Vec<u8> {
    let mut builder = tar::Builder::new(Vec::new());
    build(&mut builder);
    let tar_bytes = builder.into_inner().unwrap();
    let mut gz = flate2::write::GzEncoder::new(Vec::new(), flate2::Compression::default());
    gz.write_all(&tar_bytes).unwrap();
    gz.finish().unwrap()
}

fn add_file(b: &mut tar::Builder<Vec<u8>>, path: &str, data: &[u8], mode: u32) {
    let mut h = tar::Header::new_gnu();
    h.set_size(data.len() as u64);
    h.set_mode(mode);
    h.set_entry_type(tar::EntryType::Regular);
    b.append_data(&mut h, path, data).unwrap();
}

fn add_dir(b: &mut tar::Builder<Vec<u8>>, path: &str) {
    let mut h = tar::Header::new_gnu();
    h.set_size(0);
    h.set_mode(0o755);
    h.set_entry_type(tar::EntryType::Directory);
    b.append_data(&mut h, path, std::io::empty()).unwrap();
}

fn version(v: &str) -> NodeVersion {
    NodeVersion {
        version: v.to_string(),
        date: "2024-01-01".to_string(),
        lts: false,
        lts_codename: None,
        files: vec![],
        installed: None,
        active: None,
    }
}

// --- the plan ---

#[test]
fn plan_strips_the_top_directory_and_keeps_order() {
    let entries = vec![
        entry("node-v20/", EntryKind::Dir, b""),
        entry("node-v20/bin/", EntryKind::Dir, b""),
        entry("node-v20/bin/node", EntryKind::File, b"ELF"),
        entry("node-v20/bin/npm", EntryKind::Symlink("../lib/npm-cli.js".to_string()), b""),
        entry("node-v20/README.md", EntryKind::File, b"readme"),
    ];
    let plan = extraction_plan("/v/v20", &entries);
    assert_eq!(plan.len(), 4);
    assert_eq!(plan[0].target, "/v/v20/bin");
    assert!(is_dir(&plan[0]));
    assert_eq!(plan[1].target, "/v/v20/bin/node");
    assert!(is_file(&plan[1]));
    assert_eq!(plan[1].contents, b"ELF".to_vec());
    assert_eq!(plan[2].target, "/v/v20/bin/npm");
    assert!(matches!(&plan[2].kind, EntryKind::Symlink(t) if t == "../lib/npm-cli.js"));
    assert_eq!(plan[3].target, "/v/v20/README.md");
    assert_eq!(plan[3].contents, b"readme".to_vec());
}

#[test]
fn plan_leaves_out_entries_that_climb_out() {
    let entries = vec![
        entry("node-v20/../../etc/passwd", EntryKind::File, b"x"),
        entry("../evil", EntryKind::File, b"x"),
        entry("node-v20/lib/a.js", EntryKind::File, b"a"),
    ];
    let plan = extraction_plan("/v/v20", &entries);
    assert_eq!(plan.len(), 1);
    assert_eq!(plan[0].target, "/v/v20/lib/a.js");
}

#[test]
fn plan_takes_a_symlink_without_target_as_a_file() {
    let mut e = entry("node-v20/bin/npm", EntryKind::File, b"");
    e.symlink = true;
    let plan = extraction_plan("/v/v20", &vec![e]);
    assert!(is_file(&plan[0]));
}

#[test]
fn plan_of_no_entries_is_empty() {
    assert!(extraction_plan("/v/v20", &vec![]).is_empty());
}

#[test]
fn plan_keeps_the_mode() {
    let mut e = entry("node-v20/bin/node", EntryKind::File, b"ELF");
    e.mode = Some(0o755);
    let plan = extraction_plan("/v/v20", &vec![e]);
    assert_eq!(plan[0].mode, Some(0o755));
}

// --- reading archives ---

#[test]
fn unreadable_tar_gz_is_an_io_error() {
    let r = read_archive(b"not an archive", HostOs::Other);
    assert!(matches!(r, Err(VersionManagerError::Io(m)) if !m.is_empty()));
}

#[test]
fn unreadable_zip_is_an_io_error() {
    let r = read_archive(b"not an archive", HostOs::Windows);
    assert!(matches!(r, Err(VersionManagerError::Io(m)) if !m.is_empty()));
}

#[test]
fn tar_gz_entries_are_read_in_order() {
    let data = tar_gz(|b| {
        add_dir(b, "node-v20/");
        add_file(b, "node-v20/bin/node", b"binary", 0o755);
        add_file(b, "node-v20/LICENSE", b"MIT", 0o644);
    });
    let entries = ok(read_archive(&data, HostOs::Other));
    assert_eq!(entries.len(), 3);
    assert_eq!(entries[0].path, "node-v20/");
    assert!(entries[0].dir && !entries[0].symlink);
    assert_eq!(entries[1].path, "node-v20/bin/node");
    assert_eq!(entries[1].contents, b"binary".to_vec());
    assert_eq!(entries[1].mode, Some(0o755));
    assert!(!entries[1].dir && entries[1].link.is_none());
    assert_eq!(entries[2].path, "node-v20/LICENSE");
    assert_eq!(entries[2].contents, b"MIT".to_vec());
}

#[test]
fn tar_gz_symlinks_keep_their_target() {
    let data = tar_gz(|b| {
        let mut h = tar::Header::new_gnu();
        h.set_size(0);
        h.set_mode(0o777);
        h.set_entry_type(tar::EntryType::Symlink);
        b.append_link(&mut h, "node-v20/bin/npm", "../lib/npm-cli.js").unwrap();
    });
    let plan = ok(plan_extraction("/v/v20", &data, HostOs::MacOs));
    assert_eq!(plan.len(), 1);
    assert_eq!(plan[0].target, "/v/v20/bin/npm");
    assert!(matches!(&plan[0].kind, EntryKind::Symlink(t) if t == "../lib/npm-cli.js"));
}

#[test]
fn tar_gz_plan_places_files_under_the_version_dir() {
    let data = tar_gz(|b| {
        add_dir(b, "node-v20/");
        add_file(b, "node-v20/bin/node", b"binary", 0o755);
    });
    let plan = ok(plan_extraction("/v/v20", &data, HostOs::Other));
    assert_eq!(plan.len(), 1);
    assert_eq!(plan[0].target, "/v/v20/bin/node");
    assert_eq!(plan[0].contents, b"binary".to_vec());
}

#[test]
fn zip_entries_are_read_in_order() {
    let mut w = zip::ZipWriter::new(std::io::Cursor::new(Vec::new()));
    let opts = zip::write::SimpleFileOptions::default()
        .compression_method(zip::CompressionMethod::Stored);
    w.add_directory("node-v20/", opts).unwrap();
    w.start_file("node-v20/node.exe", opts).unwrap();
    w.write_all(b"MZ").unwrap();
    let data = w.finish().unwrap().into_inner();
    let entries = ok(read_archive(&data, HostOs::Windows));
    assert_eq!(entries.len(), 2);
    assert!(entries[0].dir);
    assert_eq!(entries[1].path, "node-v20/node.exe");
    assert_eq!(entries[1].contents, b"MZ".to_vec());
    let plan = ok(plan_extraction("C:/v/v20", &data, HostOs::Windows));
    assert_eq!(plan.len(), 1);
    assert_eq!(plan[0].target, "C:/v/v20/node.exe");
}

// --- where the version list comes from ---

#[test]
fn fetched_list_is_used_and_cached() {
    let s = VersionManager::choose_list_source(&VersionCommand::Get, Ok(vec![version("v20.0.0")]));
    match s {
        ListSource::Fetched { versions, cache_write_required } => {
            assert_eq!(versions.len(), 1);
            assert_eq!(versions[0].version, "v20.0.0");
            assert!(!cache_write_required);
        }
        _ => panic!("expected the fetched list"),
    }
}

#[test]
fn refresh_requires_the_cache_write() {
    let s = VersionManager::choose_list_source(&VersionCommand::Refresh, Ok(vec![]));
    assert!(matches!(s, ListSource::Fetched { cache_write_required: true, .. }));
}

#[test]
fn failed_fetch_falls_back_to_cache() {
    for cmd in [
        VersionCommand::Get,
        VersionCommand::Install { version: "v20.0.0".to_string() },
        VersionCommand::Activate { version: "v20.0.0".to_string() },
        VersionCommand::Delete { version: "v20.0.0".to_string() },
    ] {
        let s = VersionManager::choose_list_source(
            &cmd,
            Err(VersionManagerError::Network("offline".to_string())),
        );
        assert!(matches!(s, ListSource::FromCache));
    }
}

#[test]
fn failed_refresh_fails() {
    let s = VersionManager::choose_list_source(
        &VersionCommand::Refresh,
        Err(VersionManagerError::Network("offline".to_string())),
    );
    assert!(matches!(s, ListSource::Failed(VersionManagerError::Network(m)) if m == "offline"));
}

#[test]
fn cache_write_errors_count_only_when_required() {
    let err = || Err(VersionManagerError::Io("disk full".to_string()));
    assert!(cache_write_outcome(false, err()).is_ok());
    assert!(matches!(cache_write_outcome(true, err()), Err(VersionManagerError::Io(m)) if m == "disk full"));
    assert!(cache_write_outcome(true, Ok(())).is_ok());
}

#[test]
fn install_progress_carries_its_fields() {
    let e = install_progress("v20.0.0", "extracting", 3, 10);
    assert!(matches!(
        e,
        VersionEvent::InstallProgress { version, stage, done: 3, total: 10 }
            if version == "v20.0.0" && stage == "extracting"
    ));
}

// --- applying a saved configuration ---

use nodepilot::commands::projects::{apply_config, AppConfig};

fn fresh_manager() -> VersionManager {
    VersionManager::new(
        "/nodepilot".to_string(),
        "/nodepilot/versions".to_string(),
        "/nodepilot/cache".to_string(),
        "https://nodejs.org/dist/index.json".to_string(),
    )
}

#[test]
fn config_with_mirror_switches_the_source() {
    let mut m = fresh_manager();
    apply_config(&mut m, &AppConfig { mirror_url: Some("https://npmmirror.com/mirrors/node/index.json".to_string()) });
    assert_eq!(m.source_url(), "https://npmmirror.com/mirrors/node/index.json");
    assert_eq!(m.dist_url(), "https://npmmirror.com/mirrors/node/");
}

#[test]
fn config_without_mirror_keeps_the_source() {
    let mut m = fresh_manager();
    m.set_source_url("https://mirror.example.com/index.json".to_string());
    apply_config(&mut m, &AppConfig { mirror_url: None });
    assert_eq!(m.source_url(), "https://mirror.example.com/index.json");
    assert_eq!(m.dist_url(), "https://mirror.example.com/");
}
