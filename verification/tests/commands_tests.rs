use nodepilot::commands::app_update::{app_update_from, release_update};
use nodepilot::commands::dev_server::{
    log_line, plan_dev_server, server_path, Platform, ServerRegistry, LOG_CAPACITY,
};
use nodepilot::commands::dev_server::LogBuffers;
use nodepilot::commands::git::{checkout_error_message, parse_git_branches};
use nodepilot::commands::process_tree::{
    alive_from_stat, collect_process_tree, kill_order, parse_ps_output,
};
use nodepilot::commands::projects::{
    bind_project, config_for_source, startup_source_url, unbind_project, update_project_config,
    update_project_name, AppConfig, ProjectBinding,
};
use nodepilot::commands::state::{lock_file_paths, setup_error_path, setup_flag_path};
use nodepilot::commands::{cleanup_all_servers, detect_package_manager, parse_version, strip_ansi, AppState};
use nodepilot::error::AppError;

#[test]
fn strip_ansi_removes_color_codes() {
    assert_eq!(strip_ansi("\x1b[32mVITE\x1b[39m v5.0.12"), "VITE v5.0.12");
    assert_eq!(strip_ansi("\x1b[32m\x1b[1mVITE\x1b[22m v5.0.12\x1b[39m"), "VITE v5.0.12");
}

#[test]
fn strip_ansi_removes_complex_sequences() {
    let input = "\x1b[2m\x1b[32m  ➜\x1b[39m\x1b[22m\x1b[2m  press \x1b[22m\x1b[1mh + enter\x1b[22m\x1b[2m to show help\x1b[22m";
    assert_eq!(strip_ansi(input), "  ➜  press h + enter to show help");
}

#[test]
fn strip_ansi_preserves_plain_text() {
    assert_eq!(strip_ansi("hello world"), "hello world");
    assert_eq!(strip_ansi("no ansi codes here"), "no ansi codes here");
}

#[test]
fn strip_ansi_handles_empty() {
    assert_eq!(strip_ansi(""), "");
}

#[test]
fn strip_ansi_handles_real_vite_output() {
    let input = "\x1b[32m\x1b[1mVITE\x1b[22m v5.0.12\x1b[39m  \x1b[2mready in \x1b[0m\x1b[1m1460\x1b[22m\x1b[2m\x1b[0m ms\x1b[22m";
    assert_eq!(strip_ansi(input), "VITE v5.0.12  ready in 1460 ms");

    let input2 = "\x1b[32m➜\x1b[39m  \x1b[1mLocal\x1b[22m:   \x1b[36mhttp://localhost:\x1b[1m3006\x1b[22m/\x1b[39m";
    assert_eq!(strip_ansi(input2), "➜  Local:   http://localhost:3006/");
}

#[test]
fn parse_version_accepts_v_prefix_and_plain() {
    assert_eq!(parse_version("v0.2.7"), Some((0, 2, 7)));
    assert_eq!(parse_version("0.2.7"), Some((0, 2, 7)));
    assert_eq!(parse_version("v24.1.2"), Some((24, 1, 2)));
}

#[test]
fn parse_version_rejects_non_standard() {
    assert_eq!(parse_version("v0.2"), None);
    assert_eq!(parse_version("latest"), None);
    assert_eq!(parse_version("0.2.7-beta"), None);
    assert_eq!(parse_version(""), None);
}

// --- escape sequences ---

#[test]
fn strip_ansi_removes_osc_titles() {
    assert_eq!(strip_ansi("\x1b]0;title\x07done"), "done");
    assert_eq!(strip_ansi("\x1b]8;;http://x\x1b\\link"), "link");
}

#[test]
fn strip_ansi_is_idempotent_on_example() {
    let once = strip_ansi("\x1b[1mbold\x1b[0m text");
    assert_eq!(once, "bold text");
    assert_eq!(strip_ansi(&once), once);
}

#[test]
fn strip_ansi_keeps_lone_escape_at_end() {
    // An escape with nothing after it ends the text.
    assert_eq!(strip_ansi("abc\x1b"), "abc");
}

// --- version parsing and update check ---

#[test]
fn parse_version_rejects_extra_parts_signs_and_repeated_v() {
    assert_eq!(parse_version("1.2.3.4"), None);
    assert_eq!(parse_version("vv1.2.3"), None);
    assert_eq!(parse_version("+1.2.3"), None);
    assert_eq!(parse_version("1.+2.3"), None);
    assert_eq!(parse_version("4294967296.0.0"), None);
    assert_eq!(parse_version("1..2"), None);
    assert_eq!(parse_version("v4294967295.0.10"), Some((4294967295, 0, 10)));
}

#[test]
fn parse_version_reads_back_written_versions() {
    for (a, b, c) in [(0u32, 0u32, 0u32), (24, 1, 2), (u32::MAX, 7, 100)] {
        assert_eq!(parse_version(&format!("{a}.{b}.{c}")), Some((a, b, c)));
        assert_eq!(parse_version(&format!("v{a}.{b}.{c}")), Some((a, b, c)));
    }
}

#[test]
fn update_offered_only_when_newer() {
    let u = app_update_from("v0.3.0", "https://example.com/r", "0.2.7").unwrap();
    assert_eq!(u.version, "0.3.0");
    assert_eq!(u.url, "https://example.com/r");
    assert!(app_update_from("v0.2.7", "u", "0.2.7").is_none());
    assert!(app_update_from("v0.2.6", "u", "0.2.7").is_none());
    assert!(app_update_from("latest", "u", "0.2.7").is_none());
    assert!(app_update_from("v1.0.0", "u", "dev").is_none());
}

#[test]
fn release_update_reads_tag_and_url() {
    let body = br#"{"tag_name":"v9.9.9","html_url":"https://example.com/rel"}"#;
    let u = release_update(body, "0.1.0").unwrap();
    assert_eq!(u.version, "9.9.9");
    assert_eq!(u.url, "https://example.com/rel");
    assert!(release_update(br#"{"tag_name":"v0.0.1","html_url":"x"}"#, "0.1.0").is_none());
    assert!(release_update(b"not json", "0.1.0").is_none());
    assert!(release_update(br#"{"tag_name":"v9.9.9"}"#, "0.1.0").is_none());
    assert!(release_update(br#"{"tag_name":9,"html_url":"x"}"#, "0.1.0").is_none());
}

// --- package manager and state ---

#[test]
fn package_manager_from_lock_files() {
    assert_eq!(detect_package_manager(true, true), "pnpm");
    assert_eq!(detect_package_manager(true, false), "pnpm");
    assert_eq!(detect_package_manager(false, true), "yarn");
    assert_eq!(detect_package_manager(false, false), "npm");
    let (pnpm, yarn) = lock_file_paths("/work/app");
    assert_eq!(pnpm, "/work/app/pnpm-lock.yaml");
    assert_eq!(yarn, "/work/app/yarn.lock");
}

#[test]
fn app_state_paths() {
    let s = AppState::new("/home/u/.nodepilot".to_string(), "https://nodejs.org/dist/index.json".to_string());
    assert_eq!(s.config_path, "/home/u/.nodepilot/config.json");
    assert_eq!(s.projects_path, "/home/u/.nodepilot/projects.json");
    assert_eq!(s.manager.versions_dir, "/home/u/.nodepilot/versions");
    assert_eq!(s.manager.cache_dir, "/home/u/.nodepilot/cache");
    assert_eq!(s.manager.dist_url(), "https://nodejs.org/dist/");
    assert_eq!(setup_flag_path("/n"), "/n/.auto-setup-done");
    assert_eq!(setup_error_path("/n"), "/n/.auto-setup-error");
}

#[test]
fn cleanup_all_servers_returns_every_pid_once() {
    let mut s = AppState::new("/n".to_string(), "https://nodejs.org/dist/index.json".to_string());
    s.servers.insert("/a".to_string(), 10);
    s.servers.insert("/b".to_string(), 20);
    s.servers.insert("/a".to_string(), 11);
    let mut pids = cleanup_all_servers(&mut s);
    pids.sort();
    assert_eq!(pids, vec![11, 20]);
    assert!(!s.servers.contains("/a"));
    assert!(!s.servers.contains("/b"));
    assert!(cleanup_all_servers(&mut s).is_empty());
}

// --- dev servers ---

#[test]
fn server_registry_insert_remove() {
    let mut r = ServerRegistry::new();
    assert!(!r.contains("/p"));
    r.insert("/p".to_string(), 42);
    assert!(r.contains("/p"));
    assert_eq!(r.running_paths(), vec!["/p".to_string()]);
    assert_eq!(r.remove("/p"), Some(42));
    assert_eq!(r.remove("/p"), None);
    assert!(r.running_paths().is_empty());
}

#[test]
fn plan_refuses_running_server_and_empty_command() {
    let mut r = ServerRegistry::new();
    r.insert("/p".to_string(), 1);
    let plat = Platform { windows: false, use_pty: false, has_stdbuf: false };
    match plan_dev_server(&r, "/p", "npm run dev", &plat) {
        Err(AppError::Config(m)) => assert_eq!(m, "server already running"),
        _ => panic!("expected a config error"),
    }
    match plan_dev_server(&r, "/q", "   ", &plat) {
        Err(AppError::Config(m)) => assert_eq!(m, "empty command"),
        _ => panic!("expected a config error"),
    }
}

#[test]
fn plan_builds_invocation_per_platform() {
    let r = ServerRegistry::new();
    let plain = Platform { windows: false, use_pty: false, has_stdbuf: false };
    let inv = plan_dev_server(&r, "/p", "  npm  run dev ", &plain).ok().unwrap();
    assert_eq!(inv.program, "npm");
    assert_eq!(inv.args, vec!["run".to_string(), "dev".to_string()]);

    let stdbuf = Platform { windows: false, use_pty: false, has_stdbuf: true };
    let inv = plan_dev_server(&r, "/p", "npm run dev", &stdbuf).ok().unwrap();
    assert_eq!(inv.program, "stdbuf");
    assert_eq!(inv.args, vec!["-o0", "-e0", "npm", "run", "dev"]);

    let pty = Platform { windows: false, use_pty: true, has_stdbuf: true };
    let inv = plan_dev_server(&r, "/p", "npm  run dev", &pty).ok().unwrap();
    assert_eq!(inv.program, "script");
    assert_eq!(inv.args, vec!["-q", "/dev/null", "sh", "-c", "sleep 2147483647 | npm run dev"]);

    let win = Platform { windows: true, use_pty: false, has_stdbuf: false };
    let inv = plan_dev_server(&r, "/p", "npm  run dev", &win).ok().unwrap();
    assert_eq!(inv.program, "cmd");
    assert_eq!(inv.args, vec!["/C", "npm  run dev"]);
}

#[test]
fn server_path_orders_node_extras_inherited() {
    let extras = vec!["/opt/homebrew/bin".to_string(), "/usr/local/bin".to_string()];
    assert_eq!(
        server_path("/n/current/bin", &extras, "/usr/bin:/bin", ":"),
        "/n/current/bin:/opt/homebrew/bin:/usr/local/bin:/usr/bin:/bin"
    );
    assert_eq!(server_path("/n/current/bin", &vec![], "/usr/bin", ":"), "/n/current/bin:/usr/bin");
    assert_eq!(server_path("C:\\n\\current", &vec![], "C:\\w", ";"), "C:\\n\\current;C:\\w");
}

#[test]
fn log_line_trims_and_drops_blank() {
    assert_eq!(log_line("ready in 10 ms\r\n"), Some("ready in 10 ms".to_string()));
    assert_eq!(log_line("  indented  "), Some("  indented".to_string()));
    assert_eq!(log_line(" \t\n"), None);
    assert_eq!(log_line(""), None);
}

#[test]
fn log_buffer_keeps_last_lines() {
    let mut b = LogBuffers::new();
    assert!(b.get_logs("/p").is_empty());
    for i in 0..(LOG_CAPACITY + 5) {
        b.push_line("/p", format!("line {i}"));
    }
    let logs = b.get_logs("/p");
    assert_eq!(logs.len(), LOG_CAPACITY);
    assert_eq!(logs[0], "line 5");
    assert_eq!(logs[LOG_CAPACITY - 1], format!("line {}", LOG_CAPACITY + 4));
    b.push_line("/q", "other".to_string());
    assert_eq!(b.get_logs("/q"), vec!["other".to_string()]);
    b.clear("/p");
    assert!(b.get_logs("/p").is_empty());
    assert_eq!(b.get_logs("/q").len(), 1);
}

// --- process trees ---

#[test]
fn ps_output_parsed_into_pairs() {
    let text = "  PID  PPID\n  1 0\n  100 1\n 101 100\n junk line\n102 100 extra\n";
    assert_eq!(parse_ps_output(text), vec![(1, 0), (100, 1), (101, 100), (102, 100)]);
    assert!(parse_ps_output("").is_empty());
}

#[test]
fn process_tree_collects_descendants() {
    let edges = vec![(1, 0), (100, 1), (101, 100), (102, 100), (200, 1), (103, 101)];
    let tree = collect_process_tree(100, &edges);
    assert_eq!(tree, vec![100, 101, 102, 103]);
    let wide = vec![(5, 1), (2, 1), (9, 5), (3, 2), (4, 1)];
    assert_eq!(collect_process_tree(1, &wide), vec![1, 5, 2, 4, 9, 3]);
    let mut sorted = tree.clone();
    sorted.sort();
    assert_eq!(sorted, vec![100, 101, 102, 103]);
    assert_eq!(collect_process_tree(555, &edges), vec![555]);
}

#[test]
fn process_tree_survives_cycles() {
    let edges = vec![(2, 1), (1, 2), (3, 2)];
    let mut tree = collect_process_tree(1, &edges);
    tree.sort();
    assert_eq!(tree, vec![1, 2, 3]);
}

#[test]
fn children_signalled_before_parents() {
    let edges = vec![(101, 100), (102, 101)];
    let tree = collect_process_tree(100, &edges);
    assert_eq!(tree, vec![100, 101, 102]);
    assert_eq!(kill_order(&tree), vec![102, 101, 100]);
    assert!(kill_order(&vec![]).is_empty());
}

#[test]
fn zombie_counts_as_dead() {
    assert!(alive_from_stat("S+\n"));
    assert!(!alive_from_stat("Z\n"));
    assert!(!alive_from_stat("Z+"));
    assert!(alive_from_stat(""));
}

// --- git ---

#[test]
fn git_branches_parsed() {
    let b = parse_git_branches("  develop\n* main\n\n  feature/x  \n");
    let got: Vec<(String, bool)> = b.branches.iter().map(|x| (x.name.clone(), x.is_current)).collect();
    assert_eq!(
        got,
        vec![
            ("develop".to_string(), false),
            ("main".to_string(), true),
            ("feature/x".to_string(), false)
        ]
    );
}

#[test]
fn checkout_error_prefers_stderr() {
    assert_eq!(checkout_error_message("  error: bad\n", "out"), "error: bad");
    assert_eq!(checkout_error_message("", " fallback \n"), "fallback");
}

// --- project bindings ---

fn binding(version: &str, name: &str, path: &str) -> ProjectBinding {
    ProjectBinding {
        version: version.to_string(),
        name: name.to_string(),
        path: path.to_string(),
        default_script: None,
        command_prefix: None,
        start_command: None,
    }
}

#[test]
fn bind_then_unbind_restores_list() {
    let mut ps = vec![binding("v20.0.0", "a", "/a")];
    bind_project(&mut ps, "v22.0.0".to_string(), "b".to_string(), "/b".to_string());
    assert_eq!(ps.len(), 2);
    assert_eq!(ps[1].name, "b");
    assert!(ps[1].default_script.is_none());
    let ps = unbind_project(ps, "v22.0.0", "/b");
    assert_eq!(ps.len(), 1);
    assert_eq!(ps[0].path, "/a");
}

#[test]
fn unbind_removes_every_match_and_keeps_order() {
    let ps = vec![
        binding("v20.0.0", "a", "/a"),
        binding("v20.0.0", "b", "/b"),
        binding("v20.0.0", "a2", "/a"),
        binding("v22.0.0", "a3", "/a"),
    ];
    let ps = unbind_project(ps, "v20.0.0", "/a");
    let names: Vec<&str> = ps.iter().map(|p| p.name.as_str()).collect();
    assert_eq!(names, vec!["b", "a3"]);
}

#[test]
fn update_project_name_and_config() {
    let mut ps = vec![binding("v20.0.0", "a", "/a"), binding("v20.0.0", "b", "/b")];
    assert!(update_project_name(&mut ps, "v20.0.0", "/b", "renamed".to_string()).is_ok());
    assert_eq!(ps[1].name, "renamed");
    assert_eq!(ps[0].name, "a");
    assert!(update_project_config(
        &mut ps,
        "v20.0.0",
        "/a",
        Some("dev".to_string()),
        Some("pnpm".to_string()),
        None
    )
    .is_ok());
    assert_eq!(ps[0].default_script.as_deref(), Some("dev"));
    assert_eq!(ps[0].command_prefix.as_deref(), Some("pnpm"));
    assert!(ps[0].start_command.is_none());
    match update_project_name(&mut ps, "v18.0.0", "/a", "x".to_string()) {
        Err(e) => {
            assert_eq!(e.message(), "version not found: project binding not found");
            assert!(matches!(e, AppError::NotFound(_)));
        }
        Ok(()) => panic!("expected not found"),
    }
    assert!(update_project_config(&mut ps, "v20.0.0", "/zzz", None, None, None).is_err());
    assert_eq!(ps.len(), 2);
}

#[test]
fn config_roundtrip_on_examples() {
    let official = "https://nodejs.org/dist/index.json";
    let c = config_for_source(official);
    assert!(c.mirror_url.is_none());
    assert_eq!(startup_source_url(Some(c)), official);
    let mirror = "https://mirror.example.com/index.json";
    let c = config_for_source(mirror);
    assert_eq!(c.mirror_url.as_deref(), Some(mirror));
    assert_eq!(startup_source_url(Some(c)), mirror);
    assert_eq!(startup_source_url(None), official);
    assert_eq!(startup_source_url(Some(AppConfig { mirror_url: None })), official);
}
