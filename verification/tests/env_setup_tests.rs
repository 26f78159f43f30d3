use nodepilot::env_setup::{
    detect_competing_managers, edit_shell_config, is_homebrew_target, is_manager_line,
    launchd_agent_plist, launchd_path, path_export_line, ps_profile_injection, ps_profile_line,
    rc_injection, shell_configs, user_path_with, user_path_without, without_marked_lines,
    EnvSetupError, ManagerProbes, ShellEdit,
};
use nodepilot::paths::{join_path, path_file_name, paths_equal};

const MARKER: &str = "# Added by nodepilot (auto-setup)";

#[test]
fn manager_lines_recognised() {
    assert!(is_manager_line("nvm", "export NVM_DIR=\"$HOME/.nvm\""));
    assert!(is_manager_line("nvm", "  [ -s \"$NVM_DIR/nvm.sh\" ] && \\. \"$NVM_DIR/nvm.sh\""));
    assert!(!is_manager_line("nvm", "# export NVM_DIR=\"$HOME/.nvm\""));
    assert!(!is_manager_line("nvm", "   "));
    assert!(is_manager_line("fnm", "eval \"$(fnm env --use-on-cd)\""));
    assert!(is_manager_line("volta", "export VOLTA_HOME=\"$HOME/.volta\""));
    assert!(is_manager_line("brew", "eval \"$(/opt/homebrew/bin/brew shellenv)\""));
    assert!(!is_manager_line("brew", "alias ll='ls -l'"));
    assert!(!is_manager_line("asdf", "export NVM_DIR=x"));
}

#[test]
fn managers_detected_in_order() {
    let probes = ManagerProbes {
        nvm_dir: true,
        fnm_dir: false,
        fnm_on_path: true,
        volta_dir: false,
        brew_node: true,
    };
    let ms = detect_competing_managers("/home/u", &probes);
    let names: Vec<&str> = ms.iter().map(|m| m.name.as_str()).collect();
    assert_eq!(names, vec!["nvm", "fnm", "brew"]);
    assert_eq!(
        ms[0].config_paths,
        vec!["/home/u/.zshrc", "/home/u/.bashrc", "/home/u/.bash_profile", "/home/u/.profile"]
    );
    assert!(ms[2].disabled_lines.is_empty());
    let none = ManagerProbes {
        nvm_dir: false,
        fnm_dir: false,
        fnm_on_path: false,
        volta_dir: false,
        brew_node: false,
    };
    assert!(detect_competing_managers("/home/u", &none).is_empty());
    assert_eq!(shell_configs("/h").len(), 4);
}

#[test]
fn homebrew_targets() {
    assert!(is_homebrew_target("../Cellar/node/22.1.0/bin/node"));
    assert!(is_homebrew_target("/opt/homebrew/opt/node/bin/node"));
    assert!(!is_homebrew_target("/usr/local/n/bin/node"));
}

#[test]
fn disable_comments_hooks_and_reports_them() {
    let content = "export NVM_DIR=\"$HOME/.nvm\"\n[ -s \"$NVM_DIR/nvm.sh\" ] && \\. \"$NVM_DIR/nvm.sh\"\nalias ll='ls -l'\n";
    let r = edit_shell_config(content, "nvm", ShellEdit::Disable);
    assert_eq!(
        r.output,
        "# export NVM_DIR=\"$HOME/.nvm\"\n# [ -s \"$NVM_DIR/nvm.sh\" ] && \\. \"$NVM_DIR/nvm.sh\"\nalias ll='ls -l'\n"
    );
    assert_eq!(r.modified.len(), 2);
    assert_eq!(r.modified[0], (0, "export NVM_DIR=\"$HOME/.nvm\"".to_string()));
    assert_eq!(r.modified[1].0, 1);
}

#[test]
fn restore_undoes_disable() {
    let content = "export NVM_DIR=\"$HOME/.nvm\"\nalias ll='ls -l'\n# a comment\n";
    let disabled = edit_shell_config(content, "nvm", ShellEdit::Disable);
    let restored = edit_shell_config(&disabled.output, "nvm", ShellEdit::Restore);
    assert_eq!(restored.output, content);
    assert_eq!(restored.modified, vec![(0, "# export NVM_DIR=\"$HOME/.nvm\"".to_string())]);
    let indented = "if true; then\n  export NVM_DIR=x\nfi\n";
    let disabled = edit_shell_config(indented, "nvm", ShellEdit::Disable);
    assert_eq!(disabled.output, "if true; then\n#   export NVM_DIR=x\nfi\n");
    assert_eq!(edit_shell_config(&disabled.output, "nvm", ShellEdit::Restore).output, indented);
}

#[test]
fn only_changed_lines_are_reported() {
    let r = edit_shell_config("export NVM_DIR=x\nalias a=b\n", "nvm", ShellEdit::Restore);
    assert_eq!(r.output, "export NVM_DIR=x\nalias a=b\n");
    assert!(r.modified.is_empty());
    let r = edit_shell_config("# export NVM_DIR=x\n", "nvm", ShellEdit::Disable);
    assert!(r.modified.is_empty());
}

#[test]
fn restore_also_uncomments_hooks_commented_by_hand() {
    let content = "# export NVM_DIR=x\n";
    let disabled = edit_shell_config(content, "nvm", ShellEdit::Disable);
    assert_eq!(disabled.output, content);
    assert_eq!(edit_shell_config(content, "nvm", ShellEdit::Restore).output, "export NVM_DIR=x\n");
}

#[test]
fn edit_terminates_last_line() {
    let r = edit_shell_config("alias a=b", "nvm", ShellEdit::Disable);
    assert_eq!(r.output, "alias a=b\n");
    assert!(r.modified.is_empty());
    assert_eq!(edit_shell_config("", "nvm", ShellEdit::Disable).output, "");
}

#[test]
fn rc_injection_adds_marked_line_once() {
    let bin = "/home/u/.nodepilot/current/bin";
    let line = path_export_line(bin);
    assert_eq!(line, format!("export PATH=\"{bin}:$PATH\"  {MARKER}"));
    let appended = rc_injection("alias a=b", bin).unwrap();
    assert_eq!(appended, format!("\n\n{line}\n"));
    assert_eq!(rc_injection("x\n", bin).unwrap(), format!("\n{line}\n"));
    assert_eq!(rc_injection("", bin).unwrap(), format!("\n\n{line}\n"));
    let after = format!("alias a=b{appended}");
    assert!(rc_injection(&after, bin).is_none());
}

#[test]
fn marked_lines_removed() {
    let bin = "/b";
    let injected = format!("alias a=b\n{}", rc_injection("alias a=b\n", bin).unwrap());
    assert_eq!(without_marked_lines(&injected).unwrap(), "alias a=b\n\n");
    assert!(without_marked_lines("alias a=b\n").is_none());
    let unterminated = format!("alias a=b{}", rc_injection("alias a=b", bin).unwrap());
    assert_eq!(without_marked_lines(&unterminated).unwrap(), "alias a=b\n\n");
    let empty = rc_injection("", bin).unwrap();
    assert_eq!(without_marked_lines(&empty).unwrap(), "\n\n");
}

#[test]
fn ps_profile_text() {
    let line = ps_profile_line("C:\\n\\current");
    assert_eq!(line, format!("$env:Path = \"C:\\n\\current;\" + $env:Path  {MARKER}"));
    assert_eq!(ps_profile_injection(None, "C:\\n\\current").unwrap(), format!("{line}\n"));
    assert_eq!(ps_profile_injection(Some("Set-X"), "C:\\n\\current").unwrap(), format!("\n{line}\n"));
    let existing = format!("{line}\n");
    assert!(ps_profile_injection(Some(&existing), "C:\\n\\current").is_none());
    let crlf = format!("a\r\nb{}", ps_profile_injection(Some("a\r\nb"), "C:\\n").unwrap());
    assert_eq!(crlf.lines().filter(|l| l.contains(MARKER)).count(), 1);
    assert_eq!(without_marked_lines(&crlf).unwrap(), "a\nb\n");
    for content in ["Set-X\n", "Set-X"] {
        let whole = format!("{content}{}", ps_profile_injection(Some(content), "C:\\n").unwrap());
        assert_eq!(without_marked_lines(&whole).unwrap(), "Set-X\n");
    }
}

#[test]
fn user_path_add_and_remove() {
    let bin = "C:\\Users\\u\\.nodepilot\\current";
    assert_eq!(user_path_with("", bin).unwrap(), bin);
    let added = user_path_with("C:\\a;C:\\b", bin).unwrap();
    assert_eq!(added, format!("C:\\a;C:\\b;{bin}"));
    assert!(user_path_with(&added, bin).is_none());
    assert_eq!(user_path_without(&added, bin).unwrap(), "C:\\a;C:\\b");
    assert!(user_path_without("C:\\a", bin).is_none());
}

#[test]
fn launchd_plist_sets_path() {
    assert_eq!(launchd_path("/n/current/bin", "/usr/bin:/bin"), "/n/current/bin:/usr/bin:/bin");
    let xml = launchd_agent_plist("/n/current/bin", "/usr/bin:/bin").ok().unwrap();
    assert!(xml.contains("<string>com.nodepilot.env</string>"));
    assert!(xml.contains("<string>/n/current/bin:/usr/bin:/bin</string>"));
    assert!(xml.contains("<key>RunAtLoad</key>"));
    assert!(xml.contains("<string>Aqua</string>"));
}

#[test]
fn setup_error_messages() {
    assert_eq!(EnvSetupError::Io("x".to_string()).message(), "IO error: x");
    assert_eq!(EnvSetupError::Plist("x".to_string()).message(), "launchd plist error: x");
    assert_eq!(EnvSetupError::Registry("x".to_string()).message(), "registry error: x");
    assert_eq!(EnvSetupError::ShellConfig("x".to_string()).message(), "shell config error: x");
}

#[test]
fn paths_join_and_compare() {
    assert_eq!(join_path("/a", "b"), "/a/b");
    assert_eq!(join_path("/a/", "b"), "/a/b");
    assert_eq!(join_path("/a", "/b"), "/b");
    assert_eq!(join_path("", "b"), "b");
    assert!(paths_equal("/a//b/./c/", "/a/b/c"));
    assert!(!paths_equal("/a/b", "a/b"));
    assert!(!paths_equal("./a", "a"));
    assert_eq!(path_file_name("/a/b.txt"), Some("b.txt".to_string()));
    assert_eq!(path_file_name("/a/.."), None);
    assert_eq!(path_file_name("/"), None);
}

#[test]
fn ps_removal_keeps_crlf_profile_lines() {
    let content = "Set-Alias ll ls\r\nImport-Module posh-git";
    let added = ps_profile_injection(Some(content), "C:\\np\\bin").unwrap();
    let whole = format!("{content}{added}");
    assert_eq!(
        without_marked_lines(&whole),
        Some("Set-Alias ll ls\nImport-Module posh-git\n".to_string())
    );
}

// --- the order of setup ---

use nodepilot::env_setup::CompetingManager;
use nodepilot::setup_steps::{
    after_setup_step, configs_to_restore, first_setup_step, SetupNext, SetupStep,
};

fn shell_err(m: &str) -> Result<(), EnvSetupError> {
    Err(EnvSetupError::ShellConfig(m.to_string()))
}

#[test]
fn setup_runs_every_step_when_all_succeed() {
    let mut step = first_setup_step();
    let mut order = vec![];
    loop {
        order.push(match &step {
            SetupStep::InjectPath => "inject",
            SetupStep::DisableHooks => "disable",
            SetupStep::RecordDisabled { disable_error } => {
                assert!(disable_error.is_none());
                "record"
            }
            SetupStep::WriteFlag => "flag",
        });
        match after_setup_step(step, Ok(())) {
            SetupNext::Run(next) => step = next,
            SetupNext::End(r) => {
                assert!(r.is_ok());
                break;
            }
        }
    }
    assert_eq!(order, vec!["inject", "disable", "record", "flag"]);
}

#[test]
fn setup_stops_when_the_path_cannot_be_set() {
    let n = after_setup_step(SetupStep::InjectPath, shell_err("no rc"));
    assert!(matches!(n, SetupNext::End(Err(EnvSetupError::ShellConfig(m))) if m == "no rc"));
}

#[test]
fn setup_records_disabled_hooks_even_when_disabling_fails() {
    let n = after_setup_step(SetupStep::DisableHooks, shell_err("read ~/.zshrc"));
    let step = match n {
        SetupNext::Run(s) => s,
        SetupNext::End(_) => panic!("the record must still be saved"),
    };
    assert!(matches!(
        &step,
        SetupStep::RecordDisabled { disable_error: Some(EnvSetupError::ShellConfig(m)) } if m == "read ~/.zshrc"
    ));
    let end = after_setup_step(step, Ok(()));
    assert!(matches!(end, SetupNext::End(Err(EnvSetupError::ShellConfig(m))) if m == "read ~/.zshrc"));
}

#[test]
fn setup_stops_when_the_record_cannot_be_saved() {
    let n = after_setup_step(
        SetupStep::RecordDisabled { disable_error: None },
        Err(EnvSetupError::Io("disk full".to_string())),
    );
    assert!(matches!(n, SetupNext::End(Err(EnvSetupError::Io(m))) if m == "disk full"));
}

#[test]
fn setup_ends_with_the_flag_write() {
    let n = after_setup_step(SetupStep::WriteFlag, Err(EnvSetupError::Io("ro".to_string())));
    assert!(matches!(n, SetupNext::End(Err(EnvSetupError::Io(m))) if m == "ro"));
    assert!(matches!(after_setup_step(SetupStep::WriteFlag, Ok(())), SetupNext::End(Ok(()))));
}

#[test]
fn rollback_restores_each_config_once_in_order() {
    let m = CompetingManager {
        name: "nvm".to_string(),
        config_paths: vec![],
        disabled_lines: vec![
            ("/h/.zshrc".to_string(), 3, "export NVM_DIR=x".to_string()),
            ("/h/.bashrc".to_string(), 1, "export NVM_DIR=x".to_string()),
            ("/h/.zshrc".to_string(), 4, ". $NVM_DIR/nvm.sh".to_string()),
        ],
    };
    assert_eq!(configs_to_restore(&m), vec!["/h/.zshrc".to_string(), "/h/.bashrc".to_string()]);
    let none = CompetingManager { name: "fnm".to_string(), config_paths: vec![], disabled_lines: vec![] };
    assert!(configs_to_restore(&none).is_empty());
}
