use herdr_tab_title::naming::{
    agents_are_looked_for, desired_label_for_pane, desired_label_for_tab, detected_tab_label,
    foreground_process_name,
};
use herdr_tab_title::config::PluginConfig;
use herdr_tab_title::label::IdleLabelMode;
use herdr_tab_title::process::{
    agent_label, exe_suffix_is_readable, is_internal_helper_process, is_shell_process,
    process_label, process_score, score_of_names, select_foreground_process,
    select_idle_shell_process, strip_windows_exe_suffix, ForegroundProcess, PaneProcessInfo,
};
use herdr_tab_title::tab::{Pane, Tab};
use herdr_tab_title::windows::{PlatformProcessSnapshot, WindowsProcessEntry};

fn process(name: &str, argv0: Option<&str>, argv: &[&str]) -> ForegroundProcess {
    ForegroundProcess {
        name: name.to_string(),
        argv0: argv0.map(str::to_string),
        argv: argv.iter().map(|value| value.to_string()).collect(),
        cmdline: None,
    }
}

fn pane(cwd: Option<&str>, foreground_cwd: Option<&str>, agent: Option<&str>) -> Pane {
    Pane {
        pane_id: "p1".into(),
        tab_id: "t1".into(),
        focused: false,
        cwd: cwd.map(str::to_string),
        foreground_cwd: foreground_cwd.map(str::to_string),
        agent: agent.map(str::to_string),
        internal_title: None,
    }
}

#[test]
fn process_label_prefers_executable_basename() {
    let p = process("python3", Some("/usr/bin/python3"), &["python3", "app.py"]);
    assert_eq!(process_label(&p, false), "python3");
}

#[test]
fn process_label_strips_exe_suffix_only_on_windows() {
    assert_eq!(strip_windows_exe_suffix("pwsh.exe", true), "pwsh");
    assert_eq!(strip_windows_exe_suffix("PWSh.EXE", true), "PWSh");
    assert_eq!(strip_windows_exe_suffix("pwsh.exe", false), "pwsh.exe");
}

#[test]
fn shell_processes_are_idle_sources() {
    assert!(is_shell_process(&process("bash", Some("bash"), &["bash"]), false));
    assert!(is_shell_process(&process("zsh", None, &["/bin/zsh"]), false));
    assert!(!is_shell_process(
        &process("cargo", None, &["cargo", "test"]),
        false
    ));
}

#[test]
fn select_foreground_process_skips_shells() {
    let processes = vec![
        process("bash", None, &["bash"]),
        process("cargo", None, &["cargo", "test"]),
    ];
    assert_eq!(
        select_foreground_process(&processes, false).map(|p| process_label(p, false)),
        Some("cargo".to_string())
    );
}

#[test]
fn select_idle_shell_process_finds_shell() {
    let processes = vec![
        process("bash", None, &["bash"]),
        process("cargo", None, &["cargo", "test"]),
    ];
    assert_eq!(
        select_idle_shell_process(&processes, false).map(|p| process_label(p, false)),
        Some("bash".to_string())
    );
}

#[test]
fn select_foreground_process_skips_internal_helpers() {
    let processes = vec![
        process("pi", None, &["pi"]),
        process(
            "exec_bridge",
            Some("/tmp/pi/tools/exec/bin/linux-x64/exec_bridge"),
            &["/tmp/pi/tools/exec/bin/linux-x64/exec_bridge"],
        ),
    ];
    assert_eq!(
        select_foreground_process(&processes, false).map(|p| process_label(p, false)),
        Some("pi".to_string())
    );
}

#[test]
fn agent_metadata_precedes_foreground_process() {
    let process_info = PaneProcessInfo {
        shell_pid: Some(10),
        processes: vec![process("fish.exe", Some("fish.exe"), &["fish.exe"])],
    };
    let snapshot = PlatformProcessSnapshot::default();

    assert_eq!(
        detected_tab_label(&process_info, Some("pi"), &snapshot, true, false),
        Some("pi".into())
    );
    assert_eq!(
        detected_tab_label(&process_info, Some("pi"), &snapshot, false, false),
        None
    );
}

#[test]
fn last_process_wins_among_equals() {
    let processes = vec![
        process("vim", None, &["vim"]),
        process("less", None, &["less"]),
    ];
    assert_eq!(
        select_foreground_process(&processes, false).map(|p| process_label(p, false)),
        Some("less".to_string())
    );
}

#[test]
fn process_under_another_name_scores_higher() {
    let renamed = process("node", Some("/usr/bin/codex"), &[]);
    let plain = process("VIM", None, &["vim"]);
    assert_eq!(process_score(&renamed, false), 3);
    assert_eq!(process_score(&plain, false), 2);
    assert_eq!(score_of_names("a", "a"), 2);
    assert_eq!(score_of_names("a", "b"), 3);
    let processes = vec![renamed, plain];
    assert_eq!(
        select_foreground_process(&processes, false).map(|p| process_label(p, false)),
        Some("codex".to_string())
    );
}

#[test]
fn lowercase_is_that_of_unicode() {
    assert_eq!(process_score(&process("ÉDITEUR", None, &["éditeur"]), false), 2);
    assert!(is_shell_process(&process("BASH", None, &[]), false));
    assert!(is_shell_process(&process("x", Some(" Zsh.bat.cmd.exe "), &[]), false));
    assert!(is_internal_helper_process(&process("EXEC_BRIDGE", None, &[]), false));
}

#[test]
fn name_is_used_where_nothing_was_started() {
    assert_eq!(process_label(&process("kernel", None, &[]), false), "kernel");
    assert_eq!(process_label(&process("kernel", Some("//"), &[]), false), "kernel");
    assert_eq!(process_label(&process("a", Some("C:\\bin\\b.exe"), &[]), true), "b");
}

#[test]
fn labels_that_split_a_character_are_not_readable() {
    assert!(!exe_suffix_is_readable("ééx", true));
    assert!(exe_suffix_is_readable("ééx", false));
    assert!(exe_suffix_is_readable("é.exe", true));
    assert!(exe_suffix_is_readable("é", true));
}

#[test]
fn agents_are_trimmed_and_blank_ones_ignored() {
    assert_eq!(agent_label(Some(" pi ")), Some("pi"));
    assert_eq!(agent_label(Some(" \t")), None);
    assert_eq!(agent_label(None), None);
}

#[test]
fn idle_panes_are_named_after_directory_and_shell() {
    let info = PaneProcessInfo {
        shell_pid: None,
        processes: vec![process("bash", None, &["-bash", "bash"]), process("bash", None, &["bash"])],
    };
    let snapshot = PlatformProcessSnapshot::default();
    let mut config = PluginConfig::default();
    config.idle_label_mode = IdleLabelMode::DirectoryShell;
    config.directory_depth = 2;
    let idle = pane(Some("/home/me/api"), None, None);
    let info_shell = PaneProcessInfo {
        shell_pid: None,
        processes: vec![process("bash", None, &["bash"])],
    };
    assert_eq!(
        desired_label_for_pane(&idle, &config, &info_shell, &snapshot, Some("/home/me"), false),
        "me/api ❯ bash"
    );
    config.shorten_home_directory = true;
    assert_eq!(
        desired_label_for_pane(&idle, &config, &info_shell, &snapshot, Some("/home/me"), false),
        "~/api ❯ bash"
    );
    let moved = pane(Some("/a"), Some("/b/c"), None);
    config.idle_label_mode = IdleLabelMode::Directory;
    assert_eq!(
        desired_label_for_pane(&moved, &config, &info_shell, &snapshot, None, false),
        "b/c"
    );
    assert_eq!(
        desired_label_for_pane(&pane(None, None, None), &config, &info_shell, &snapshot, None, false),
        "/"
    );
    assert_eq!(
        desired_label_for_pane(&idle, &config, &info, &snapshot, None, false),
        "-bash"
    );
}

#[test]
fn tab_label_is_numbered_pane_label() {
    let tab = Tab {
        tab_id: "t1".into(),
        workspace_id: "w1".into(),
        label: "1".into(),
        number: 1,
        display_number: 4,
        focused: true,
    };
    let info = PaneProcessInfo {
        shell_pid: None,
        processes: vec![process("cargo", None, &["cargo"])],
    };
    let snapshot = PlatformProcessSnapshot::default();
    let config = PluginConfig::default();
    assert_eq!(
        desired_label_for_tab(&tab, &pane(None, None, None), &config, &info, &snapshot, None, false),
        "4:cargo"
    );
    assert_eq!(
        desired_label_for_tab(&tab, &pane(None, None, Some("pi")), &config, &info, &snapshot, None, false),
        "4:pi"
    );
    assert_eq!(
        foreground_process_name(Some(&info), &snapshot, false),
        Some("cargo".into())
    );
    assert_eq!(foreground_process_name(None, &snapshot, false), None);
}

#[test]
fn process_tree_does_not_count_away_from_windows() {
    let entry = |pid, parent_pid, name: &str| WindowsProcessEntry {
        pid,
        parent_pid,
        name: name.into(),
    };
    let snapshot = PlatformProcessSnapshot {
        entries: vec![entry(1, 0, "bash"), entry(2, 1, "vim")],
    };
    let info = PaneProcessInfo {
        shell_pid: Some(1),
        processes: vec![process("bash", None, &["bash"])],
    };
    assert_eq!(detected_tab_label(&info, None, &snapshot, true, false), None);
    assert_eq!(
        detected_tab_label(&info, None, &snapshot, true, true),
        Some("vim".into())
    );
}

#[test]
fn labels_of_panes_are_clean() {
    let snapshot = PlatformProcessSnapshot::default();
    let config = PluginConfig::default();
    let info = PaneProcessInfo {
        shell_pid: None,
        processes: vec![],
    };
    let agent = pane(None, None, Some(" deep\n\tthought "));
    assert_eq!(
        desired_label_for_pane(&agent, &config, &info, &snapshot, None, false),
        "deep thought"
    );
    let long = pane(Some(&"d".repeat(60)), None, None);
    assert_eq!(
        desired_label_for_pane(&long, &config, &info, &snapshot, None, false),
        format!("{}...", "d".repeat(37))
    );
}

#[test]
fn agents_on_windows_have_a_setting_of_their_own() {
    let info = PaneProcessInfo {
        shell_pid: None,
        processes: vec![process("node.exe", None, &["node.exe"])],
    };
    let snapshot = PlatformProcessSnapshot::default();
    let agent = pane(None, None, Some("pi"));
    let mut config = PluginConfig::default();
    let label = |config: &PluginConfig, is_windows: bool| {
        desired_label_for_pane(&agent, config, &info, &snapshot, None, is_windows)
    };
    assert_eq!(label(&config, true), "pi");
    assert_eq!(label(&config, false), "pi");
    config.windows_agent_detection = false;
    assert!(!agents_are_looked_for(&config, true));
    assert!(agents_are_looked_for(&config, false));
    assert_eq!(label(&config, true), "node");
    assert_eq!(label(&config, false), "pi");
    config.windows_agent_detection = true;
    config.agent_detection = false;
    assert_eq!(label(&config, true), "node");
    assert_eq!(label(&config, false), "node.exe");
}
