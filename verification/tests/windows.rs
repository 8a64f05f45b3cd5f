use herdr_tab_title::naming::detected_tab_label;
use herdr_tab_title::process::{ForegroundProcess, PaneProcessInfo};
use herdr_tab_title::windows::{
    is_transparent_windows_process, normalized_windows_process_name, platform_foreground_process,
    platform_process_snapshot, select_windows_process_candidate, tasklist_contains_pid,
    tasklist_text_contains_pid, tree_is_readable, PlatformProcessSnapshot, ProcessRecord,
    WindowsProcessEntry,
};

fn windows_entry(pid: u32, parent_pid: u32, name: &str) -> WindowsProcessEntry {
    WindowsProcessEntry {
        pid,
        parent_pid,
        name: name.into(),
    }
}

#[test]
fn windows_agent_name_precedes_foreground_program() {
    let process_info = PaneProcessInfo {
        shell_pid: Some(10),
        processes: vec![ForegroundProcess {
            name: "fish.exe".into(),
            argv0: Some("fish.exe".into()),
            argv: vec!["fish.exe".into()],
            cmdline: None,
        }],
    };
    let snapshot = PlatformProcessSnapshot {
        entries: vec![
            windows_entry(10, 1, "fish.exe"),
            windows_entry(20, 10, "lazygit.exe"),
        ],
    };

    assert_eq!(
        detected_tab_label(&process_info, Some("pi"), &snapshot, true, true),
        Some("pi".into())
    );
    assert_eq!(
        detected_tab_label(&process_info, Some("pi"), &snapshot, false, true),
        Some("lazygit".into())
    );
}

#[test]
fn windows_fallback_walks_shells_and_stops_at_first_program() {
    let entries = vec![
        windows_entry(10, 1, "fish.exe"),
        windows_entry(20, 10, "fish.exe"),
        windows_entry(30, 20, "fish.exe"),
        windows_entry(35, 30, "env.exe"),
        windows_entry(40, 35, "lazygit.exe"),
        windows_entry(50, 40, "lazygit.exe"),
        windows_entry(60, 50, "git.exe"),
    ];

    let selected = select_windows_process_candidate(10, &entries).unwrap();
    assert_eq!(selected.pid, 40);
    assert_eq!(normalized_windows_process_name(&selected.name), "lazygit");
}

#[test]
fn windows_fallback_rejects_ambiguous_program_branches() {
    let entries = vec![
        windows_entry(10, 1, "fish.exe"),
        windows_entry(20, 10, "server.exe"),
        windows_entry(30, 10, "lazygit.exe"),
    ];

    assert!(select_windows_process_candidate(10, &entries).is_none());
}

#[test]
fn windows_fallback_accepts_equivalent_program_branches() {
    let entries = vec![
        windows_entry(10, 1, "fish.exe"),
        windows_entry(20, 10, "LAZYGIT.EXE"),
        windows_entry(30, 10, "lazygit.exe"),
    ];

    let selected = select_windows_process_candidate(10, &entries).unwrap();
    assert_eq!(normalized_windows_process_name(&selected.name), "lazygit");
}

#[test]
fn shell_that_is_not_running_has_no_program() {
    let entries = vec![windows_entry(20, 10, "lazygit.exe")];
    assert!(select_windows_process_candidate(10, &entries).is_none());
    assert!(tree_is_readable(&entries, 10));
}

#[test]
fn circles_in_the_process_tree_end() {
    let entries = vec![
        windows_entry(10, 20, "cmd.exe"),
        windows_entry(20, 10, "pwsh.exe"),
        windows_entry(30, 20, "vim.exe"),
    ];
    assert_eq!(select_windows_process_candidate(10, &entries).unwrap().pid, 30);
}

#[test]
fn shell_pid_is_needed() {
    let snapshot = PlatformProcessSnapshot {
        entries: vec![windows_entry(1, 0, "cmd.exe"), windows_entry(2, 1, "vim.exe")],
    };
    assert_eq!(platform_foreground_process(None, &snapshot), None);
    let found = platform_foreground_process(Some(1), &snapshot).unwrap();
    assert_eq!(found.name, "vim.exe");
    assert_eq!(found.argv0, Some("vim.exe".into()));
    assert_eq!(found.argv, vec!["vim.exe".to_string()]);
    assert_eq!(found.cmdline, None);
}

#[test]
fn wrappers_are_passed_through() {
    for name in ["conhost.exe", "OpenConsole.exe", "winpty", "winpty-agent.exe", "C:/x/env.exe"] {
        assert!(is_transparent_windows_process(name));
    }
    assert!(!is_transparent_windows_process("git.exe"));
}

#[test]
fn names_lose_one_suffix_and_their_path() {
    assert_eq!(normalized_windows_process_name("C:\\X\\Git.EXE"), "git");
    assert_eq!(normalized_windows_process_name("run.bat.cmd"), "run.bat");
    assert_eq!(normalized_windows_process_name("ÉDIT.exe"), "Édit");
}

#[test]
fn snapshot_reads_names_up_to_their_end() {
    let mut exe_file: Vec<u16> = "vïm😀.exe".encode_utf16().collect();
    exe_file.push(0);
    exe_file.push(65);
    let lone = vec![0xd800u16, 66, 0xdc00];
    let snapshot = platform_process_snapshot(&[
        ProcessRecord {
            pid: 7,
            parent_pid: 3,
            exe_file: exe_file.clone(),
        },
        ProcessRecord {
            pid: 8,
            parent_pid: 7,
            exe_file: lone.clone(),
        },
    ]);
    assert_eq!(snapshot.entries[0], windows_entry(7, 3, "vïm😀.exe"));
    assert_eq!(
        snapshot.entries[1],
        windows_entry(8, 7, &String::from_utf16_lossy(&lone))
    );
}

#[test]
fn task_list_names_running_processes() {
    let output = b"\"vim.exe\",\"123\",\"Console\"\r\n\"x\xff.exe\",\"45\",\"Console\"\r\n";
    assert!(tasklist_contains_pid(output, 123));
    assert!(tasklist_contains_pid(output, 45));
    assert!(!tasklist_contains_pid(output, 12));
    assert!(!tasklist_contains_pid(b"INFO: No tasks are running", 0));
    assert!(tasklist_text_contains_pid("a, \"7\" ,c", 7));
    assert!(!tasklist_text_contains_pid("7", 7));
}
