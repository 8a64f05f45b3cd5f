use herdr_tab_title::config::{parse_plugin_config, PluginConfig};
use herdr_tab_title::label::{
    format_idle_shell_label, format_tab_label, sanitize_label, strip_tab_number_prefix,
    IdleLabelMode, LABEL_LIMIT,
};
use herdr_tab_title::tab::{desired_label_for_manual_tab, Tab};
use herdr_tab_title::template::DEFAULT_TERMINAL_TITLE_TEMPLATE;

fn config(show_tab_number: bool) -> PluginConfig {
    PluginConfig {
        interval_seconds: 10,
        directory_depth: 2,
        show_tab_number,
        idle_label_mode: IdleLabelMode::Directory,
        idle_shell_separator: " ❯ ".into(),
        shorten_home_directory: false,
        set_window_title: false,
        terminal_title_template: DEFAULT_TERMINAL_TITLE_TEMPLATE.into(),
        windows_process_detection: true,
        agent_detection: true,
        windows_agent_detection: true,
    }
}

fn tab(label: &str, display_number: usize) -> Tab {
    Tab {
        tab_id: "w1:t2".into(),
        workspace_id: "w1".into(),
        label: label.into(),
        number: 2,
        display_number,
        focused: false,
    }
}

#[test]
fn plugin_config_controls_tab_number_prefix() {
    assert!(
        parse_plugin_config("show_tab_number = true")
            .unwrap()
            .show_tab_number
    );
    assert_eq!(format_tab_label(3, "me/project", &config(true)), "3:me/project");
    assert_eq!(format_tab_label(3, "me/project", &config(false)), "me/project");
    assert_eq!(strip_tab_number_prefix("3:me/project"), "me/project");
    assert_eq!(strip_tab_number_prefix("3: me/project"), "me/project");
    assert_eq!(strip_tab_number_prefix("work:api"), "work:api");
}

#[test]
fn manual_titles_keep_text_but_get_visual_tab_number() {
    let manual = tab("herdr sauce", 2);
    assert_eq!(
        desired_label_for_manual_tab(&manual, &config(true)),
        Some("2:herdr sauce".into())
    );

    let already_numbered = Tab {
        label: "9:herdr sauce".into(),
        ..manual
    };
    assert_eq!(
        desired_label_for_manual_tab(&already_numbered, &config(true)),
        Some("2:herdr sauce".into())
    );
}

#[test]
fn idle_shell_label_combines_directory_and_shell() {
    assert_eq!(
        format_idle_shell_label(
            "me/project",
            Some("bash"),
            IdleLabelMode::DirectoryShell,
            " ❯ ",
        ),
        "me/project ❯ bash"
    );
    assert_eq!(
        format_idle_shell_label("project", Some("bash"), IdleLabelMode::Directory, " ❯ "),
        "project"
    );
    assert_eq!(
        format_idle_shell_label("project", Some("bash"), IdleLabelMode::Shell, " ❯ "),
        "bash"
    );
    assert_eq!(
        format_idle_shell_label("project", None, IdleLabelMode::DirectoryShell, " ❯ "),
        "project"
    );
}

#[test]
fn sanitize_label_collapses_whitespace_controls_and_caps() {
    assert_eq!(sanitize_label("  cargo\n test\t"), "cargo test");
    let long = "a".repeat(80);
    assert_eq!(sanitize_label(&long).chars().count(), LABEL_LIMIT);
    assert!(sanitize_label(&long).ends_with("..."));
}

#[test]
fn sanitized_labels_are_counted_in_characters() {
    let long = "é".repeat(41);
    let expected = format!("{}...", "é".repeat(37));
    assert_eq!(sanitize_label(&long), expected);
    assert_eq!(sanitize_label(&"é".repeat(40)), "é".repeat(40));
    assert_eq!(sanitize_label("\u{1}\u{2}a\u{a0}\u{3000}b\u{7f}"), "a b");
    assert_eq!(sanitize_label(" \n "), "");
}

#[test]
fn sanitizing_twice_is_sanitizing_once() {
    for label in ["  x  y ", "\u{1}x", "a\tb", "", "1: x"] {
        let once = sanitize_label(label);
        assert_eq!(sanitize_label(&once), once);
    }
}

#[test]
fn prefix_is_stripped_only_where_it_is_a_number() {
    assert_eq!(strip_tab_number_prefix(":x"), ":x");
    assert_eq!(strip_tab_number_prefix("12:"), "");
    assert_eq!(strip_tab_number_prefix("1a:x"), "1a:x");
    assert_eq!(strip_tab_number_prefix("1:2:x"), "2:x");
    assert_eq!(strip_tab_number_prefix("plain"), "plain");
}

#[test]
fn numbering_settles() {
    let first = desired_label_for_manual_tab(&tab("logs", 3), &config(true)).unwrap();
    assert_eq!(first, "3:logs");
    assert_eq!(desired_label_for_manual_tab(&tab(&first, 3), &config(true)), None);
    assert_eq!(desired_label_for_manual_tab(&tab("logs", 3), &config(false)), None);
}

#[test]
fn text_that_starts_with_a_control_character_settles_later() {
    let first = desired_label_for_manual_tab(&tab("\u{1}x", 2), &config(true)).unwrap();
    assert_eq!(first, "2: x");
    let second = desired_label_for_manual_tab(&tab(&first, 2), &config(true)).unwrap();
    assert_eq!(second, "2:x");
    assert_eq!(desired_label_for_manual_tab(&tab(&second, 2), &config(true)), None);
}

#[test]
fn largest_tab_number_is_written_out() {
    assert_eq!(
        format_tab_label(usize::MAX, "x", &config(true)),
        format!("{}:x", usize::MAX)
    );
}
