use herdr_tab_title::herdr::{
    accept_reply, herdr_json, layout_focused_pane, list_panes, list_tabs, list_workspaces,
    optional_bool, optional_string, pane_process_info, rename_tab, required_string, required_u64,
    title_reached_a_client, CommandError, ReplyError, Request,
};
use herdr_tab_title::json::{parse_json, Json};
use herdr_tab_title::tab::{Pane, Tab};

fn reply(text: &str) -> Json {
    herdr_json(true, text.as_bytes()).unwrap()
}

#[test]
fn documents_are_read_to_their_depths() {
    let json = parse_json(
        r#"{"b": [null, true, -1, 1.5, 18446744073709551615, {"x": "é"}], "a": 7}"#.as_bytes(),
    )
    .unwrap();
    let expected = Json::Object(vec![
        ("a".into(), Json::Number(Some(7))),
        (
            "b".into(),
            Json::Array(vec![
                Json::Null,
                Json::Bool(true),
                Json::Number(None),
                Json::Number(None),
                Json::Number(Some(u64::MAX)),
                Json::Object(vec![("x".into(), Json::Text("é".into()))]),
            ]),
        ),
    ]);
    assert_eq!(json, expected);
    assert!(parse_json(b"{").is_err());
    assert!(parse_json(b"\"\xff\"").is_err());
}

#[test]
fn later_members_replace_earlier_ones() {
    let json = parse_json(br#"{"a": 1, "a": 2}"#).unwrap();
    assert_eq!(json.get_number("a"), Some(2));
}

#[test]
fn members_are_found_by_name_and_kind() {
    let json = reply(r#"{"s": "x", "n": 3, "t": true, "f": false, "r": [1]}"#);
    assert_eq!(required_string(&json, "s"), Ok("x".into()));
    assert_eq!(required_string(&json, "n"), Err(ReplyError::MissingString("n")));
    assert_eq!(optional_string(&json, "q"), None);
    assert_eq!(required_u64(&json, "n"), Ok(3));
    assert_eq!(required_u64(&json, "s"), Err(ReplyError::MissingInteger("s")));
    assert!(optional_bool(&json, "t"));
    assert!(!optional_bool(&json, "f"));
    assert!(!optional_bool(&json, "s"));
    assert_eq!(json.get_array("r").unwrap().len(), 1);
    assert!(json.get("r").unwrap().get("0").is_none());
}

#[test]
fn failures_of_commands_are_told_apart() {
    assert!(matches!(herdr_json(false, b"{}"), Err(CommandError::Failed)));
    assert!(matches!(herdr_json(true, b"no"), Err(CommandError::Json(_))));
    assert!(matches!(
        herdr_json(true, br#"{"error": null}"#),
        Err(CommandError::Reported)
    ));
    assert!(matches!(
        accept_reply(Json::Object(vec![("error".into(), Json::Bool(false))])),
        Err(CommandError::Reported)
    ));
    assert_eq!(herdr_json(true, b"[]").unwrap(), Json::Array(vec![]));
}

#[test]
fn commands_have_their_arguments() {
    assert_eq!(Request::ListTabs.arguments(), vec!["tab", "list"]);
    assert_eq!(Request::ListPanes.arguments(), vec!["pane", "list"]);
    assert_eq!(Request::ListWorkspaces.arguments(), vec!["workspace", "list"]);
    assert_eq!(
        Request::Layout { pane_id: "p".into() }.arguments(),
        vec!["pane", "layout", "--pane", "p"]
    );
    assert_eq!(
        Request::Processes { pane_id: "p".into() }.arguments(),
        vec!["pane", "process-info", "--pane", "p"]
    );
    assert_eq!(rename_tab("t", "l"), vec!["tab", "rename", "t", "l"]);
    assert_eq!(
        Request::Rename { tab_id: "t".into(), label: "l".into() }.arguments(),
        rename_tab("t", "l")
    );
    assert_eq!(
        Request::SetTitle { title: "x".into() }.arguments(),
        vec!["terminal", "title", "set", "x"]
    );
}

#[test]
fn tabs_are_counted_in_their_workspaces() {
    let json = reply(
        r#"{"result": {"tabs": [
            {"tab_id": "a", "workspace_id": "w1", "label": "1", "number": 4},
            {"tab_id": "b", "workspace_id": "w2", "label": "x", "number": 5, "focused": true},
            {"tab_id": "c", "workspace_id": "w1", "label": "", "number": 9, "focused": "yes"}
        ]}}"#,
    );
    let tab = |tab_id: &str, workspace_id: &str, label: &str, number, display_number, focused| Tab {
        tab_id: tab_id.into(),
        workspace_id: workspace_id.into(),
        label: label.into(),
        number,
        display_number,
        focused,
    };
    assert_eq!(
        list_tabs(&json).unwrap(),
        vec![
            tab("a", "w1", "1", 4, 1, false),
            tab("b", "w2", "x", 5, 1, true),
            tab("c", "w1", "", 9, 2, false),
        ]
    );
}

#[test]
fn faults_of_lists_are_told() {
    assert_eq!(list_tabs(&reply("{}")), Err(ReplyError::MissingTabs));
    assert_eq!(
        list_tabs(&reply(r#"{"result": {"tabs": {}}}"#)),
        Err(ReplyError::MissingTabs)
    );
    assert_eq!(
        list_tabs(&reply(r#"{"result": {"tabs": [{"tab_id": "a"}, {}]}}"#)),
        Err(ReplyError::MissingString("workspace_id"))
    );
    assert_eq!(
        list_tabs(&reply(
            r#"{"result": {"tabs": [{"tab_id": "a", "workspace_id": "w", "label": "l", "number": -1}]}}"#
        )),
        Err(ReplyError::MissingInteger("number"))
    );
    assert_eq!(list_panes(&reply("[]")), Err(ReplyError::MissingPanes));
    assert_eq!(
        list_panes(&reply(r#"{"result": {"panes": [{"pane_id": 1}]}}"#)),
        Err(ReplyError::MissingString("pane_id"))
    );
    assert!(matches!(
        list_workspaces(&reply("{}")),
        Err(ReplyError::MissingWorkspaces)
    ));
    assert!(matches!(
        list_workspaces(&reply(r#"{"result": {"workspaces": [{"workspace_id": "w"}]}}"#)),
        Err(ReplyError::MissingString("label"))
    ));
    assert_eq!(layout_focused_pane(&reply("{}")), Err(ReplyError::MissingFocusedPane));
    assert_eq!(pane_process_info(&reply("{}")), Err(ReplyError::MissingProcessInfo));
    assert_eq!(
        pane_process_info(&reply(r#"{"result": {"process_info": {}}}"#)),
        Err(ReplyError::MissingForegroundProcesses)
    );
    assert_eq!(
        pane_process_info(&reply(
            r#"{"result": {"process_info": {"foreground_processes": [{"argv0": "x"}]}}}"#
        )),
        Err(ReplyError::MissingString("name"))
    );
}

#[test]
fn panes_prefer_the_stripped_title() {
    let json = reply(
        r#"{"result": {"panes": [
            {"pane_id": "p", "tab_id": "t", "focused": true, "cwd": "/a", "foreground_cwd": "/b",
             "agent": "pi", "terminal_title": "long", "terminal_title_stripped": "short"},
            {"pane_id": "q", "tab_id": "t", "terminal_title": "long", "cwd": null}
        ]}}"#,
    );
    assert_eq!(
        list_panes(&json).unwrap(),
        vec![
            Pane {
                pane_id: "p".into(),
                tab_id: "t".into(),
                focused: true,
                cwd: Some("/a".into()),
                foreground_cwd: Some("/b".into()),
                agent: Some("pi".into()),
                internal_title: Some("short".into()),
            },
            Pane {
                pane_id: "q".into(),
                tab_id: "t".into(),
                focused: false,
                cwd: None,
                foreground_cwd: None,
                agent: None,
                internal_title: Some("long".into()),
            },
        ]
    );
}

#[test]
fn workspaces_are_found_by_their_ids() {
    let json = reply(
        r#"{"result": {"workspaces": [
            {"workspace_id": "w1", "label": "old"},
            {"workspace_id": "w2", "label": "play"},
            {"workspace_id": "w1", "label": "work"}
        ]}}"#,
    );
    let labels = list_workspaces(&json).unwrap();
    assert_eq!(labels.len(), 2);
    assert_eq!(labels.get("w1"), Some(&"work".to_string()));
}

#[test]
fn layouts_name_the_focused_pane() {
    let json = reply(r#"{"result": {"layout": {"focused_pane_id": "p9"}}}"#);
    assert_eq!(layout_focused_pane(&json), Ok("p9".into()));
}

#[test]
fn processes_keep_the_strings_among_their_arguments() {
    let json = reply(
        r#"{"result": {"process_info": {"shell_pid": 4294967295, "foreground_processes": [
            {"name": "vim", "argv0": "/bin/vim", "argv": ["vim", 1, "x", null], "cmdline": "vim x"},
            {"name": "sh", "argv": "sh"}
        ]}}}"#,
    );
    let info = pane_process_info(&json).unwrap();
    assert_eq!(info.shell_pid, Some(u32::MAX));
    assert_eq!(info.processes.len(), 2);
    assert_eq!(info.processes[0].name, "vim");
    assert_eq!(info.processes[0].argv0, Some("/bin/vim".into()));
    assert_eq!(info.processes[0].argv, vec!["vim", "x"]);
    assert_eq!(info.processes[0].cmdline, Some("vim x".into()));
    assert_eq!(info.processes[1].argv, Vec::<String>::new());
    let large = reply(
        r#"{"result": {"process_info": {"shell_pid": 4294967296, "foreground_processes": []}}}"#,
    );
    assert_eq!(pane_process_info(&large).unwrap().shell_pid, None);
}

#[test]
fn titles_need_a_terminal() {
    assert!(!title_reached_a_client(&reply(
        r#"{"result": {"reason": "no_foreground_client"}}"#
    )));
    assert!(title_reached_a_client(&reply(r#"{"result": {"reason": "other"}}"#)));
    assert!(title_reached_a_client(&reply("{}")));
}
