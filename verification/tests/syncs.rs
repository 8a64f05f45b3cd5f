use herdr_tab_title::config::{ConfigError, PluginConfig};
use herdr_tab_title::herdr::Request;
use herdr_tab_title::process::{ForegroundProcess, PaneProcessInfo};
use herdr_tab_title::sync::{
    advance, sync_now, sync_now_with_config, sync_once, Action, Environment, Event, StartError, SyncRun,
};
use herdr_tab_title::tab::{LabelState, Pane, Tab};
use herdr_tab_title::template::TemplateError;
use herdr_tab_title::text_map::TextMap;
use herdr_tab_title::windows::{PlatformProcessSnapshot, WindowsProcessEntry};

fn environment(is_windows: bool) -> Environment {
    Environment {
        home: Some("/home/me".into()),
        hostname: Some("box".into()),
        is_windows,
    }
}

fn tab(tab_id: &str, label: &str, display_number: usize, focused: bool) -> Tab {
    Tab {
        tab_id: tab_id.into(),
        workspace_id: "w1".into(),
        label: label.into(),
        number: 1,
        display_number,
        focused,
    }
}

fn pane(pane_id: &str, tab_id: &str, focused: bool) -> Pane {
    Pane {
        pane_id: pane_id.into(),
        tab_id: tab_id.into(),
        focused,
        cwd: Some("/home/me/api".into()),
        foreground_cwd: None,
        agent: None,
        internal_title: None,
    }
}

fn running(names: &[&str]) -> PaneProcessInfo {
    PaneProcessInfo {
        shell_pid: None,
        processes: names
            .iter()
            .map(|name| ForegroundProcess {
                name: name.to_string(),
                argv0: None,
                argv: vec![name.to_string()],
                cmdline: None,
            })
            .collect(),
    }
}

fn plain_config() -> PluginConfig {
    let mut config = PluginConfig::default();
    config.set_window_title = false;
    config.windows_process_detection = false;
    config
}

fn begin(config: PluginConfig, labels: LabelState, force: bool) -> SyncRun {
    let mut run = sync_now_with_config(config, Some(labels), force, environment(false)).unwrap();
    assert_eq!(go(&mut run, Event::Begin), Action::Ask(Request::ListTabs));
    run
}

fn go(run: &mut SyncRun, event: Event) -> Action {
    advance(run, event).unwrap()
}

fn ask_processes(pane_id: &str) -> Action {
    Action::Ask(Request::Processes {
        pane_id: pane_id.into(),
    })
}

fn rename(tab_id: &str, label: &str, manual: bool) -> Action {
    Action::Rename {
        tab_id: tab_id.into(),
        label: label.into(),
        manual,
    }
}

#[test]
fn new_tab_gets_its_label() {
    let mut run = begin(plain_config(), LabelState::default(), false);
    assert_eq!(
        go(&mut run, Event::Tabs(vec![tab("t1", "1", 1, false)])),
        Action::Ask(Request::ListPanes)
    );
    assert_eq!(
        go(&mut run, Event::Panes(vec![pane("p1", "t1", false)])),
        ask_processes("p1")
    );
    assert_eq!(
        go(&mut run, Event::Processes(running(&["bash", "vim"]))),
        rename("t1", "1:vim", false)
    );
    assert_eq!(
        go(&mut run, Event::Renamed),
        Action::Done {
            changed: 1,
            save: true
        }
    );
    assert_eq!(run.labels().labels.get("t1"), Some(&"1:vim".to_string()));
    assert_eq!(go(&mut run, Event::Renamed), Action::Stop);
}

#[test]
fn second_sync_changes_nothing() {
    let mut labels = LabelState::default();
    labels.labels.insert("t1".into(), "1:vim".into());
    let mut run = begin(plain_config(), labels, false);
    go(&mut run, Event::Tabs(vec![tab("t1", "1:vim", 1, false)]));
    go(&mut run, Event::Panes(vec![pane("p1", "t1", false)]));
    assert_eq!(
        go(&mut run, Event::Processes(running(&["vim"]))),
        Action::Done {
            changed: 0,
            save: false
        }
    );
}

#[test]
fn tab_named_by_hand_is_only_numbered() {
    let mut labels = LabelState::default();
    labels.labels.insert("t1".into(), "1:vim".into());
    labels.labels.insert("gone".into(), "x".into());
    let mut run = begin(plain_config(), labels, false);
    go(&mut run, Event::Tabs(vec![tab("t1", "logs", 2, false)]));
    assert_eq!(
        go(&mut run, Event::Panes(vec![pane("p1", "t1", false)])),
        rename("t1", "2:logs", true)
    );
    assert_eq!(
        go(&mut run, Event::Renamed),
        Action::Done {
            changed: 1,
            save: true
        }
    );
    assert_eq!(run.labels().labels.len(), 0);
}

#[test]
fn forced_sync_manages_every_tab() {
    let mut run = begin(plain_config(), LabelState::default(), true);
    go(&mut run, Event::Tabs(vec![tab("t1", "logs", 1, false)]));
    assert_eq!(
        go(&mut run, Event::Panes(vec![pane("p1", "t1", false)])),
        ask_processes("p1")
    );
    assert_eq!(
        go(&mut run, Event::Processes(running(&["bash"]))),
        rename("t1", "1:bash", false)
    );
}

#[test]
fn tabs_without_panes_are_passed_over() {
    let mut run = begin(plain_config(), LabelState::default(), false);
    go(&mut run, Event::Tabs(vec![tab("t1", "1", 1, false), tab("t2", "2", 2, false)]));
    assert_eq!(
        go(&mut run, Event::Panes(vec![])),
        Action::Done {
            changed: 0,
            save: false
        }
    );
}

#[test]
fn layout_decides_between_panes() {
    let panes = vec![pane("p2", "t1", false), pane("p1", "t1", false)];
    for (event, asked) in [
        (Event::Layout("p2".into()), "p2"),
        (Event::Layout("p9".into()), "p1"),
        (Event::Failed, "p1"),
    ] {
        let mut run = begin(plain_config(), LabelState::default(), false);
        go(&mut run, Event::Tabs(vec![tab("t1", "1", 1, false)]));
        assert_eq!(
            go(&mut run, Event::Panes(panes.clone())),
            Action::Ask(Request::Layout {
                pane_id: "p1".into()
            })
        );
        assert_eq!(go(&mut run, event), ask_processes(asked));
    }
}

#[test]
fn failure_ends_the_sync() {
    let mut run = begin(plain_config(), LabelState::default(), false);
    assert_eq!(go(&mut run, Event::Failed), Action::Stop);

    let mut run = begin(plain_config(), LabelState::default(), false);
    go(&mut run, Event::Tabs(vec![tab("t1", "1", 1, false)]));
    go(&mut run, Event::Panes(vec![pane("p1", "t1", false)]));
    assert_eq!(go(&mut run, Event::Failed), Action::Stop);
    assert_eq!(go(&mut run, Event::Begin), Action::Stop);
}

#[test]
fn window_title_follows_the_focused_tab() {
    let mut config = PluginConfig::default();
    config.terminal_title_template = "{tab_label}|{workspace}|{process}|{hostname_uppercase}".into();
    let mut run = begin(config, LabelState::default(), false);
    go(
        &mut run,
        Event::Tabs(vec![tab("t1", "1", 1, true), tab("t2", "named", 2, false)]),
    );
    assert_eq!(
        go(
            &mut run,
            Event::Panes(vec![pane("p1", "t1", true), pane("p2", "t2", false)])
        ),
        Action::TakeSnapshot
    );
    assert_eq!(
        go(&mut run, Event::Snapshot(None)),
        Action::Ask(Request::ListWorkspaces)
    );
    let mut workspaces = TextMap::new();
    workspaces.insert("w1".into(), "work".into());
    assert_eq!(
        go(&mut run, Event::Workspaces(workspaces)),
        ask_processes("p1")
    );
    assert_eq!(
        go(&mut run, Event::Processes(running(&["vim"]))),
        rename("t1", "1:vim", false)
    );
    assert_eq!(go(&mut run, Event::Renamed), rename("t2", "2:named", true));
    assert_eq!(go(&mut run, Event::Renamed), ask_processes("p1"));
    assert_eq!(
        go(&mut run, Event::Processes(running(&["vim"]))),
        Action::SetTitle {
            tab_label: "1:vim".into(),
            title: "1:vim|work|vim|BOX".into()
        }
    );
    assert_eq!(
        go(&mut run, Event::TitleSet(true)),
        Action::Done {
            changed: 2,
            save: true
        }
    );
}

#[test]
fn window_title_does_without_processes_or_pane() {
    let mut config = PluginConfig::default();
    config.windows_process_detection = false;
    config.terminal_title_template = "{tab_label}{process}".into();
    let mut run = begin(config.clone(), LabelState::default(), false);
    go(&mut run, Event::Tabs(vec![tab("t1", "named", 1, true)]));
    go(&mut run, Event::Panes(vec![pane("p1", "t1", false)]));
    assert_eq!(
        go(&mut run, Event::Workspaces(TextMap::new())),
        rename("t1", "1:named", true)
    );
    assert_eq!(go(&mut run, Event::Renamed), ask_processes("p1"));
    assert_eq!(
        go(&mut run, Event::Failed),
        Action::SetTitle {
            tab_label: "1:named".into(),
            title: "1:named".into()
        }
    );
    assert_eq!(
        go(&mut run, Event::TitleSet(false)),
        Action::Undelivered {
            tab_label: "1:named".into()
        }
    );

    let mut run = begin(config, LabelState::default(), false);
    go(&mut run, Event::Tabs(vec![tab("t1", "named", 1, true)]));
    go(&mut run, Event::Panes(vec![]));
    assert_eq!(
        go(&mut run, Event::Workspaces(TextMap::new())),
        Action::SetTitle {
            tab_label: "named".into(),
            title: "named".into()
        }
    );
}

#[test]
fn faulty_template_is_refused() {
    let mut config = PluginConfig::default();
    config.windows_process_detection = false;
    config.terminal_title_template = "{x}".into();
    let mut run = begin(config, LabelState::default(), false);
    go(&mut run, Event::Tabs(vec![tab("t1", "named", 1, true)]));
    go(&mut run, Event::Panes(vec![]));
    assert_eq!(
        go(&mut run, Event::Workspaces(TextMap::new())),
        Action::Refuse {
            tab_label: "named".into(),
            error: TemplateError::UnknownPlaceholder("x".into())
        }
    );
}

#[test]
fn process_tree_helps_on_windows() {
    let mut config = PluginConfig::default();
    config.set_window_title = false;
    let mut run =
        sync_now_with_config(config, Some(LabelState::default()), false, environment(true)).unwrap();
    go(&mut run, Event::Begin);
    go(&mut run, Event::Tabs(vec![tab("t1", "1", 1, false)]));
    go(&mut run, Event::Panes(vec![pane("p1", "t1", false)]));
    let entry = |pid, parent_pid, name: &str| WindowsProcessEntry {
        pid,
        parent_pid,
        name: name.into(),
    };
    let snapshot = PlatformProcessSnapshot {
        entries: vec![entry(10, 1, "cmd.exe"), entry(20, 10, "lazygit.exe")],
    };
    go(&mut run, Event::Snapshot(Some(snapshot)));
    let mut info = running(&["cmd.exe"]);
    info.shell_pid = Some(10);
    let unreadable = Event::Processes(running(&["ééx"]));
    assert!(!run.is_acceptable(&unreadable));
    assert_eq!(advance(&mut run, unreadable), None);
    assert_eq!(
        sync_once(&mut run, Event::Processes(info)),
        rename("t1", "1:lazygit", false)
    );
}

#[test]
fn empty_labels_are_not_given() {
    let mut config = plain_config();
    config.show_tab_number = false;
    let mut run = begin(config, LabelState::default(), false);
    go(&mut run, Event::Tabs(vec![tab("t1", "1", 1, false)]));
    go(&mut run, Event::Panes(vec![pane("p1", "t1", false)]));
    assert_eq!(
        go(&mut run, Event::Processes(running(&["\u{1}"]))),
        Action::Done {
            changed: 0,
            save: false
        }
    );
}

#[test]
fn sync_starts_with_its_settings() {
    assert!(sync_now(None, Some(LabelState::default()), false, environment(false)).is_ok());
    assert!(matches!(
        sync_now(Some("x"), None, false, environment(false)),
        Err(StartError::Config(ConfigError::Toml(_)))
    ));
    assert!(matches!(
        sync_now(Some(""), None, false, environment(false)),
        Err(StartError::Labels)
    ));
}

/// Herdr as far as a sync asks it.
struct Herd {
    tabs: Vec<Tab>,
    panes: Vec<Pane>,
    programs: Vec<(&'static str, &'static str)>,
}

fn whole_sync(herd: &mut Herd, config: &PluginConfig, labels: &LabelState) -> (usize, bool, LabelState) {
    let mut run =
        sync_now_with_config(config.clone(), Some(labels.clone()), false, environment(false)).unwrap();
    let mut event = Event::Begin;
    loop {
        event = match go(&mut run, event) {
            Action::Ask(Request::ListTabs) => Event::Tabs(herd.tabs.clone()),
            Action::Ask(Request::ListPanes) => Event::Panes(herd.panes.clone()),
            Action::Ask(Request::ListWorkspaces) => Event::Workspaces(TextMap::new()),
            Action::Ask(Request::Processes { pane_id }) => {
                match herd.programs.iter().find(|(id, _)| *id == pane_id) {
                    Some((_, name)) => Event::Processes(running(&[*name])),
                    None => Event::Failed,
                }
            }
            Action::Ask(_) => Event::Failed,
            Action::TakeSnapshot => Event::Snapshot(None),
            Action::Rename { tab_id, label, .. } => {
                for tab in herd.tabs.iter_mut().filter(|tab| tab.tab_id == tab_id) {
                    tab.label = label.clone();
                }
                Event::Renamed
            }
            Action::SetTitle { .. } => Event::TitleSet(true),
            Action::Done { changed, save } => return (changed, save, run.labels().clone()),
            other => panic!("{other:?}"),
        }
    }
}

#[test]
fn whole_sync_settles_every_tab() {
    let mut herd = Herd {
        tabs: vec![
            tab("t1", "1", 1, true),
            tab("t2", "logs", 2, false),
            tab("t3", "3", 3, false),
            tab("t4", "old", 4, false),
        ],
        panes: vec![
            pane("p1", "t1", true),
            pane("p2", "t2", false),
            pane("p3", "t4", false),
            pane("p4", "t4", false),
        ],
        programs: vec![("p1", "vim"), ("p2", "less"), ("p3", "cargo"), ("p4", "top")],
    };
    let config = PluginConfig::default();
    let mut labels = LabelState::default();
    labels.labels.insert("t4".into(), "old".into());
    labels.labels.insert("gone".into(), "x".into());

    let (changed, save, labels) = whole_sync(&mut herd, &config, &labels);
    assert_eq!((changed, save), (3, true));
    let shown: Vec<&str> = herd.tabs.iter().map(|tab| tab.label.as_str()).collect();
    assert_eq!(shown, vec!["1:vim", "2:logs", "3", "4:cargo"]);
    assert_eq!(labels.labels.len(), 2);
    assert_eq!(labels.labels.get("t1"), Some(&"1:vim".to_string()));
    assert_eq!(labels.labels.get("t4"), Some(&"4:cargo".to_string()));

    let (changed, save, labels) = whole_sync(&mut herd, &config, &labels);
    assert_eq!((changed, save), (0, false));
    assert_eq!(labels.labels.len(), 2);
}

#[test]
fn number_given_by_hand_is_taken_for_a_default_later() {
    let mut herd = Herd {
        tabs: vec![tab("t1", "7", 1, false)],
        panes: vec![pane("p1", "t1", false)],
        programs: vec![("p1", "vim")],
    };
    let mut config = plain_config();
    config.show_tab_number = false;
    let mut labels = LabelState::default();
    labels.labels.insert("t1".into(), "cargo".into());
    let (changed, save, labels) = whole_sync(&mut herd, &config, &labels);
    assert_eq!((changed, save), (0, true));
    let (changed, save, _) = whole_sync(&mut herd, &config, &labels);
    assert_eq!((changed, save), (1, true));
    assert_eq!(herd.tabs[0].label, "vim");
}

#[test]
fn only_managed_tabs_need_their_processes() {
    let mut herd = Herd {
        tabs: vec![tab("t1", "logs", 1, true), tab("t2", "2", 2, false)],
        panes: vec![pane("p1", "t1", true), pane("p2", "t2", false)],
        programs: vec![("p2", "top")],
    };
    let config = PluginConfig::default();
    let (changed, save, labels) = whole_sync(&mut herd, &config, &LabelState::default());
    assert_eq!((changed, save), (2, true));
    assert_eq!(herd.tabs[0].label, "1:logs");
    assert_eq!(herd.tabs[1].label, "2:top");
    let (changed, save, labels) = whole_sync(&mut herd, &config, &labels);
    assert_eq!((changed, save), (0, false));
    assert_eq!(labels.labels.len(), 1);
}

#[test]
fn template_matters_only_where_there_is_a_title_to_set() {
    let mut herd = Herd {
        tabs: vec![tab("t1", "1", 1, true)],
        panes: vec![pane("p1", "t1", true)],
        programs: vec![("p1", "vim")],
    };
    let mut config = plain_config();
    config.terminal_title_template = "{x}".into();
    let (changed, save, labels) = whole_sync(&mut herd, &config, &LabelState::default());
    assert_eq!((changed, save), (1, true));
    config.set_window_title = true;
    herd.tabs[0].focused = false;
    let (changed, save, _) = whole_sync(&mut herd, &config, &labels);
    assert_eq!((changed, save), (0, false));
}

#[test]
fn ended_sync_asks_for_nothing_more() {
    let mut run = begin(plain_config(), LabelState::default(), false);
    go(&mut run, Event::Tabs(vec![tab("t1", "1", 1, false)]));
    go(&mut run, Event::Panes(vec![pane("p1", "t1", false)]));
    assert_eq!(
        go(&mut run, Event::Processes(running(&["vim"]))),
        rename("t1", "1:vim", false)
    );
    assert_eq!(go(&mut run, Event::Failed), Action::Stop);
    for event in [Event::Begin, Event::Renamed, Event::TitleSet(true)] {
        assert_eq!(go(&mut run, event), Action::Stop);
    }
}

#[test]
fn count_is_that_of_the_renames() {
    let mut run = begin(plain_config(), LabelState::default(), false);
    go(
        &mut run,
        Event::Tabs(vec![
            tab("t1", "1", 1, false),
            tab("t2", "2:logs", 2, false),
            tab("t3", "notes", 3, false),
        ]),
    );
    let mut action = go(
        &mut run,
        Event::Panes(vec![pane("p1", "t1", false), pane("p2", "t2", false), pane("p3", "t3", false)]),
    );
    let mut asked = Vec::new();
    loop {
        action = match action {
            Action::Ask(_) => go(&mut run, Event::Processes(running(&["vim"]))),
            Action::Rename { tab_id, label, .. } => {
                asked.push((tab_id, label));
                go(&mut run, Event::Renamed)
            }
            Action::Done { changed, save } => {
                assert_eq!((changed, save), (asked.len(), true));
                break;
            }
            other => panic!("{other:?}"),
        };
    }
    assert_eq!(
        asked,
        vec![
            ("t1".to_string(), "1:vim".to_string()),
            ("t3".to_string(), "3:notes".to_string()),
        ]
    );
}
