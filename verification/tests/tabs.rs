use herdr_tab_title::tab::{
    group_panes_by_tab, looks_like_default_numeric_label, needs_layout,
    save_label_state_if_changed, select_tab_source_pane, should_manage_tab, LabelState, Pane,
    Tab,
};
use herdr_tab_title::text::text_before;
use herdr_tab_title::text_map::TextMap;

fn pane(pane_id: &str, tab_id: &str, focused: bool) -> Pane {
    Pane {
        pane_id: pane_id.into(),
        tab_id: tab_id.into(),
        focused,
        cwd: None,
        foreground_cwd: None,
        agent: None,
        internal_title: None,
    }
}

fn tab(focused: bool) -> Tab {
    Tab {
        tab_id: "w1:t1".into(),
        workspace_id: "w1".into(),
        label: "1".into(),
        number: 1,
        display_number: 1,
        focused,
    }
}

#[test]
fn manual_name_policy_allows_default_or_last_managed_label() {
    let tab = Tab {
        tab_id: "w1:t1".into(),
        workspace_id: "w1".into(),
        label: "1".into(),
        number: 1,
        display_number: 1,
        focused: false,
    };
    let mut state = LabelState::default();
    assert!(should_manage_tab(&tab, &state, false));

    state.labels.insert("w1:t1".into(), "cargo".into());
    let managed = Tab {
        label: "cargo".into(),
        ..tab.clone()
    };
    assert!(should_manage_tab(&managed, &state, false));

    let manual = Tab {
        label: "logs".into(),
        ..tab
    };
    assert!(!should_manage_tab(&manual, &state, false));
    assert!(should_manage_tab(&manual, &state, true));
}

#[test]
fn manual_name_policy_allows_compact_default_numeric_labels() {
    let tab = Tab {
        tab_id: "w1:t17".into(),
        workspace_id: "w1".into(),
        label: "6".into(),
        number: 17,
        display_number: 6,
        focused: false,
    };
    assert!(should_manage_tab(&tab, &LabelState::default(), false));
}

#[test]
fn groups_panes_by_tab_and_sorts_by_pane_id() {
    let panes = vec![
        Pane {
            pane_id: "w1:p2".into(),
            tab_id: "w1:t1".into(),
            focused: false,
            cwd: None,
            foreground_cwd: None,
            agent: None,
            internal_title: None,
        },
        Pane {
            pane_id: "w1:p1".into(),
            tab_id: "w1:t1".into(),
            focused: true,
            cwd: None,
            foreground_cwd: None,
            agent: None,
            internal_title: None,
        },
    ];
    let grouped = group_panes_by_tab(panes);
    assert_eq!(grouped.get("w1:t1").unwrap()[0].pane_id, "w1:p1");
}

#[test]
fn groups_hold_the_panes_of_their_tabs() {
    let groups = group_panes_by_tab(vec![
        pane("c", "t1", false),
        pane("b", "t2", false),
        pane("a", "t1", false),
        pane("c", "t1", true),
    ]);
    let first: Vec<(&str, bool)> = groups
        .get("t1")
        .unwrap()
        .iter()
        .map(|p| (p.pane_id.as_str(), p.focused))
        .collect();
    assert_eq!(first, vec![("a", false), ("c", false), ("c", true)]);
    assert_eq!(groups.get("t2").unwrap().len(), 1);
    assert!(groups.get("t3").is_none());
}

#[test]
fn strings_are_ordered_like_those_of_the_standard_library() {
    let words = ["", "a", "ab", "b", "é", "ÿ", "\u{ffff}", "😀", "p10", "p2"];
    for a in words {
        for b in words {
            assert_eq!(text_before(a, b), a < b);
        }
    }
}

#[test]
fn default_labels_are_numbers() {
    assert!(looks_like_default_numeric_label("0123"));
    assert!(!looks_like_default_numeric_label(""));
    assert!(!looks_like_default_numeric_label("1a"));
    assert!(!looks_like_default_numeric_label("١"));
}

#[test]
fn focused_pane_names_the_focused_tab() {
    let panes = vec![pane("a", "t", false), pane("b", "t", true), pane("c", "t", true)];
    assert!(!needs_layout(&tab(true), &panes));
    assert_eq!(select_tab_source_pane(&tab(true), &panes, Some("c")).unwrap().pane_id, "b");
    assert!(needs_layout(&tab(false), &panes));
    assert_eq!(select_tab_source_pane(&tab(false), &panes, Some("c")).unwrap().pane_id, "c");
    assert_eq!(select_tab_source_pane(&tab(false), &panes, Some("x")).unwrap().pane_id, "a");
    assert_eq!(select_tab_source_pane(&tab(false), &panes, None).unwrap().pane_id, "a");
}

#[test]
fn single_pane_names_its_tab() {
    let panes = vec![pane("a", "t", false)];
    assert!(!needs_layout(&tab(true), &panes));
    assert_eq!(select_tab_source_pane(&tab(true), &panes, Some("x")).unwrap().pane_id, "a");
    assert!(select_tab_source_pane(&tab(true), &[], None).is_none());
}

#[test]
fn labels_are_saved_when_they_differ() {
    let mut a = LabelState::default();
    let b = LabelState::default();
    assert!(!save_label_state_if_changed(&a, &b));
    a.labels.insert("x".into(), "1".into());
    assert!(save_label_state_if_changed(&a, &b));
    let mut c = a.clone();
    assert!(!save_label_state_if_changed(&a, &c));
    c.labels.insert("x".into(), "2".into());
    assert!(save_label_state_if_changed(&a, &c));
    assert!(save_label_state_if_changed(&b, &a));
}

#[test]
fn maps_hold_the_last_value_of_a_key() {
    let mut map = TextMap::new();
    map.insert("a".into(), "1".into());
    map.insert("b".into(), "2".into());
    map.insert("a".into(), "3".into());
    assert_eq!(map.len(), 2);
    assert_eq!(map.get("a"), Some(&"3".to_string()));
    assert_eq!(map.get("c"), None);
    assert_eq!(map.entries().len(), 2);
    let mut other = TextMap::default();
    other.insert("b".into(), "2".into());
    other.insert("a".into(), "3".into());
    assert!(map.same(&other));
    map.remove("a");
    map.remove("zz");
    assert_eq!(map.get("a"), None);
    assert!(!map.same(&other));
    other.retain(&["b".to_string(), "q".to_string()]);
    assert!(map.same(&other));
}
