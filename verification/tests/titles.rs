use herdr_tab_title::config::PluginConfig;
use herdr_tab_title::naming::window_title;
use herdr_tab_title::tab::{Pane, Tab};
use herdr_tab_title::template::{
    append_window_title_value, render_window_title, validate_window_title_template, TemplateError,
    WindowTitleContext, DEFAULT_TERMINAL_TITLE_TEMPLATE,
};

fn full() -> WindowTitleContext<'static> {
    WindowTitleContext {
        hostname: Some("WorkStation"),
        hostname_lowercase: Some("workstation"),
        hostname_uppercase: Some("WORKSTATION"),
        tab_label: "3:herdr-tab-title",
        internal_title: Some("π - herdr-tab-title"),
        tab_number: 3,
        workspace: Some("work"),
        cwd: Some("/home/me/project"),
        directory: Some("~/project"),
        process: Some("pi"),
        agent: Some("pi"),
    }
}

#[test]
fn window_title_template_expands_supported_placeholders() {
    let context = full();
    assert_eq!(
        render_window_title(DEFAULT_TERMINAL_TITLE_TEMPLATE, &context).unwrap(),
        "[WORKSTATION herdr 3:herdr-tab-title] π - herdr-tab-title"
    );
    assert_eq!(
        render_window_title(
            "{hostname} {hostname_lowercase} {hostname_uppercase} {tab_number} {workspace} {cwd} {directory} {process} {agent}",
            &context,
        )
        .unwrap(),
        "WorkStation workstation WORKSTATION 3 work /home/me/project ~/project pi pi"
    );
    assert!(render_window_title("{{Herdr}} {missing}", &context).is_err());
    assert!(render_window_title("{tab_label", &context).is_err());
    assert_eq!(
        render_window_title(
            "{internal_title}",
            &WindowTitleContext {
                internal_title: None,
                ..context
            },
        )
        .unwrap(),
        ""
    );
}

#[test]
fn faults_of_templates_are_told_apart() {
    assert_eq!(
        validate_window_title_template("{"),
        Err(TemplateError::UnmatchedOpen)
    );
    assert_eq!(
        validate_window_title_template("a}b"),
        Err(TemplateError::UnmatchedClose)
    );
    assert_eq!(
        validate_window_title_template("{ agent}"),
        Err(TemplateError::UnknownPlaceholder(" agent".into()))
    );
    assert_eq!(
        validate_window_title_template("{}"),
        Err(TemplateError::UnknownPlaceholder("".into()))
    );
    assert_eq!(validate_window_title_template(DEFAULT_TERMINAL_TITLE_TEMPLATE), Ok(()));
}

#[test]
fn doubled_braces_are_braces() {
    assert_eq!(render_window_title("{{{agent}}}", &full()).unwrap(), "{pi}");
    assert_eq!(render_window_title(" {{}} ", &full()).unwrap(), "{}");
}

#[test]
fn values_are_appended() {
    let mut title = String::from("x");
    assert_eq!(append_window_title_value(&mut title, "tab_number", &full()), Ok(()));
    assert_eq!(title, "x3");
    assert_eq!(
        append_window_title_value(&mut title, "nothing", &full()),
        Err(TemplateError::UnknownPlaceholder("nothing".into()))
    );
    assert_eq!(title, "x3");
}

#[test]
fn accepted_templates_never_fail() {
    for template in ["{agent}{cwd}", "plain", "{{x}}", "{tab_label} · {process}"] {
        assert_eq!(validate_window_title_template(template), Ok(()));
        assert!(render_window_title(template, &full()).is_ok());
    }
}

#[test]
fn window_title_is_made_of_tab_pane_and_host() {
    let tab = Tab {
        tab_id: "t".into(),
        workspace_id: "w".into(),
        label: "old".into(),
        number: 9,
        display_number: 2,
        focused: true,
    };
    let pane = Pane {
        pane_id: "p".into(),
        tab_id: "t".into(),
        focused: true,
        cwd: Some("/home/me/a".into()),
        foreground_cwd: None,
        agent: Some("pi".into()),
        internal_title: Some("title".into()),
    };
    let mut config = PluginConfig::default();
    config.terminal_title_template =
        "{hostname}|{hostname_lowercase}|{hostname_uppercase}|{tab_label}|{internal_title}|{tab_number}|{workspace}|{cwd}|{directory}|{process}|{agent}".into();
    assert_eq!(
        window_title(
            &tab,
            "2:new",
            Some(&pane),
            Some("vim"),
            Some("work"),
            &config,
            Some("HöSt"),
            Some("/home/me"),
            false
        )
        .unwrap(),
        "HöSt|höst|HöST|2:new|title|2|work|/home/me/a|a|vim|pi"
    );
    config.shorten_home_directory = true;
    config.terminal_title_template = "{directory}".into();
    assert_eq!(
        window_title(&tab, "x", Some(&pane), None, None, &config, None, Some("/home/me"), false)
            .unwrap(),
        "~/a"
    );
    assert_eq!(
        window_title(&tab, "x", None, None, None, &config, None, None, false).unwrap(),
        ""
    );
    config.terminal_title_template = "{x}".into();
    assert!(window_title(&tab, "x", None, None, None, &config, None, None, false).is_err());
}
