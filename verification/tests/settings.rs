use herdr_tab_title::config::{
    load_plugin_config, parse_plugin_config, plugin_config_of_entries, raw_plugin_config,
    resolve_plugin_config, ConfigCache, ConfigError, PluginConfig, TomlValue,
};
use herdr_tab_title::label::IdleLabelMode;
use herdr_tab_title::template::{TemplateError, DEFAULT_TERMINAL_TITLE_TEMPLATE};

#[test]
fn plugin_config_controls_directory_depth() {
    assert_eq!(PluginConfig::default().interval_seconds, 10);
    assert_eq!(PluginConfig::default().directory_depth, 1);
    assert!(PluginConfig::default().show_tab_number);
    assert_eq!(
        PluginConfig::default().idle_label_mode,
        IdleLabelMode::Shell
    );
    assert_eq!(PluginConfig::default().idle_shell_separator, " ❯ ");
    assert!(!PluginConfig::default().shorten_home_directory);
    assert!(PluginConfig::default().set_window_title);
    assert_eq!(
        PluginConfig::default().terminal_title_template,
        DEFAULT_TERMINAL_TITLE_TEMPLATE
    );
    assert!(PluginConfig::default().windows_process_detection);
    assert!(PluginConfig::default().agent_detection);
    assert_eq!(parse_plugin_config("").unwrap().directory_depth, 1);
    assert_eq!(
        parse_plugin_config("directory_depth = 2")
            .unwrap()
            .directory_depth,
        2
    );
    assert!(parse_plugin_config("directory_depth = 0").is_err());
    assert!(parse_plugin_config("directory_depth = 99").is_err());
}

#[test]
fn plugin_config_controls_poll_interval() {
    assert_eq!(parse_plugin_config("").unwrap().interval_seconds, 10);
    assert_eq!(
        parse_plugin_config("interval_seconds = 30")
            .unwrap()
            .interval_seconds,
        30
    );
    assert!(parse_plugin_config("interval_seconds = 0").is_err());
    assert!(parse_plugin_config("interval_seconds = 3601").is_err());
}

#[test]
fn plugin_config_controls_window_title() {
    assert!(
        parse_plugin_config("set_window_title = true")
            .unwrap()
            .set_window_title
    );
    assert_eq!(
        parse_plugin_config("terminal_title_template = \"[{tab_label}] {internal_title}\"")
            .unwrap()
            .terminal_title_template,
        "[{tab_label}] {internal_title}"
    );
    assert!(parse_plugin_config("append_internal_tab_title = false").is_err());
    assert!(
        !parse_plugin_config("windows_process_detection = false")
            .unwrap()
            .windows_process_detection
    );
    assert!(
        !parse_plugin_config("agent_detection = false")
            .unwrap()
            .agent_detection
    );
}

#[test]
fn plugin_config_controls_idle_shell_labels() {
    let config =
        parse_plugin_config("idle_label_mode = \"shell\"\nidle_shell_separator = \" › \"").unwrap();
    assert_eq!(config.idle_label_mode, IdleLabelMode::Shell);
    assert_eq!(config.idle_shell_separator, " › ");
    assert!(
        parse_plugin_config("shorten_home_directory = true")
            .unwrap()
            .shorten_home_directory
    );
    assert_eq!(
        parse_plugin_config("show_idle_shell = false")
            .unwrap()
            .idle_label_mode,
        IdleLabelMode::Directory
    );
    assert!(parse_plugin_config("idle_label_mode = \"unknown\"").is_err());
}

#[test]
fn limits_are_inside_the_range() {
    assert_eq!(parse_plugin_config("interval_seconds = 1").unwrap().interval_seconds, 1);
    assert_eq!(parse_plugin_config("interval_seconds = 3600").unwrap().interval_seconds, 3600);
    assert_eq!(parse_plugin_config("directory_depth = 8").unwrap().directory_depth, 8);
    assert!(matches!(
        parse_plugin_config("interval_seconds = 3601"),
        Err(ConfigError::IntervalOutOfRange)
    ));
    assert!(matches!(
        parse_plugin_config("directory_depth = 9"),
        Err(ConfigError::DepthOutOfRange)
    ));
}

#[test]
fn refusals_say_why() {
    assert!(matches!(parse_plugin_config("x ="), Err(ConfigError::Toml(_))));
    assert!(matches!(
        parse_plugin_config("colour = 1"),
        Err(ConfigError::UnknownSetting(name)) if name == "colour"
    ));
    assert!(matches!(
        parse_plugin_config("interval_seconds = -1"),
        Err(ConfigError::InvalidValue(name)) if name == "interval_seconds"
    ));
    assert!(matches!(
        parse_plugin_config("show_tab_number = 1"),
        Err(ConfigError::InvalidValue(_))
    ));
    assert!(matches!(
        parse_plugin_config("idle_shell_separator = [1]"),
        Err(ConfigError::InvalidValue(_))
    ));
    assert!(matches!(
        parse_plugin_config("idle_label_mode = \"both\""),
        Err(ConfigError::UnknownIdleLabelMode)
    ));
    assert!(matches!(
        parse_plugin_config("terminal_title_template = \"{\""),
        Err(ConfigError::Template(TemplateError::UnmatchedOpen))
    ));
}

#[test]
fn mode_precedes_the_older_setting() {
    let config = parse_plugin_config("show_idle_shell = true").unwrap();
    assert_eq!(config.idle_label_mode, IdleLabelMode::DirectoryShell);
    let config =
        parse_plugin_config("show_idle_shell = true\nidle_label_mode = \"directory\"").unwrap();
    assert_eq!(config.idle_label_mode, IdleLabelMode::Directory);
}

#[test]
fn modes_are_read_back_by_their_names() {
    for mode in [
        IdleLabelMode::Directory,
        IdleLabelMode::Shell,
        IdleLabelMode::DirectoryShell,
    ] {
        assert_eq!(IdleLabelMode::parse(mode.as_str()).unwrap(), mode);
    }
    assert_eq!(IdleLabelMode::DirectoryShell.as_str(), "directory_shell");
    assert!(IdleLabelMode::parse("Shell").is_err());
}

#[test]
fn missing_file_means_defaults() {
    assert_eq!(load_plugin_config(None).unwrap(), PluginConfig::default());
    assert_eq!(load_plugin_config(Some("")).unwrap(), PluginConfig::default());
}

#[test]
fn entries_are_read_without_a_document() {
    let entries = vec![
        ("directory_depth".to_string(), TomlValue::Integer(3)),
        ("show_tab_number".to_string(), TomlValue::Boolean(false)),
        ("idle_shell_separator".to_string(), TomlValue::Text("|".into())),
    ];
    let config = plugin_config_of_entries(&entries).unwrap();
    assert_eq!(config.directory_depth, 3);
    assert!(!config.show_tab_number);
    assert_eq!(config.idle_shell_separator, "|");
    let raw = raw_plugin_config(&entries).unwrap();
    assert_eq!(resolve_plugin_config(raw).unwrap(), config);
}

#[test]
fn cache_reads_again_only_after_a_change() {
    let mut cache = ConfigCache::new(Some("directory_depth = 2"), Some(5)).unwrap();
    assert!(!cache.is_stale(Some(5)));
    assert_eq!(cache.load(Some(5), Some("directory_depth = 3")).unwrap().directory_depth, 2);
    assert!(cache.is_stale(Some(6)));
    assert_eq!(cache.load(Some(6), Some("directory_depth = 3")).unwrap().directory_depth, 3);
    assert!(cache.load(Some(7), Some("directory_depth = 0")).is_err());
    assert!(cache.is_stale(Some(7)));
    assert_eq!(cache.load(None, None).unwrap().directory_depth, 1);
    assert!(ConfigCache::new(Some("x"), None).is_err());
}

#[test]
fn agent_detection_on_windows_is_a_setting_of_its_own() {
    assert!(PluginConfig::default().windows_agent_detection);
    assert_eq!(
        parse_plugin_config("windows_agent_detection = true").unwrap(),
        PluginConfig::default()
    );
    let config = parse_plugin_config("windows_agent_detection = false").unwrap();
    assert!(config.agent_detection);
    assert!(!config.windows_agent_detection);
    let config = parse_plugin_config("agent_detection = false").unwrap();
    assert!(!config.agent_detection);
    assert!(config.windows_agent_detection);
    assert!(matches!(
        parse_plugin_config("windows_agent_detection = 1"),
        Err(ConfigError::InvalidValue(name)) if name == "windows_agent_detection"
    ));
    let both = parse_plugin_config("windows_agent_detection = true\nagent_detection = false").unwrap();
    assert!(!both.agent_detection);
    assert!(both.windows_agent_detection);
}
