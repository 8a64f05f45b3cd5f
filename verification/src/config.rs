//! The settings of the plugin: their defaults, how they are read from TOML, and
//! when they are read again.
use crate::label::IdleLabelMode;
use crate::template::{
    blank_context, expanded, is_template, law_default_template_is_accepted,
    validate_window_title_template, TemplateError, TemplateFault, DEFAULT_TERMINAL_TITLE_TEMPLATE,
};
use crate::text::{same_text, str_of, text_of};
use vstd::prelude::*;

verus! {

/// How often tabs are synced where the settings do not say, in seconds.
pub const DEFAULT_INTERVAL_SECS: u64 = 10;

/// The longest time between two syncs, in seconds.
pub const MAX_INTERVAL_SECS: u64 = 3600;

/// How many components of a directory are shown where the settings do not say.
pub const DEFAULT_DIRECTORY_DEPTH: usize = 1;

/// The most components of a directory that are shown.
pub const MAX_DIRECTORY_DEPTH: usize = 8;

/// What stands between a directory and a shell where the settings do not say.
pub const IDLE_SHELL_SEPARATOR: &'static str = " ❯ ";

/// The settings.
#[derive(Debug, PartialEq, Eq)]
pub struct PluginConfig {
    pub interval_seconds: u64,
    pub directory_depth: usize,
    pub show_tab_number: bool,
    pub idle_label_mode: IdleLabelMode,
    pub idle_shell_separator: String,
    pub shorten_home_directory: bool,
    pub set_window_title: bool,
    pub terminal_title_template: String,
    pub windows_process_detection: bool,
    /// Panes are named after their agents.
    pub agent_detection: bool,
    /// Panes are named after their agents on Windows; elsewhere this counts for
    /// nothing.
    pub windows_agent_detection: bool,
}

/// `PluginConfig`, with its strings as sequences.
#[verifier::ext_equal]
pub struct Settings {
    pub interval_seconds: u64,
    pub directory_depth: usize,
    pub show_tab_number: bool,
    pub idle_label_mode: IdleLabelMode,
    pub idle_shell_separator: Seq<char>,
    pub shorten_home_directory: bool,
    pub set_window_title: bool,
    pub terminal_title_template: Seq<char>,
    pub windows_process_detection: bool,
    pub agent_detection: bool,
    pub windows_agent_detection: bool,
}

impl View for PluginConfig {
    type V = Settings;

    open spec fn view(&self) -> Settings {
        Settings {
            interval_seconds: self.interval_seconds,
            directory_depth: self.directory_depth,
            show_tab_number: self.show_tab_number,
            idle_label_mode: self.idle_label_mode,
            idle_shell_separator: self.idle_shell_separator@,
            shorten_home_directory: self.shorten_home_directory,
            set_window_title: self.set_window_title,
            terminal_title_template: self.terminal_title_template@,
            windows_process_detection: self.windows_process_detection,
            agent_detection: self.agent_detection,
            windows_agent_detection: self.windows_agent_detection,
        }
    }
}

/// The settings where nothing is configured.
pub open spec fn default_settings() -> Settings {
    Settings {
        interval_seconds: DEFAULT_INTERVAL_SECS,
        directory_depth: DEFAULT_DIRECTORY_DEPTH,
        show_tab_number: true,
        idle_label_mode: IdleLabelMode::Shell,
        idle_shell_separator: IDLE_SHELL_SEPARATOR@,
        shorten_home_directory: false,
        set_window_title: true,
        terminal_title_template: DEFAULT_TERMINAL_TITLE_TEMPLATE@,
        windows_process_detection: true,
        agent_detection: true,
        windows_agent_detection: true,
    }
}

impl Default for PluginConfig {
    fn default() -> (c: Self)
        ensures
            c@ == default_settings(),
    {
        PluginConfig {
            interval_seconds: DEFAULT_INTERVAL_SECS,
            directory_depth: DEFAULT_DIRECTORY_DEPTH,
            show_tab_number: true,
            idle_label_mode: IdleLabelMode::Shell,
            idle_shell_separator: IDLE_SHELL_SEPARATOR.to_owned(),
            shorten_home_directory: false,
            set_window_title: true,
            terminal_title_template: DEFAULT_TERMINAL_TITLE_TEMPLATE.to_owned(),
            windows_process_detection: true,
            agent_detection: true,
            windows_agent_detection: true,
        }
    }
}

impl Clone for PluginConfig {
    fn clone(&self) -> (c: Self)
        ensures
            c@ == self@,
    {
        PluginConfig {
            interval_seconds: self.interval_seconds,
            directory_depth: self.directory_depth,
            show_tab_number: self.show_tab_number,
            idle_label_mode: self.idle_label_mode,
            idle_shell_separator: self.idle_shell_separator.clone(),
            shorten_home_directory: self.shorten_home_directory,
            set_window_title: self.set_window_title,
            terminal_title_template: self.terminal_title_template.clone(),
            windows_process_detection: self.windows_process_detection,
            agent_detection: self.agent_detection,
            windows_agent_detection: self.windows_agent_detection,
        }
    }
}

/// The error of the TOML reader, which is carried as it comes.
#[verifier::external_type_specification]
#[verifier::external_body]
pub struct ExTomlError(toml::de::Error);

/// Why a configuration is refused.
#[derive(Debug)]
pub enum ConfigError {
    /// The text is no TOML document.
    Toml(toml::de::Error),
    /// There is no setting of that name.
    UnknownSetting(String),
    /// The setting of that name cannot have such a value.
    InvalidValue(String),
    /// The time between two syncs is out of range.
    IntervalOutOfRange,
    /// The number of components of a directory is out of range.
    DepthOutOfRange,
    /// There is no way of labeling idle panes of that name.
    UnknownIdleLabelMode,
    /// The template of the window title is refused.
    Template(TemplateError),
}

/// `ConfigError`, with its strings as sequences and without the words of the TOML
/// reader.
pub enum ConfigFault {
    Toml,
    UnknownSetting(Seq<char>),
    InvalidValue(Seq<char>),
    IntervalOutOfRange,
    DepthOutOfRange,
    UnknownIdleLabelMode,
    Template(TemplateFault),
}

impl View for ConfigError {
    type V = ConfigFault;

    open spec fn view(&self) -> ConfigFault {
        match self {
            ConfigError::Toml(_) => ConfigFault::Toml,
            ConfigError::UnknownSetting(name) => ConfigFault::UnknownSetting(name@),
            ConfigError::InvalidValue(name) => ConfigFault::InvalidValue(name@),
            ConfigError::IntervalOutOfRange => ConfigFault::IntervalOutOfRange,
            ConfigError::DepthOutOfRange => ConfigFault::DepthOutOfRange,
            ConfigError::UnknownIdleLabelMode => ConfigFault::UnknownIdleLabelMode,
            ConfigError::Template(e) => ConfigFault::Template(e@),
        }
    }
}

// ------------------------------------------------------------ idle label modes

/// The name of a way of labeling idle panes.
pub open spec fn mode_name(mode: IdleLabelMode) -> Seq<char> {
    match mode {
        IdleLabelMode::Directory => "directory"@,
        IdleLabelMode::Shell => "shell"@,
        IdleLabelMode::DirectoryShell => "directory_shell"@,
    }
}

/// The way of labeling idle panes that has the given name.
pub open spec fn mode_of(name: Seq<char>) -> Option<IdleLabelMode> {
    if name == "directory"@ {
        Some(IdleLabelMode::Directory)
    } else if name == "shell"@ {
        Some(IdleLabelMode::Shell)
    } else if name == "directory_shell"@ {
        Some(IdleLabelMode::DirectoryShell)
    } else {
        None
    }
}

impl IdleLabelMode {
    /// The way of labeling idle panes that has the given name.
    pub fn parse(value: &str) -> (r: Result<Self, ConfigError>)
        ensures
            match mode_of(value@) {
                Some(mode) => r == Ok::<Self, ConfigError>(mode),
                None => r == Err::<Self, ConfigError>(ConfigError::UnknownIdleLabelMode),
            },
    {
        if same_text(value, "directory") {
            Ok(IdleLabelMode::Directory)
        } else if same_text(value, "shell") {
            Ok(IdleLabelMode::Shell)
        } else if same_text(value, "directory_shell") {
            Ok(IdleLabelMode::DirectoryShell)
        } else {
            Err(ConfigError::UnknownIdleLabelMode)
        }
    }

    /// The name of a way of labeling idle panes.
    pub fn as_str(self) -> (name: &'static str)
        ensures
            name@ == mode_name(self),
    {
        match self {
            IdleLabelMode::Directory => "directory",
            IdleLabelMode::Shell => "shell",
            IdleLabelMode::DirectoryShell => "directory_shell",
        }
    }
}

/// The name of a way of labeling idle panes is read back as that way.
pub proof fn law_mode_names_are_read_back(mode: IdleLabelMode)
    ensures
        mode_of(mode_name(mode)) == Some(mode),
{
    reveal_strlit("directory");
    reveal_strlit("shell");
    reveal_strlit("directory_shell");
    assert("directory"@.len() != "shell"@.len());
    assert("directory"@.len() != "directory_shell"@.len());
    assert("shell"@.len() != "directory_shell"@.len());
}

// ---------------------------------------------------------------- the document

/// A value of a TOML document. Only what a setting may have is kept.
#[derive(Debug, PartialEq, Eq)]
pub enum TomlValue {
    Text(String),
    Integer(i64),
    Boolean(bool),
    Float,
    Datetime,
    Array,
    Table,
}

/// `TomlValue`, with its string as a sequence.
pub enum TomlView {
    Text(Seq<char>),
    Integer(i64),
    Boolean(bool),
    Float,
    Datetime,
    Array,
    Table,
}

impl View for TomlValue {
    type V = TomlView;

    open spec fn view(&self) -> TomlView {
        match self {
            TomlValue::Text(s) => TomlView::Text(s@),
            TomlValue::Integer(n) => TomlView::Integer(*n),
            TomlValue::Boolean(b) => TomlView::Boolean(*b),
            TomlValue::Float => TomlView::Float,
            TomlValue::Datetime => TomlView::Datetime,
            TomlValue::Array => TomlView::Array,
            TomlValue::Table => TomlView::Table,
        }
    }
}

/// The views of the entries of a document.
pub open spec fn entry_views(entries: Seq<(String, TomlValue)>) -> Seq<(Seq<char>, TomlView)> {
    entries.map_values(|e: (String, TomlValue)| (e.0@, e.1@))
}

/// What `toml::from_str` reads from a text as a table: its entries in the order of
/// their keys, or nothing where the text is no TOML document.
pub uninterp spec fn toml_document(text: Seq<char>) -> Option<Seq<(Seq<char>, TomlView)>>;

/// `toml::from_str`, for a table: the entries of the document, which are named
/// `toml_document` here, or the reader's error.
#[verifier::external_body]
fn read_toml(text: &str) -> (r: Result<Vec<(String, TomlValue)>, toml::de::Error>)
    ensures
        r is Ok == toml_document(text@) is Some,
        r matches Ok(entries) ==> toml_document(text@) == Some(entry_views(entries@)),
{
    let table: toml::Table = toml::from_str(text)?;
    let plain = |value: toml::Value| match value {
        toml::Value::String(s) => TomlValue::Text(s),
        toml::Value::Integer(n) => TomlValue::Integer(n),
        toml::Value::Boolean(b) => TomlValue::Boolean(b),
        toml::Value::Float(_) => TomlValue::Float,
        toml::Value::Datetime(_) => TomlValue::Datetime,
        toml::Value::Array(_) => TomlValue::Array,
        toml::Value::Table(_) => TomlValue::Table,
    };
    Ok(table.into_iter().map(|(key, value)| (key, plain(value))).collect())
}

/// The settings that a document gives.
#[derive(Debug, PartialEq, Eq)]
pub struct RawPluginConfig {
    pub interval_seconds: Option<u64>,
    pub directory_depth: Option<usize>,
    pub show_tab_number: Option<bool>,
    pub idle_label_mode: Option<String>,
    pub idle_shell_separator: Option<String>,
    pub shorten_home_directory: Option<bool>,
    pub show_idle_shell: Option<bool>,
    pub set_window_title: Option<bool>,
    pub terminal_title_template: Option<String>,
    pub windows_process_detection: Option<bool>,
    pub agent_detection: Option<bool>,
    pub windows_agent_detection: Option<bool>,
}

/// `RawPluginConfig`, with its strings as sequences.
#[verifier::ext_equal]
pub struct RawSettings {
    pub interval_seconds: Option<u64>,
    pub directory_depth: Option<usize>,
    pub show_tab_number: Option<bool>,
    pub idle_label_mode: Option<Seq<char>>,
    pub idle_shell_separator: Option<Seq<char>>,
    pub shorten_home_directory: Option<bool>,
    pub show_idle_shell: Option<bool>,
    pub set_window_title: Option<bool>,
    pub terminal_title_template: Option<Seq<char>>,
    pub windows_process_detection: Option<bool>,
    pub agent_detection: Option<bool>,
    pub windows_agent_detection: Option<bool>,
}

impl View for RawPluginConfig {
    type V = RawSettings;

    open spec fn view(&self) -> RawSettings {
        RawSettings {
            interval_seconds: self.interval_seconds,
            directory_depth: self.directory_depth,
            show_tab_number: self.show_tab_number,
            idle_label_mode: text_of(self.idle_label_mode),
            idle_shell_separator: text_of(self.idle_shell_separator),
            shorten_home_directory: self.shorten_home_directory,
            show_idle_shell: self.show_idle_shell,
            set_window_title: self.set_window_title,
            terminal_title_template: text_of(self.terminal_title_template),
            windows_process_detection: self.windows_process_detection,
            agent_detection: self.agent_detection,
            windows_agent_detection: self.windows_agent_detection,
        }
    }
}

/// No setting is given.
pub open spec fn no_settings() -> RawSettings {
    RawSettings {
        interval_seconds: None,
        directory_depth: None,
        show_tab_number: None,
        idle_label_mode: None,
        idle_shell_separator: None,
        shorten_home_directory: None,
        show_idle_shell: None,
        set_window_title: None,
        terminal_title_template: None,
        windows_process_detection: None,
        agent_detection: None,
        windows_agent_detection: None,
    }
}

impl Default for RawPluginConfig {
    fn default() -> (raw: Self)
        ensures
            raw@ == no_settings(),
    {
        RawPluginConfig {
            interval_seconds: None,
            directory_depth: None,
            show_tab_number: None,
            idle_label_mode: None,
            idle_shell_separator: None,
            shorten_home_directory: None,
            show_idle_shell: None,
            set_window_title: None,
            terminal_title_template: None,
            windows_process_detection: None,
            agent_detection: None,
            windows_agent_detection: None,
        }
    }
}

/// A value as a natural number, where it is one that fits.
pub open spec fn as_natural(value: TomlView, max: nat) -> Option<nat> {
    match value {
        TomlView::Integer(n) => if 0 <= n <= max {
            Some(n as nat)
        } else {
            None
        },
        _ => None,
    }
}

/// A value as a truth value, where it is one.
pub open spec fn as_boolean(value: TomlView) -> Option<bool> {
    match value {
        TomlView::Boolean(b) => Some(b),
        _ => None,
    }
}

/// A value as a text, where it is one.
pub open spec fn as_text(value: TomlView) -> Option<Seq<char>> {
    match value {
        TomlView::Text(s) => Some(s),
        _ => None,
    }
}

/// The given settings with one entry of the document added. An entry that is no
/// setting is refused, and one whose value is not of the setting's type.
pub open spec fn with_entry(raw: RawSettings, key: Seq<char>, value: TomlView) -> Result<
    RawSettings,
    ConfigFault,
> {
    if key == "interval_seconds"@ {
        match as_natural(value, u64::MAX as nat) {
            Some(n) => Ok(RawSettings { interval_seconds: Some(n as u64), ..raw }),
            None => Err(ConfigFault::InvalidValue(key)),
        }
    } else if key == "directory_depth"@ {
        match as_natural(value, usize::MAX as nat) {
            Some(n) => Ok(RawSettings { directory_depth: Some(n as usize), ..raw }),
            None => Err(ConfigFault::InvalidValue(key)),
        }
    } else if key == "show_tab_number"@ {
        match as_boolean(value) {
            Some(v) => Ok(RawSettings { show_tab_number: Some(v), ..raw }),
            None => Err(ConfigFault::InvalidValue(key)),
        }
    } else if key == "idle_label_mode"@ {
        match as_text(value) {
            Some(v) => Ok(RawSettings { idle_label_mode: Some(v), ..raw }),
            None => Err(ConfigFault::InvalidValue(key)),
        }
    } else if key == "idle_shell_separator"@ {
        match as_text(value) {
            Some(v) => Ok(RawSettings { idle_shell_separator: Some(v), ..raw }),
            None => Err(ConfigFault::InvalidValue(key)),
        }
    } else if key == "shorten_home_directory"@ {
        match as_boolean(value) {
            Some(v) => Ok(RawSettings { shorten_home_directory: Some(v), ..raw }),
            None => Err(ConfigFault::InvalidValue(key)),
        }
    } else if key == "show_idle_shell"@ {
        match as_boolean(value) {
            Some(v) => Ok(RawSettings { show_idle_shell: Some(v), ..raw }),
            None => Err(ConfigFault::InvalidValue(key)),
        }
    } else if key == "set_window_title"@ {
        match as_boolean(value) {
            Some(v) => Ok(RawSettings { set_window_title: Some(v), ..raw }),
            None => Err(ConfigFault::InvalidValue(key)),
        }
    } else if key == "terminal_title_template"@ {
        match as_text(value) {
            Some(v) => Ok(RawSettings { terminal_title_template: Some(v), ..raw }),
            None => Err(ConfigFault::InvalidValue(key)),
        }
    } else if key == "windows_process_detection"@ {
        match as_boolean(value) {
            Some(v) => Ok(RawSettings { windows_process_detection: Some(v), ..raw }),
            None => Err(ConfigFault::InvalidValue(key)),
        }
    } else if key == "agent_detection"@ {
        match as_boolean(value) {
            Some(v) => Ok(RawSettings { agent_detection: Some(v), ..raw }),
            None => Err(ConfigFault::InvalidValue(key)),
        }
    } else if key == "windows_agent_detection"@ {
        match as_boolean(value) {
            Some(v) => Ok(RawSettings { windows_agent_detection: Some(v), ..raw }),
            None => Err(ConfigFault::InvalidValue(key)),
        }
    } else {
        Err(ConfigFault::UnknownSetting(key))
    }
}

/// The settings that the entries of a document give, or what is wrong with the
/// first entry that is refused.
pub open spec fn raw_settings(entries: Seq<(Seq<char>, TomlView)>) -> Result<
    RawSettings,
    ConfigFault,
>
    decreases entries.len(),
{
    if entries.len() == 0 {
        Ok(no_settings())
    } else {
        match raw_settings(entries.drop_last()) {
            Ok(raw) => with_entry(raw, entries.last().0, entries.last().1),
            Err(fault) => Err(fault),
        }
    }
}

/// The settings in force: the defaults where nothing is given, or the first fault
/// of what is given.
pub open spec fn settings_of(raw: RawSettings) -> Result<Settings, ConfigFault> {
    let default = default_settings();
    let mode = match raw.idle_label_mode {
        Some(name) => mode_of(name),
        None => match raw.show_idle_shell {
            Some(true) => Some(IdleLabelMode::DirectoryShell),
            Some(false) => Some(IdleLabelMode::Directory),
            None => Some(default.idle_label_mode),
        },
    };
    if raw.interval_seconds is Some && !(1 <= raw.interval_seconds->0 <= MAX_INTERVAL_SECS) {
        Err(ConfigFault::IntervalOutOfRange)
    } else if raw.directory_depth is Some && !(1 <= raw.directory_depth->0 <= MAX_DIRECTORY_DEPTH) {
        Err(ConfigFault::DepthOutOfRange)
    } else if mode is None {
        Err(ConfigFault::UnknownIdleLabelMode)
    } else if raw.terminal_title_template is Some && !is_template(raw.terminal_title_template->0) {
        Err(
            ConfigFault::Template(
                expanded(raw.terminal_title_template->0, blank_context())->Err_0,
            ),
        )
    } else {
        Ok(
            Settings {
                interval_seconds: given(raw.interval_seconds, default.interval_seconds),
                directory_depth: given(raw.directory_depth, default.directory_depth),
                show_tab_number: given(raw.show_tab_number, default.show_tab_number),
                idle_label_mode: mode->0,
                idle_shell_separator: given(
                    raw.idle_shell_separator,
                    default.idle_shell_separator,
                ),
                shorten_home_directory: given(
                    raw.shorten_home_directory,
                    default.shorten_home_directory,
                ),
                set_window_title: given(raw.set_window_title, default.set_window_title),
                terminal_title_template: given(
                    raw.terminal_title_template,
                    default.terminal_title_template,
                ),
                windows_process_detection: given(
                    raw.windows_process_detection,
                    default.windows_process_detection,
                ),
                agent_detection: given(raw.agent_detection, default.agent_detection),
                windows_agent_detection: given(
                    raw.windows_agent_detection,
                    default.windows_agent_detection,
                ),
            },
        )
    }
}

/// What is given, or else the default.
pub open spec fn given<T>(value: Option<T>, default: T) -> T {
    match value {
        Some(v) => v,
        None => default,
    }
}

/// The settings that the entries of a document put in force.
pub open spec fn settings_of_entries(entries: Seq<(Seq<char>, TomlView)>) -> Result<
    Settings,
    ConfigFault,
> {
    match raw_settings(entries) {
        Ok(raw) => settings_of(raw),
        Err(fault) => Err(fault),
    }
}

/// The settings that a document puts in force; `None` stands for a text that is no
/// document.
pub open spec fn settings_of_document(document: Option<Seq<(Seq<char>, TomlView)>>) -> Result<
    Settings,
    ConfigFault,
> {
    match document {
        Some(entries) => settings_of_entries(entries),
        None => Err(ConfigFault::Toml),
    }
}

/// The settings of a configuration file, the defaults where there is none.
pub open spec fn settings_of_file(text: Option<Seq<char>>) -> Result<Settings, ConfigFault> {
    match text {
        Some(text) => settings_of_document(toml_document(text)),
        None => Ok(default_settings()),
    }
}

/// A result that is what it should be, up to views.
pub open spec fn agrees(r: Result<PluginConfig, ConfigError>, s: Result<Settings, ConfigFault>) -> bool {
    match s {
        Ok(settings) => r matches Ok(c) && c@ == settings,
        Err(fault) => r matches Err(e) && e@ == fault,
    }
}

/// Adds one entry of the document to the settings that are given.
fn add_entry(raw: &mut RawPluginConfig, key: &String, value: &TomlValue) -> (r: Result<
    (),
    ConfigError,
>)
    ensures
        match with_entry(old(raw)@, key@, value@) {
            Ok(next) => r is Ok && final(raw)@ == next,
            Err(fault) => r matches Err(e) && e@ == fault,
        },
{
    let name = key.as_str();
    if same_text(name, "interval_seconds") {
        match value {
            TomlValue::Integer(n) if *n >= 0 => {
                raw.interval_seconds = Some(*n as u64);
                return Ok(());
            },
            _ => {},
        }
    } else if same_text(name, "directory_depth") {
        match value {
            TomlValue::Integer(n) if *n >= 0 && *n as u64 <= usize::MAX as u64 => {
                raw.directory_depth = Some(*n as usize);
                return Ok(());
            },
            _ => {},
        }
    } else if same_text(name, "show_tab_number") {
        if let TomlValue::Boolean(b) = value {
            raw.show_tab_number = Some(*b);
            return Ok(());
        }
    } else if same_text(name, "idle_label_mode") {
        if let TomlValue::Text(s) = value {
            raw.idle_label_mode = Some(s.clone());
            return Ok(());
        }
    } else if same_text(name, "idle_shell_separator") {
        if let TomlValue::Text(s) = value {
            raw.idle_shell_separator = Some(s.clone());
            return Ok(());
        }
    } else if same_text(name, "shorten_home_directory") {
        if let TomlValue::Boolean(b) = value {
            raw.shorten_home_directory = Some(*b);
            return Ok(());
        }
    } else if same_text(name, "show_idle_shell") {
        if let TomlValue::Boolean(b) = value {
            raw.show_idle_shell = Some(*b);
            return Ok(());
        }
    } else if same_text(name, "set_window_title") {
        if let TomlValue::Boolean(b) = value {
            raw.set_window_title = Some(*b);
            return Ok(());
        }
    } else if same_text(name, "terminal_title_template") {
        if let TomlValue::Text(s) = value {
            raw.terminal_title_template = Some(s.clone());
            return Ok(());
        }
    } else if same_text(name, "windows_process_detection") {
        if let TomlValue::Boolean(b) = value {
            raw.windows_process_detection = Some(*b);
            return Ok(());
        }
    } else if same_text(name, "agent_detection") {
        if let TomlValue::Boolean(b) = value {
            raw.agent_detection = Some(*b);
            return Ok(());
        }
    } else if same_text(name, "windows_agent_detection") {
        if let TomlValue::Boolean(b) = value {
            raw.windows_agent_detection = Some(*b);
            return Ok(());
        }
    } else {
        return Err(ConfigError::UnknownSetting(key.clone()));
    }
    Err(ConfigError::InvalidValue(key.clone()))
}

/// The settings that the entries of a document give.
pub fn raw_plugin_config(entries: &[(String, TomlValue)]) -> (r: Result<
    RawPluginConfig,
    ConfigError,
>)
    ensures
        match raw_settings(entry_views(entries@)) {
            Ok(raw) => r matches Ok(given) && given@ == raw,
            Err(fault) => r matches Err(e) && e@ == fault,
        },
{
    let mut raw = RawPluginConfig::default();
    let ghost all = entry_views(entries@);
    assert(all.take(0) =~= seq![]);
    for i in 0..entries.len()
        invariant
            all == entry_views(entries@),
            raw_settings(all.take(i as int)) == Ok::<RawSettings, ConfigFault>(raw@),
    {
        assert(all.take(i + 1).drop_last() =~= all.take(i as int));
        assert(all.take(i + 1).last() == (entries@[i as int].0@, entries@[i as int].1@));
        match add_entry(&mut raw, &entries[i].0, &entries[i].1) {
            Ok(()) => {},
            Err(e) => {
                proof {
                    lemma_first_fault_stays(all, i + 1);
                }
                return Err(e);
            },
        }
    }
    assert(all.take(entries.len() as int) =~= all);
    Ok(raw)
}

/// A fault among the first entries is the fault of the document.
proof fn lemma_first_fault_stays(entries: Seq<(Seq<char>, TomlView)>, i: int)
    requires
        0 <= i <= entries.len(),
        raw_settings(entries.take(i)) is Err,
    ensures
        raw_settings(entries) == raw_settings(entries.take(i)),
    decreases entries.len() - i,
{
    if i < entries.len() {
        assert(entries.take(i + 1).drop_last() =~= entries.take(i));
        lemma_first_fault_stays(entries, i + 1);
    } else {
        assert(entries.take(i) =~= entries);
    }
}

/// What is given, or else the default.
fn or_default(value: Option<bool>, default: bool) -> (b: bool)
    ensures
        b == given(value, default),
{
    match value {
        Some(b) => b,
        None => default,
    }
}

/// The settings in force: the defaults where nothing is given.
pub fn resolve_plugin_config(raw: RawPluginConfig) -> (r: Result<PluginConfig, ConfigError>)
    ensures
        agrees(r, settings_of(raw@)),
{
    let mut config = PluginConfig::default();
    if let Some(seconds) = raw.interval_seconds {
        if seconds == 0 || seconds > MAX_INTERVAL_SECS {
            return Err(ConfigError::IntervalOutOfRange);
        }
        config.interval_seconds = seconds;
    }
    if let Some(depth) = raw.directory_depth {
        if depth == 0 || depth > MAX_DIRECTORY_DEPTH {
            return Err(ConfigError::DepthOutOfRange);
        }
        config.directory_depth = depth;
    }
    config.show_tab_number = or_default(raw.show_tab_number, config.show_tab_number);
    if let Some(name) = raw.idle_label_mode {
        match IdleLabelMode::parse(name.as_str()) {
            Ok(mode) => {
                config.idle_label_mode = mode;
            },
            Err(e) => {
                return Err(e);
            },
        }
    } else if let Some(show) = raw.show_idle_shell {
        config.idle_label_mode = if show {
            IdleLabelMode::DirectoryShell
        } else {
            IdleLabelMode::Directory
        };
    }
    if let Some(separator) = raw.idle_shell_separator {
        config.idle_shell_separator = separator;
    }
    config.shorten_home_directory = or_default(
        raw.shorten_home_directory,
        config.shorten_home_directory,
    );
    config.set_window_title = or_default(raw.set_window_title, config.set_window_title);
    if let Some(template) = raw.terminal_title_template {
        match validate_window_title_template(template.as_str()) {
            Ok(()) => {},
            Err(e) => {
                return Err(ConfigError::Template(e));
            },
        }
        config.terminal_title_template = template;
    }
    config.windows_process_detection = or_default(
        raw.windows_process_detection,
        config.windows_process_detection,
    );
    config.agent_detection = or_default(raw.agent_detection, config.agent_detection);
    config.windows_agent_detection = or_default(
        raw.windows_agent_detection,
        config.windows_agent_detection,
    );
    Ok(config)
}

/// The settings that the entries of a document put in force.
pub fn plugin_config_of_entries(entries: &[(String, TomlValue)]) -> (r: Result<
    PluginConfig,
    ConfigError,
>)
    ensures
        agrees(r, settings_of_entries(entry_views(entries@))),
{
    match raw_plugin_config(entries) {
        Ok(raw) => resolve_plugin_config(raw),
        Err(e) => Err(e),
    }
}

/// The settings that a configuration text puts in force.
pub fn parse_plugin_config(text: &str) -> (r: Result<PluginConfig, ConfigError>)
    ensures
        agrees(r, settings_of_document(toml_document(text@))),
{
    match read_toml(text) {
        Ok(entries) => plugin_config_of_entries(&entries),
        Err(e) => Err(ConfigError::Toml(e)),
    }
}

/// The settings of a configuration file: its text, or nothing where there is no
/// such file.
pub fn load_plugin_config(text: Option<&str>) -> (r: Result<PluginConfig, ConfigError>)
    ensures
        agrees(r, settings_of_file(str_of(text))),
{
    match text {
        Some(t) => parse_plugin_config(t),
        None => Ok(PluginConfig::default()),
    }
}

// -------------------------------------------------------------------- the cache

/// The settings as they were read last, with the time at which the file was
/// changed then, in nanoseconds since the epoch.
pub struct ConfigCache {
    pub modified: Option<i128>,
    pub config: PluginConfig,
}

impl ConfigCache {
    /// Reads the settings for the first time.
    pub fn new(text: Option<&str>, modified: Option<i128>) -> (r: Result<Self, ConfigError>)
        ensures
            match settings_of_file(str_of(text)) {
                Ok(settings) => r matches Ok(cache) && cache.config@ == settings && cache.modified
                    == modified,
                Err(fault) => r matches Err(e) && e@ == fault,
            },
    {
        match load_plugin_config(text) {
            Ok(config) => Ok(ConfigCache { modified, config }),
            Err(e) => Err(e),
        }
    }

    /// Whether the file was changed since it was read.
    pub fn is_stale(&self, modified: Option<i128>) -> (b: bool)
        ensures
            b == (modified != self.modified),
    {
        match (modified, self.modified) {
            (None, None) => false,
            (Some(a), Some(b)) => a != b,
            _ => true,
        }
    }

    /// The settings in force, read again where the file was changed. The text of the
    /// file is used in that case only. Where it is refused, the cache stays as it
    /// was.
    pub fn load(&mut self, modified: Option<i128>, text: Option<&str>) -> (r: Result<
        PluginConfig,
        ConfigError,
    >)
        ensures
            modified == old(self).modified ==> *final(self) == *old(self) && (r matches Ok(c) && c@
                == old(self).config@),
            modified != old(self).modified ==> match settings_of_file(str_of(text)) {
                Ok(settings) => final(self).config@ == settings && final(self).modified == modified
                    && (r matches Ok(c) && c@ == settings),
                Err(fault) => *final(self) == *old(self) && (r matches Err(e) && e@ == fault),
            },
    {
        if self.is_stale(modified) {
            match load_plugin_config(text) {
                Ok(config) => {
                    self.config = config;
                    self.modified = modified;
                },
                Err(e) => {
                    return Err(e);
                },
            }
        }
        Ok(self.config.clone())
    }
}

// ---------------------------------------------------------------------- laws

/// Settings as every configuration that is accepted has them.
pub open spec fn in_range(s: Settings) -> bool {
    &&& 1 <= s.interval_seconds <= MAX_INTERVAL_SECS
    &&& 1 <= s.directory_depth <= MAX_DIRECTORY_DEPTH
    &&& is_template(s.terminal_title_template)
}

/// An empty configuration puts the defaults in force, and so does none at all.
pub proof fn law_empty_configuration_is_default()
    ensures
        settings_of_entries(seq![]) == Ok::<Settings, ConfigFault>(default_settings()),
        settings_of_file(None) == Ok::<Settings, ConfigFault>(default_settings()),
{
}

/// Whatever is configured, settings that are accepted are in range, and their
/// template never fails.
pub proof fn law_accepted_settings_are_in_range(raw: RawSettings)
    ensures
        in_range(default_settings()),
        settings_of(raw) matches Ok(settings) ==> in_range(settings),
{
    law_default_template_is_accepted();
}

/// The value of a setting in a document: that of the last entry of its name.
pub open spec fn entry_of(entries: Seq<(Seq<char>, TomlView)>, key: Seq<char>) -> Option<TomlView>
    decreases entries.len(),
{
    if entries.len() == 0 {
        None
    } else if entries.last().0 == key {
        Some(entries.last().1)
    } else {
        entry_of(entries.drop_last(), key)
    }
}

/// A truth value that is the given one, or the default where none is given.
pub open spec fn is_flag(entry: Option<TomlView>, value: bool, default: bool) -> bool {
    match entry {
        Some(v) => v == TomlView::Boolean(value),
        None => value == default,
    }
}

/// A number that is the given one, or the default where none is given.
pub open spec fn is_number(entry: Option<TomlView>, value: int, default: int) -> bool {
    match entry {
        Some(v) => v matches TomlView::Integer(n) && n == value,
        None => value == default,
    }
}

/// A text that is the given one, or the default where none is given.
pub open spec fn is_words(entry: Option<TomlView>, value: Seq<char>, default: Seq<char>) -> bool {
    match entry {
        Some(v) => v == TomlView::Text(value),
        None => value == default,
    }
}

/// The names of the settings differ, in their lengths or in a letter.
proof fn lemma_setting_names_differ()
    ensures
        "interval_seconds"@.len() == 16,
        "interval_seconds"@[0] == 'i',
        "directory_depth"@.len() == 15,
        "directory_depth"@[0] == 'd',
        "show_tab_number"@.len() == 15,
        "show_tab_number"@[0] == 's',
        "show_tab_number"@[5] == 't',
        "idle_label_mode"@.len() == 15,
        "idle_label_mode"@[0] == 'i',
        "idle_shell_separator"@.len() == 20,
        "shorten_home_directory"@.len() == 22,
        "show_idle_shell"@.len() == 15,
        "show_idle_shell"@[0] == 's',
        "show_idle_shell"@[5] == 'i',
        "set_window_title"@.len() == 16,
        "set_window_title"@[0] == 's',
        "terminal_title_template"@.len() == 23,
        "terminal_title_template"@[0] == 't',
        "windows_process_detection"@.len() == 25,
        "agent_detection"@.len() == 15,
        "agent_detection"@[0] == 'a',
        "windows_agent_detection"@.len() == 23,
        "windows_agent_detection"@[0] == 'w',
{
    reveal_strlit("interval_seconds");
    reveal_strlit("directory_depth");
    reveal_strlit("show_tab_number");
    reveal_strlit("idle_label_mode");
    reveal_strlit("idle_shell_separator");
    reveal_strlit("shorten_home_directory");
    reveal_strlit("show_idle_shell");
    reveal_strlit("set_window_title");
    reveal_strlit("terminal_title_template");
    reveal_strlit("windows_process_detection");
    reveal_strlit("agent_detection");
    reveal_strlit("windows_agent_detection");
}

/// The truth value of a given setting.
spec fn flag_in(entry: Option<TomlView>) -> Option<bool> {
    match entry {
        Some(TomlView::Boolean(b)) => Some(b),
        _ => None,
    }
}

/// The number of a given setting.
spec fn number_in(entry: Option<TomlView>) -> Option<int> {
    match entry {
        Some(TomlView::Integer(n)) => Some(n as int),
        _ => None,
    }
}

/// The text of a given setting.
spec fn words_in(entry: Option<TomlView>) -> Option<Seq<char>> {
    match entry {
        Some(TomlView::Text(s)) => Some(s),
        _ => None,
    }
}

/// A value that a setting of that name may have.
pub open spec fn is_setting(key: Seq<char>, value: TomlView) -> bool {
    ||| (key == "interval_seconds"@ || key == "directory_depth"@) && (
    value matches TomlView::Integer(n) && 0 <= n && (key == "directory_depth"@ ==> n <= usize::MAX))
    ||| (key == "idle_label_mode"@ || key == "idle_shell_separator"@ || key
        == "terminal_title_template"@) && value is Text
    ||| (key == "show_tab_number"@ || key == "shorten_home_directory"@ || key == "show_idle_shell"@
        || key == "set_window_title"@ || key == "windows_process_detection"@ || key
        == "agent_detection"@ || key == "windows_agent_detection"@) && value is Boolean
}

proof fn lemma_given_settings(entries: Seq<(Seq<char>, TomlView)>)
    ensures
        raw_settings(entries) is Ok <==> forall|i: int|
            0 <= i < entries.len() ==> is_setting(
                (#[trigger] entries[i]).0,
                entries[i].1,
            ),
        raw_settings(entries) matches Ok(raw) ==> {
            &&& match raw.interval_seconds {
                Some(n) => number_in(entry_of(entries, "interval_seconds"@)) == Some(n as int),
                None => entry_of(entries, "interval_seconds"@) is None,
            }
            &&& match raw.directory_depth {
                Some(n) => number_in(entry_of(entries, "directory_depth"@)) == Some(n as int),
                None => entry_of(entries, "directory_depth"@) is None,
            }
            &&& match raw.show_tab_number {
                Some(b) => flag_in(entry_of(entries, "show_tab_number"@)) == Some(b),
                None => entry_of(entries, "show_tab_number"@) is None,
            }
            &&& match raw.idle_label_mode {
                Some(s) => words_in(entry_of(entries, "idle_label_mode"@)) == Some(s),
                None => entry_of(entries, "idle_label_mode"@) is None,
            }
            &&& match raw.idle_shell_separator {
                Some(s) => words_in(entry_of(entries, "idle_shell_separator"@)) == Some(s),
                None => entry_of(entries, "idle_shell_separator"@) is None,
            }
            &&& match raw.shorten_home_directory {
                Some(b) => flag_in(entry_of(entries, "shorten_home_directory"@)) == Some(b),
                None => entry_of(entries, "shorten_home_directory"@) is None,
            }
            &&& match raw.show_idle_shell {
                Some(b) => flag_in(entry_of(entries, "show_idle_shell"@)) == Some(b),
                None => entry_of(entries, "show_idle_shell"@) is None,
            }
            &&& match raw.set_window_title {
                Some(b) => flag_in(entry_of(entries, "set_window_title"@)) == Some(b),
                None => entry_of(entries, "set_window_title"@) is None,
            }
            &&& match raw.terminal_title_template {
                Some(s) => words_in(entry_of(entries, "terminal_title_template"@)) == Some(s),
                None => entry_of(entries, "terminal_title_template"@) is None,
            }
            &&& match raw.windows_process_detection {
                Some(b) => flag_in(entry_of(entries, "windows_process_detection"@)) == Some(b),
                None => entry_of(entries, "windows_process_detection"@) is None,
            }
            &&& match raw.agent_detection {
                Some(b) => flag_in(entry_of(entries, "agent_detection"@)) == Some(b),
                None => entry_of(entries, "agent_detection"@) is None,
            }
            &&& match raw.windows_agent_detection {
                Some(b) => flag_in(entry_of(entries, "windows_agent_detection"@)) == Some(b),
                None => entry_of(entries, "windows_agent_detection"@) is None,
            }
        },
    decreases entries.len(),
{
    if entries.len() > 0 {
        let before = entries.drop_last();
        lemma_given_settings(before);
        lemma_setting_names_differ();
        if forall|i: int|
            0 <= i < entries.len() ==> is_setting((#[trigger] entries[i]).0, entries[i].1) {
            assert(is_setting(entries[entries.len() - 1].0, entries[entries.len() - 1].1));
            assert forall|i: int| 0 <= i < before.len() implies is_setting(
                (#[trigger] before[i]).0,
                before[i].1,
            ) by {
                assert(before[i] == entries[i]);
            }
        }
        if raw_settings(entries) is Ok {
            assert forall|i: int| 0 <= i < entries.len() implies is_setting(
                (#[trigger] entries[i]).0,
                entries[i].1,
            ) by {
                if i < before.len() {
                    assert(before[i] == entries[i]);
                }
            }
        }
    }
}

/// Every setting that a document gives comes into force with its value, and every
/// other one has its default.
pub proof fn law_given_settings_come_into_force(entries: Seq<(Seq<char>, TomlView)>)
    ensures
        settings_of_entries(entries) matches Ok(s) ==> {
            &&& is_number(entry_of(entries, "interval_seconds"@), s.interval_seconds as int, 10)
            &&& is_number(entry_of(entries, "directory_depth"@), s.directory_depth as int, 1)
            &&& is_flag(entry_of(entries, "show_tab_number"@), s.show_tab_number, true)
            &&& is_words(
                entry_of(entries, "idle_shell_separator"@),
                s.idle_shell_separator,
                " ❯ "@,
            )
            &&& is_flag(
                entry_of(entries, "shorten_home_directory"@),
                s.shorten_home_directory,
                false,
            )
            &&& is_flag(entry_of(entries, "set_window_title"@), s.set_window_title, true)
            &&& is_words(
                entry_of(entries, "terminal_title_template"@),
                s.terminal_title_template,
                "[{hostname_uppercase} herdr {tab_label}] {internal_title}"@,
            )
            &&& is_flag(
                entry_of(entries, "windows_process_detection"@),
                s.windows_process_detection,
                true,
            )
            &&& is_flag(entry_of(entries, "agent_detection"@), s.agent_detection, true)
            &&& is_flag(
                entry_of(entries, "windows_agent_detection"@),
                s.windows_agent_detection,
                true,
            )
        },
{
    lemma_given_settings(entries);
}

/// How idle panes are labeled is said by `idle_label_mode`, where that is given, else
/// by `show_idle_shell`, where that is; else it is the shell.
pub proof fn law_given_idle_label_mode_comes_into_force(entries: Seq<(Seq<char>, TomlView)>)
    ensures
        settings_of_entries(entries) matches Ok(s) ==> match entry_of(entries, "idle_label_mode"@) {
            Some(v) => {
                ||| v == TomlView::Text("directory"@) && s.idle_label_mode
                    == IdleLabelMode::Directory
                ||| v == TomlView::Text("shell"@) && s.idle_label_mode == IdleLabelMode::Shell
                ||| v == TomlView::Text("directory_shell"@) && s.idle_label_mode
                    == IdleLabelMode::DirectoryShell
            },
            None => match entry_of(entries, "show_idle_shell"@) {
                Some(v) => v == TomlView::Boolean(s.idle_label_mode == IdleLabelMode::DirectoryShell)
                    && s.idle_label_mode != IdleLabelMode::Shell,
                None => s.idle_label_mode == IdleLabelMode::Shell,
            },
        },
{
    lemma_given_settings(entries);
}

/// A document is accepted if and only if every entry is a setting with a value of its
/// type, the interval is of one second up to an hour, one up to eight components of
/// directories are shown, the name of the way of labeling idle panes is known, and
/// the template has no fault.
pub proof fn law_settings_are_accepted(entries: Seq<(Seq<char>, TomlView)>)
    ensures
        settings_of_entries(entries) is Ok <==> {
            &&& forall|i: int|
                0 <= i < entries.len() ==> is_setting((#[trigger] entries[i]).0, entries[i].1)
            &&& entry_of(entries, "interval_seconds"@) matches Some(TomlView::Integer(n)) ==> 1 <= n
                <= 3600
            &&& entry_of(entries, "directory_depth"@) matches Some(TomlView::Integer(n)) ==> 1 <= n
                <= 8
            &&& entry_of(entries, "idle_label_mode"@) matches Some(TomlView::Text(name)) ==> name
                == "directory"@ || name == "shell"@ || name == "directory_shell"@
            &&& entry_of(entries, "terminal_title_template"@) matches Some(TomlView::Text(t)) ==> expanded(
                t,
                blank_context(),
            ) is Ok
        },
{
    lemma_given_settings(entries);
}

/// The first entry that is refused is the one that is told: by its name, and whether
/// there is no such setting or it cannot have such a value.
pub proof fn law_first_refused_entry_is_told(entries: Seq<(Seq<char>, TomlView)>, i: int)
    requires
        0 <= i < entries.len(),
        !is_setting(entries[i].0, entries[i].1),
        forall|j: int| 0 <= j < i ==> is_setting((#[trigger] entries[j]).0, entries[j].1),
    ensures
        settings_of_entries(entries) == Err::<Settings, ConfigFault>(
            if is_setting(entries[i].0, TomlView::Integer(1)) || is_setting(
                entries[i].0,
                TomlView::Text(seq![]),
            ) || is_setting(entries[i].0, TomlView::Boolean(true)) {
                ConfigFault::InvalidValue(entries[i].0)
            } else {
                ConfigFault::UnknownSetting(entries[i].0)
            },
        ),
{
    let first = entries.take(i);
    lemma_given_settings(first);
    lemma_setting_names_differ();
    assert forall|j: int| 0 <= j < first.len() implies is_setting(
        (#[trigger] first[j]).0,
        first[j].1,
    ) by {
        assert(first[j] == entries[j]);
    }
    let next = entries.take(i + 1);
    assert(next.drop_last() =~= first);
    assert(next.last() == entries[i]);
    lemma_first_fault_stays(entries, i + 1);
}

/// The view of the settings holds each of them.
pub proof fn law_settings_view_holds_its_parts(config: PluginConfig)
    ensures
        config@.interval_seconds == config.interval_seconds,
        config@.directory_depth == config.directory_depth,
        config@.show_tab_number == config.show_tab_number,
        config@.idle_label_mode == config.idle_label_mode,
        config@.idle_shell_separator == config.idle_shell_separator@,
        config@.shorten_home_directory == config.shorten_home_directory,
        config@.set_window_title == config.set_window_title,
        config@.terminal_title_template == config.terminal_title_template@,
        config@.windows_process_detection == config.windows_process_detection,
        config@.agent_detection == config.agent_detection,
        config@.windows_agent_detection == config.windows_agent_detection,
{
}

/// A configuration file that is not there puts the defaults in force, and one that is
/// no document is refused; else its entries count.
pub proof fn law_files_are_read_as_documents(
    text: Seq<char>,
    entries: Seq<(Seq<char>, TomlView)>,
)
    ensures
        settings_of_file(None) == settings_of_entries(seq![]),
        settings_of_document(None) == Err::<Settings, ConfigFault>(ConfigFault::Toml),
        settings_of_document(Some(entries)) == settings_of_entries(entries),
        settings_of_file(Some(text)) == settings_of_document(toml_document(text)),
{
}

/// Where every entry is a setting with a value of its type, the first setting that
/// cannot have its value is told: the interval, then the number of components, then
/// the way of labeling idle panes, then the template with its fault.
pub proof fn law_settings_out_of_range_are_told(entries: Seq<(Seq<char>, TomlView)>)
    requires
        forall|i: int|
            0 <= i < entries.len() ==> is_setting((#[trigger] entries[i]).0, entries[i].1),
    ensures
        ({
            let interval = entry_of(entries, "interval_seconds"@);
            let depth = entry_of(entries, "directory_depth"@);
            let mode = entry_of(entries, "idle_label_mode"@);
            let template = entry_of(entries, "terminal_title_template"@);
            let result = settings_of_entries(entries);
            if interval matches Some(TomlView::Integer(n)) && !(1 <= n <= 3600) {
                result == Err::<Settings, ConfigFault>(ConfigFault::IntervalOutOfRange)
            } else if depth matches Some(TomlView::Integer(n)) && !(1 <= n <= 8) {
                result == Err::<Settings, ConfigFault>(ConfigFault::DepthOutOfRange)
            } else if mode matches Some(TomlView::Text(name)) && name != "directory"@ && name
                != "shell"@ && name != "directory_shell"@ {
                result == Err::<Settings, ConfigFault>(ConfigFault::UnknownIdleLabelMode)
            } else if template matches Some(TomlView::Text(t)) && expanded(t, blank_context()) is Err {
                result == Err::<Settings, ConfigFault>(
                    ConfigFault::Template(
                        expanded(template->0->Text_0, blank_context())->Err_0,
                    ),
                )
            } else {
                result is Ok
            }
        }),
{
    lemma_given_settings(entries);
}

} // verus!
