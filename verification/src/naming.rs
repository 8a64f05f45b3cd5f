//! What tabs and windows are called after: the agent, the program in the
//! foreground, or the directory and the shell.
use crate::config::{PluginConfig, Settings};
use crate::directory::{comparable, directory_label_with_home, is_comparable, label_with_home};
use crate::label::{
    clean, format_idle_shell_label, format_tab_label, idle_text, is_clean,
    law_sanitized_label_is_clean, numbered, sanitize_label, IdleLabelMode,
};
use crate::number::decimal;
use crate::process::{
    agent_label, agent_name, all_readable, bare_name, basename_or, best, label,
    law_best_process_is_best, law_shells_are_known_by_name, process_label, processes_are_readable,
    select_foreground_process, select_idle_shell_process, shells, without_exe, Kind,
    PaneProcessInfo,
};
use crate::tab::{Pane, PaneView, Tab, TabView};
use crate::template::{
    render_window_title, title_of, TemplateError, TitleValues, WindowTitleContext,
};
use crate::text::{
    as_deref, lower_all, lowercase, str_of, text_of, to_ascii_lowercase, to_ascii_uppercase, trim,
    upper_all,
};
use crate::windows::{
    candidate, lemma_candidate_is_readable, platform_foreground_process, tree_is_readable, tree_program,
    tree_readable, PlatformProcessSnapshot, WindowsProcessEntry,
};
use vstd::prelude::*;

verus! {

/// The label of the program in the foreground of a pane: the best process that is
/// a program, or on Windows the one that the process tree shows.
pub open spec fn foreground(
    info: PaneProcessInfo,
    entries: Seq<WindowsProcessEntry>,
    is_windows: bool,
) -> Option<Seq<char>> {
    match best(info.processes@, Kind::Program, is_windows) {
        Some(i) => Some(label(info.processes@[i], is_windows)),
        None => if is_windows {
            match tree_program(info.shell_pid, entries) {
                Some(name) => Some(without_exe(basename_or(name, name), true)),
                None => None,
            }
        } else {
            None
        },
    }
}

/// Every name that is looked at for the program in the foreground can be read.
pub open spec fn foreground_readable(
    info: PaneProcessInfo,
    entries: Seq<WindowsProcessEntry>,
    is_windows: bool,
) -> bool {
    &&& all_readable(info.processes@, is_windows)
    &&& is_windows && best(info.processes@, Kind::Program, is_windows) is None ==> (
    info.shell_pid matches Some(pid) ==> tree_readable(entries, pid))
}

/// Whether agents are looked for. On Windows there are two settings that can say no.
pub open spec fn looks_for_agents(config: Settings, is_windows: bool) -> bool {
    config.agent_detection && (is_windows ==> config.windows_agent_detection)
}

/// The agent of a pane, where agents are looked for.
pub open spec fn known_agent(agent: Option<Seq<char>>, agent_detection: bool) -> Option<Seq<char>> {
    if agent_detection {
        agent_name(agent)
    } else {
        None
    }
}

/// What runs in a pane: its agent, else the program in the foreground.
pub open spec fn detected(
    info: PaneProcessInfo,
    agent: Option<Seq<char>>,
    entries: Seq<WindowsProcessEntry>,
    agent_detection: bool,
    is_windows: bool,
) -> Option<Seq<char>> {
    match known_agent(agent, agent_detection) {
        Some(name) => Some(name),
        None => foreground(info, entries, is_windows),
    }
}

/// Every name that is looked at for what runs in a pane can be read.
pub open spec fn detected_readable(
    info: PaneProcessInfo,
    agent: Option<Seq<char>>,
    entries: Seq<WindowsProcessEntry>,
    agent_detection: bool,
    is_windows: bool,
) -> bool {
    known_agent(agent, agent_detection) is None ==> foreground_readable(info, entries, is_windows)
}

/// The directory of a pane, where it is known: that of the program in the
/// foreground, else that of the shell.
pub open spec fn directory_of(pane: PaneView) -> Option<Seq<char>> {
    match pane.foreground_cwd {
        Some(cwd) => Some(cwd),
        None => pane.cwd,
    }
}

/// The home directory, where directories are shortened by it.
pub open spec fn home_for(config: Settings, home: Option<Seq<char>>) -> Option<Seq<char>> {
    if config.shorten_home_directory {
        home
    } else {
        None
    }
}

/// How a directory is shown.
pub open spec fn shown(
    cwd: Seq<char>,
    config: Settings,
    home: Option<Seq<char>>,
    is_windows: bool,
) -> Seq<char> {
    label_with_home(cwd, config.directory_depth as nat, home_for(config, home), is_windows)
}

/// A directory can be compared with the home directory, where this is done.
pub open spec fn showable(cwd: Seq<char>, config: Settings, home: Option<Seq<char>>) -> bool {
    home_for(config, home) matches Some(h) ==> comparable(cwd, h)
}

/// The label of the shell of a pane.
pub open spec fn idle_shell(info: PaneProcessInfo, is_windows: bool) -> Option<Seq<char>> {
    match best(info.processes@, Kind::Shell, is_windows) {
        Some(i) => Some(label(info.processes@[i], is_windows)),
        None => None,
    }
}

/// The directory by which an idle pane is named.
pub open spec fn idle_directory(pane: PaneView) -> Seq<char> {
    match directory_of(pane) {
        Some(cwd) => cwd,
        None => "/"@,
    }
}

/// What a pane is called: what runs in it, or its directory and its shell as the
/// settings say.
pub open spec fn pane_label(
    pane: PaneView,
    config: Settings,
    info: PaneProcessInfo,
    entries: Seq<WindowsProcessEntry>,
    home: Option<Seq<char>>,
    is_windows: bool,
) -> Seq<char> {
    match detected(info, pane.agent, entries, looks_for_agents(config, is_windows), is_windows) {
        Some(name) => clean(name),
        None => clean(
            idle_text(
                shown(idle_directory(pane), config, home, is_windows),
                idle_shell(info, is_windows),
                config.idle_label_mode,
                config.idle_shell_separator,
            ),
        ),
    }
}

/// Everything that is looked at for the label of a pane can be read.
pub open spec fn pane_readable(
    pane: PaneView,
    config: Settings,
    info: PaneProcessInfo,
    entries: Seq<WindowsProcessEntry>,
    home: Option<Seq<char>>,
    is_windows: bool,
) -> bool {
    let agents = looks_for_agents(config, is_windows);
    &&& detected_readable(info, pane.agent, entries, agents, is_windows)
    &&& detected(info, pane.agent, entries, agents, is_windows) is None ==> showable(
        idle_directory(pane),
        config,
        home,
    )
}

/// The label of the program in the foreground of a pane.
fn foreground_label(
    info: &PaneProcessInfo,
    snapshot: &PlatformProcessSnapshot,
    is_windows: bool,
) -> (r: Option<String>)
    requires
        foreground_readable(*info, snapshot.entries@, is_windows),
    ensures
        text_of(r) == foreground(*info, snapshot.entries@, is_windows),
{
    if let Some(process) = select_foreground_process(info.processes.as_slice(), is_windows) {
        return Some(process_label(process, is_windows));
    }
    if !is_windows {
        return None;
    }
    match platform_foreground_process(info.shell_pid, snapshot) {
        Some(process) => {
            proof {
                lemma_candidate_is_readable(snapshot.entries@, info.shell_pid->0);
            }
            Some(process_label(&process, is_windows))
        },
        None => None,
    }
}

/// Whether agents are looked for.
pub fn agents_are_looked_for(config: &PluginConfig, is_windows: bool) -> (b: bool)
    ensures
        b == looks_for_agents(config@, is_windows),
{
    config.agent_detection && (!is_windows || config.windows_agent_detection)
}

/// What runs in a pane.
pub fn detected_tab_label(
    process_info: &PaneProcessInfo,
    agent: Option<&str>,
    process_snapshot: &PlatformProcessSnapshot,
    agent_detection_enabled: bool,
    is_windows: bool,
) -> (r: Option<String>)
    requires
        detected_readable(
            *process_info,
            str_of(agent),
            process_snapshot.entries@,
            agent_detection_enabled,
            is_windows,
        ),
    ensures
        text_of(r) == detected(
            *process_info,
            str_of(agent),
            process_snapshot.entries@,
            agent_detection_enabled,
            is_windows,
        ),
{
    if agent_detection_enabled {
        if let Some(name) = agent_label(agent) {
            return Some(name.to_owned());
        }
    }
    foreground_label(process_info, process_snapshot, is_windows)
}

/// The program in the foreground of a pane; none where the processes of the pane
/// are not known.
pub fn foreground_process_name(
    process_info: Option<&PaneProcessInfo>,
    process_snapshot: &PlatformProcessSnapshot,
    is_windows: bool,
) -> (r: Option<String>)
    requires
        process_info matches Some(info) ==> foreground_readable(
            *info,
            process_snapshot.entries@,
            is_windows,
        ),
    ensures
        text_of(r) == match process_info {
            Some(info) => foreground(*info, process_snapshot.entries@, is_windows),
            None => None,
        },
{
    match process_info {
        Some(info) => foreground_label(info, process_snapshot, is_windows),
        None => None,
    }
}

/// The directory of a pane, where it is known.
fn pane_directory(pane: &Pane) -> (r: Option<&str>)
    ensures
        str_of(r) == directory_of(pane@),
{
    match &pane.foreground_cwd {
        Some(cwd) => Some(cwd.as_str()),
        None => as_deref(&pane.cwd),
    }
}

/// How a directory is shown.
fn show_directory(
    cwd: &str,
    config: &PluginConfig,
    home: Option<&str>,
    is_windows: bool,
) -> (shown_as: String)
    requires
        showable(cwd@, config@, str_of(home)),
    ensures
        shown_as@ == shown(cwd@, config@, str_of(home), is_windows),
{
    let home = if config.shorten_home_directory {
        home
    } else {
        None
    };
    directory_label_with_home(cwd, config.directory_depth, home, is_windows)
}

/// The label that a pane gives its tab, without a tab number.
pub fn desired_label_for_pane(
    pane: &Pane,
    config: &PluginConfig,
    process_info: &PaneProcessInfo,
    process_snapshot: &PlatformProcessSnapshot,
    home: Option<&str>,
    is_windows: bool,
) -> (l: String)
    requires
        pane_readable(pane@, config@, *process_info, process_snapshot.entries@, str_of(home), is_windows),
    ensures
        l@ == pane_label(
            pane@,
            config@,
            *process_info,
            process_snapshot.entries@,
            str_of(home),
            is_windows,
        ),
{
    if let Some(name) = detected_tab_label(
        process_info,
        as_deref(&pane.agent),
        process_snapshot,
        agents_are_looked_for(config, is_windows),
        is_windows,
    ) {
        return sanitize_label(name.as_str());
    }
    let cwd = match pane_directory(pane) {
        Some(cwd) => cwd,
        None => "/",
    };
    let directory = show_directory(cwd, config, home, is_windows);
    let shell = match select_idle_shell_process(process_info.processes.as_slice(), is_windows) {
        Some(process) => Some(process_label(process, is_windows)),
        None => None,
    };
    format_idle_shell_label(
        directory.as_str(),
        as_deref(&shell),
        config.idle_label_mode,
        config.idle_shell_separator.as_str(),
    )
}

/// The label of a managed tab, after one of its panes.
pub fn desired_label_for_tab(
    tab: &Tab,
    pane: &Pane,
    config: &PluginConfig,
    process_info: &PaneProcessInfo,
    process_snapshot: &PlatformProcessSnapshot,
    home: Option<&str>,
    is_windows: bool,
) -> (l: String)
    requires
        pane_readable(pane@, config@, *process_info, process_snapshot.entries@, str_of(home), is_windows),
    ensures
        l@ == numbered(
            tab@.display_number as nat,
            pane_label(
                pane@,
                config@,
                *process_info,
                process_snapshot.entries@,
                str_of(home),
                is_windows,
            ),
            config@.show_tab_number,
        ),
{
    let base = desired_label_for_pane(
        pane,
        config,
        process_info,
        process_snapshot,
        home,
        is_windows,
    );
    format_tab_label(tab.display_number, base.as_str(), config)
}

/// Whether every name that is looked at for the program in the foreground can be
/// read.
pub fn foreground_is_readable(
    info: &PaneProcessInfo,
    snapshot: &PlatformProcessSnapshot,
    is_windows: bool,
) -> (b: bool)
    ensures
        b == foreground_readable(*info, snapshot.entries@, is_windows),
{
    if !processes_are_readable(info.processes.as_slice(), is_windows) {
        return false;
    }
    if !is_windows {
        return true;
    }
    if select_foreground_process(info.processes.as_slice(), is_windows).is_some() {
        return true;
    }
    match info.shell_pid {
        Some(pid) => tree_is_readable(snapshot.entries.as_slice(), pid),
        None => true,
    }
}

/// Whether a directory can be compared with the home directory, where this is done.
pub fn directory_is_showable(cwd: &str, config: &PluginConfig, home: Option<&str>) -> (b: bool)
    ensures
        b == showable(cwd@, config@, str_of(home)),
{
    if !config.shorten_home_directory {
        return true;
    }
    match home {
        Some(h) => is_comparable(cwd, h),
        None => true,
    }
}

/// Whether everything that is looked at for the label of a pane can be read.
pub fn pane_is_readable(
    pane: &Pane,
    config: &PluginConfig,
    info: &PaneProcessInfo,
    snapshot: &PlatformProcessSnapshot,
    home: Option<&str>,
    is_windows: bool,
) -> (b: bool)
    ensures
        b == pane_readable(pane@, config@, *info, snapshot.entries@, str_of(home), is_windows),
{
    if agents_are_looked_for(config, is_windows) && agent_label(as_deref(&pane.agent)).is_some() {
        return true;
    }
    if !foreground_is_readable(info, snapshot, is_windows) {
        return false;
    }
    if foreground_label(info, snapshot, is_windows).is_some() {
        return true;
    }
    let cwd = match pane_directory(pane) {
        Some(cwd) => cwd,
        None => "/",
    };
    directory_is_showable(cwd, config, home)
}

// ---------------------------------------------------------------- window titles

/// What the placeholders of a window title stand for: the focused tab under its
/// label, its pane, and the program in the foreground of the pane.
pub open spec fn title_values(
    tab: TabView,
    tab_label: Seq<char>,
    pane: Option<PaneView>,
    process: Option<Seq<char>>,
    workspace: Option<Seq<char>>,
    config: Settings,
    hostname: Option<Seq<char>>,
    home: Option<Seq<char>>,
    is_windows: bool,
) -> TitleValues {
    let cwd = match pane {
        Some(p) => directory_of(p),
        None => None,
    };
    TitleValues {
        hostname,
        hostname_lowercase: match hostname {
            Some(h) => Some(lower_all(h)),
            None => None,
        },
        hostname_uppercase: match hostname {
            Some(h) => Some(upper_all(h)),
            None => None,
        },
        tab_label,
        internal_title: match pane {
            Some(p) => p.internal_title,
            None => None,
        },
        tab_number: tab.display_number as nat,
        workspace,
        cwd,
        directory: match cwd {
            Some(c) => Some(shown(c, config, home, is_windows)),
            None => None,
        },
        process,
        agent: match pane {
            Some(p) => p.agent,
            None => None,
        },
    }
}

/// The directory of the pane can be compared with the home directory, where this
/// is done.
pub open spec fn title_readable(
    pane: Option<PaneView>,
    config: Settings,
    home: Option<Seq<char>>,
) -> bool {
    pane matches Some(p) ==> (directory_of(p) matches Some(cwd) ==> showable(cwd, config, home))
}

/// Whether the directory of the pane can be compared with the home directory, where
/// this is done.
pub fn title_is_readable(pane: Option<&Pane>, config: &PluginConfig, home: Option<&str>) -> (b: bool)
    ensures
        b == title_readable(
            match pane {
                Some(p) => Some(p@),
                None => None,
            },
            config@,
            str_of(home),
        ),
{
    match pane {
        Some(p) => match pane_directory(p) {
            Some(cwd) => directory_is_showable(cwd, config, home),
            None => true,
        },
        None => true,
    }
}

/// The window title for the focused tab, by the template of the settings.
pub fn window_title(
    tab: &Tab,
    tab_label: &str,
    pane: Option<&Pane>,
    process: Option<&str>,
    workspace: Option<&str>,
    config: &PluginConfig,
    hostname: Option<&str>,
    home: Option<&str>,
    is_windows: bool,
) -> (r: Result<String, TemplateError>)
    requires
        title_readable(
            match pane {
                Some(p) => Some(p@),
                None => None,
            },
            config@,
            str_of(home),
        ),
    ensures
        match title_of(
            config@.terminal_title_template,
            title_values(
                tab@,
                tab_label@,
                match pane {
                    Some(p) => Some(p@),
                    None => None,
                },
                str_of(process),
                str_of(workspace),
                config@,
                str_of(hostname),
                str_of(home),
                is_windows,
            ),
        ) {
            Ok(text) => r matches Ok(title) && title@ == text,
            Err(fault) => r matches Err(e) && e@ == fault,
        },
{
    let cwd = match pane {
        Some(p) => pane_directory(p),
        None => None,
    };
    let directory = match cwd {
        Some(c) => Some(show_directory(c, config, home, is_windows)),
        None => None,
    };
    let hostname_lowercase = match hostname {
        Some(h) => Some(to_ascii_lowercase(h)),
        None => None,
    };
    let hostname_uppercase = match hostname {
        Some(h) => Some(to_ascii_uppercase(h)),
        None => None,
    };
    let context = WindowTitleContext {
        hostname,
        hostname_lowercase: as_deref(&hostname_lowercase),
        hostname_uppercase: as_deref(&hostname_uppercase),
        tab_label,
        internal_title: match pane {
            Some(p) => as_deref(&p.internal_title),
            None => None,
        },
        tab_number: tab.display_number,
        workspace,
        cwd,
        directory: as_deref(&directory),
        process,
        agent: match pane {
            Some(p) => as_deref(&p.agent),
            None => None,
        },
    };
    render_window_title(config.terminal_title_template.as_str(), &context)
}

// -------------------------------------------------------------------------- laws

/// The agent of a pane comes before the program in the foreground, unless agents are
/// not looked for.
pub proof fn law_agent_comes_first(
    info: PaneProcessInfo,
    agent: Option<Seq<char>>,
    entries: Seq<WindowsProcessEntry>,
    is_windows: bool,
)
    ensures
        agent_name(agent) is Some ==> detected(info, agent, entries, true, is_windows)
            == agent_name(agent),
        agent_name(agent) is None ==> detected(info, agent, entries, true, is_windows)
            == foreground(info, entries, is_windows),
        detected(info, agent, entries, false, is_windows) == foreground(info, entries, is_windows),
{
}

/// Away from Windows the process tree is not looked at.
pub proof fn law_process_tree_counts_on_windows_only(
    info: PaneProcessInfo,
    a: Seq<WindowsProcessEntry>,
    b: Seq<WindowsProcessEntry>,
)
    ensures
        foreground(info, a, false) == foreground(info, b, false),
        foreground_readable(info, a, false),
{
}

/// Away from Windows the settings for Windows count for nothing: neither the label of
/// a pane nor what can be read depends on them, nor on the process tree.
pub proof fn law_windows_settings_count_on_windows_only(
    pane: PaneView,
    config: Settings,
    process_detection: bool,
    agent_detection: bool,
    info: PaneProcessInfo,
    a: Seq<WindowsProcessEntry>,
    b: Seq<WindowsProcessEntry>,
    home: Option<Seq<char>>,
)
    ensures
        ({
            let other = Settings {
                windows_process_detection: process_detection,
                windows_agent_detection: agent_detection,
                ..config
            };
            &&& pane_label(pane, config, info, a, home, false) == pane_label(
                pane,
                other,
                info,
                b,
                home,
                false,
            )
            &&& pane_readable(pane, config, info, a, home, false) == pane_readable(
                pane,
                other,
                info,
                b,
                home,
                false,
            )
        }),
{
}

/// The label of a managed tab is clean: it has no blank characters but single spaces
/// between other characters, and is no longer than labels may be.
pub proof fn law_tab_labels_are_clean(
    number: nat,
    pane: PaneView,
    config: Settings,
    info: PaneProcessInfo,
    entries: Seq<WindowsProcessEntry>,
    home: Option<Seq<char>>,
    is_windows: bool,
)
    ensures
        is_clean(pane_label(pane, config, info, entries, home, is_windows)),
        is_clean(
            numbered(
                number,
                pane_label(pane, config, info, entries, home, is_windows),
                config.show_tab_number,
            ),
        ),
{
    let base = pane_label(pane, config, info, entries, home, is_windows);
    match detected(info, pane.agent, entries, looks_for_agents(config, is_windows), is_windows) {
        Some(name) => {
            law_sanitized_label_is_clean(name);
        },
        None => {
            law_sanitized_label_is_clean(
                idle_text(
                    shown(idle_directory(pane), config, home, is_windows),
                    idle_shell(info, is_windows),
                    config.idle_label_mode,
                    config.idle_shell_separator,
                ),
            );
        },
    }
    law_sanitized_label_is_clean(decimal(number).push(':') + base);
}

/// A pane is called after its agent, where agents are looked for and it has one; else
/// after the program in the foreground, and on Windows also after the one that the
/// process tree shows; else after its directory and its shell, as the settings say.
/// The directory is that of the foreground, else the pane's own, else the root; the
/// home directory counts where directories are shortened.
pub proof fn law_panes_are_called_after_what_runs(
    pane: PaneView,
    config: Settings,
    info: PaneProcessInfo,
    entries: Seq<WindowsProcessEntry>,
    home: Option<Seq<char>>,
    is_windows: bool,
)
    ensures
        ({
            let called = pane_label(pane, config, info, entries, home, is_windows);
            let agent = config.agent_detection && (!is_windows || config.windows_agent_detection) && (
            pane.agent matches Some(name) && trim(name).len() > 0);
            let program = best(info.processes@, Kind::Program, is_windows);
            let tree = match info.shell_pid {
                Some(pid) => if is_windows {
                    candidate(entries, pid)
                } else {
                    None
                },
                None => None,
            };
            let path = match pane.foreground_cwd {
                Some(cwd) => cwd,
                None => match pane.cwd {
                    Some(cwd) => cwd,
                    None => "/"@,
                },
            };
            let directory = label_with_home(
                path,
                config.directory_depth as nat,
                if config.shorten_home_directory {
                    home
                } else {
                    None
                },
                is_windows,
            );
            &&& agent ==> called == clean(trim(pane.agent->0))
            &&& !agent && program is Some ==> called == clean(
                label(info.processes@[program->0], is_windows),
            )
            &&& !agent && program is None && tree is Some ==> called == clean(
                without_exe(
                    basename_or(entries[tree->0].name@, entries[tree->0].name@),
                    true,
                ),
            )
            &&& !agent && program is None && tree is None ==> match best(
                info.processes@,
                Kind::Shell,
                is_windows,
            ) {
                None => called == clean(directory),
                Some(i) => {
                    let shell = label(info.processes@[i], is_windows);
                    called == clean(
                        match config.idle_label_mode {
                            IdleLabelMode::Directory => directory,
                            IdleLabelMode::Shell => shell,
                            IdleLabelMode::DirectoryShell => directory + config.idle_shell_separator
                                + shell,
                        },
                    )
                },
            }
        }),
{
}

/// A pane in which nothing but shells runs is idle: no program is in its foreground,
/// and without an agent the settings for idle panes say what it is called.
pub proof fn law_shells_alone_are_idle(
    pane: PaneView,
    config: Settings,
    info: PaneProcessInfo,
    entries: Seq<WindowsProcessEntry>,
    home: Option<Seq<char>>,
)
    ensures
        (forall|i: int|
            0 <= i < info.processes@.len() ==> shells().contains(
                lowercase(bare_name(label(#[trigger] info.processes@[i], false))),
            )) ==> {
            &&& foreground(info, entries, false) is None
            &&& pane.agent is None && config.idle_label_mode == IdleLabelMode::Directory
                ==> pane_label(pane, config, info, entries, home, false) == clean(
                shown(idle_directory(pane), config, home, false),
            )
        },
{
    law_best_process_is_best(info.processes@, Kind::Program, false);
    if let Some(i) = best(info.processes@, Kind::Program, false) {
        law_shells_are_known_by_name(info.processes@[i], false);
    }
}

} // verus!
