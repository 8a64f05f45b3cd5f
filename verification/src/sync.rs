//! A sync: every tab gets the label that it should have, and the window its title.
//!
//! A sync asks Herdr and waits for the replies in turn. It is written as a machine:
//! `sync_once` takes what has happened and says what is to be done next.
use crate::config::{load_plugin_config, settings_of_file, ConfigError, PluginConfig, Settings};
use crate::directory::views;
use crate::herdr::{Request, RequestView};
use crate::label::{numbered, renumbered};
use crate::naming::{
    desired_label_for_tab, foreground, foreground_is_readable, foreground_process_name,
    foreground_readable, pane_is_readable, pane_label, pane_readable, title_is_readable,
    title_readable, title_values, window_title,
};
use crate::process::PaneProcessInfo;
use crate::tab::{
    desired_label_for_manual_tab, group_panes_by_tab, grouped, law_source_is_a_pane_of_the_tab,
    layout_decides, manages, needs_layout, pane_views, save_label_state_if_changed,
    select_tab_source_pane, should_manage_tab, source_of, tab_views, LabelState, Pane, PaneGroups,
    PaneView, Tab, TabView,
};
use crate::template::{
    is_template, law_accepted_templates_never_fail, title_of, TemplateError, TemplateFault,
};
use crate::text::{as_deref, same_text, str_of, text_of};
use crate::text_map::TextMap;
use crate::windows::{PlatformProcessSnapshot, WindowsProcessEntry};
use vstd::prelude::*;
use vstd::string::StrSliceExecFns;

verus! {

// -------------------------------------------------------------------------- types

/// What a sync needs to know of the machine.
#[derive(Debug)]
pub struct Environment {
    pub home: Option<String>,
    pub hostname: Option<String>,
    pub is_windows: bool,
}

/// `Environment`, with its strings as sequences.
pub struct EnvironmentView {
    pub home: Option<Seq<char>>,
    pub hostname: Option<Seq<char>>,
    pub is_windows: bool,
}

impl View for Environment {
    type V = EnvironmentView;

    open spec fn view(&self) -> EnvironmentView {
        EnvironmentView {
            home: text_of(self.home),
            hostname: text_of(self.hostname),
            is_windows: self.is_windows,
        }
    }
}

/// What has happened.
#[derive(Debug)]
pub enum Event {
    /// The sync begins.
    Begin,
    /// Herdr listed the tabs.
    Tabs(Vec<Tab>),
    /// Herdr listed the panes.
    Panes(Vec<Pane>),
    /// The processes of the machine were listed, or could not be.
    Snapshot(Option<PlatformProcessSnapshot>),
    /// Herdr listed the labels of the workspaces, by their ids.
    Workspaces(TextMap),
    /// The layout of a tab names the pane with the focus.
    Layout(String),
    /// Herdr listed the processes of a pane.
    Processes(PaneProcessInfo),
    /// A tab was given its label.
    Renamed,
    /// Herdr took the window title; whether there was a terminal to show it.
    TitleSet(bool),
    /// The last request failed.
    Failed,
}

/// `Event`, with its strings and rows as sequences.
pub enum EventView {
    Begin,
    Tabs(Seq<TabView>),
    Panes(Seq<PaneView>),
    Snapshot(Option<Seq<WindowsProcessEntry>>),
    Workspaces(Map<Seq<char>, Seq<char>>),
    Layout(Seq<char>),
    Processes(PaneProcessInfo),
    Renamed,
    TitleSet(bool),
    Failed,
}

impl View for Event {
    type V = EventView;

    open spec fn view(&self) -> EventView {
        match self {
            Event::Begin => EventView::Begin,
            Event::Tabs(tabs) => EventView::Tabs(tab_views(tabs@)),
            Event::Panes(panes) => EventView::Panes(pane_views(panes@)),
            Event::Snapshot(Some(snapshot)) => EventView::Snapshot(Some(snapshot.entries@)),
            Event::Snapshot(None) => EventView::Snapshot(None),
            Event::Workspaces(labels) => EventView::Workspaces(labels@),
            Event::Layout(pane_id) => EventView::Layout(pane_id@),
            Event::Processes(info) => EventView::Processes(*info),
            Event::Renamed => EventView::Renamed,
            Event::TitleSet(shown) => EventView::TitleSet(*shown),
            Event::Failed => EventView::Failed,
        }
    }
}

/// What is to be done next.
#[derive(Debug, PartialEq, Eq)]
pub enum Action {
    /// Ask Herdr.
    Ask(Request),
    /// List the processes of the machine.
    TakeSnapshot,
    /// Give a tab its label; `manual` where the tab was named by hand.
    Rename { tab_id: String, label: String, manual: bool },
    /// Set the window title, for a tab with that label.
    SetTitle { tab_label: String, title: String },
    /// End: the template of the window title has a fault.
    Refuse { tab_label: String, error: TemplateError },
    /// End: there was no terminal to show the window title.
    Undelivered { tab_label: String },
    /// End: what was asked for failed.
    Stop,
    /// End: so many tabs were given a label; `save` where the labels that were given
    /// to tabs are to be saved.
    Done { changed: usize, save: bool },
}

/// `Action`, with its strings as sequences.
pub enum ActionView {
    Ask(RequestView),
    TakeSnapshot,
    Rename { tab_id: Seq<char>, label: Seq<char>, manual: bool },
    SetTitle { tab_label: Seq<char>, title: Seq<char> },
    Refuse { tab_label: Seq<char>, fault: TemplateFault },
    Undelivered { tab_label: Seq<char> },
    Stop,
    Done { changed: nat, save: bool },
}

impl View for Action {
    type V = ActionView;

    open spec fn view(&self) -> ActionView {
        match self {
            Action::Ask(request) => ActionView::Ask(request@),
            Action::TakeSnapshot => ActionView::TakeSnapshot,
            Action::Rename { tab_id, label, manual } => ActionView::Rename {
                tab_id: tab_id@,
                label: label@,
                manual: *manual,
            },
            Action::SetTitle { tab_label, title } => ActionView::SetTitle {
                tab_label: tab_label@,
                title: title@,
            },
            Action::Refuse { tab_label, error } => ActionView::Refuse {
                tab_label: tab_label@,
                fault: error@,
            },
            Action::Undelivered { tab_label } => ActionView::Undelivered { tab_label: tab_label@ },
            Action::Stop => ActionView::Stop,
            Action::Done { changed, save } => ActionView::Done {
                changed: *changed as nat,
                save: *save,
            },
        }
    }
}

/// What a sync waits for.
#[derive(Debug)]
enum Stage {
    Start,
    Tabs,
    Panes,
    Snapshot,
    Workspaces,
    /// The layout of the tab at hand.
    Layout,
    /// The processes of the pane that the tab at hand is named after.
    Processes(Pane),
    /// The tab at hand gets its label.
    Renaming { label: String, manual: bool },
    /// The processes of the focused pane.
    TitleProcesses,
    /// The window gets its title.
    Title,
    Over,
}

/// `Stage`, with its strings as sequences.
pub enum StageView {
    Start,
    Tabs,
    Panes,
    Snapshot,
    Workspaces,
    Layout,
    Processes(PaneView),
    Renaming { label: Seq<char>, manual: bool },
    TitleProcesses,
    Title,
    Over,
}

impl Stage {
    closed spec fn view(&self) -> StageView {
        match self {
            Stage::Start => StageView::Start,
            Stage::Tabs => StageView::Tabs,
            Stage::Panes => StageView::Panes,
            Stage::Snapshot => StageView::Snapshot,
            Stage::Workspaces => StageView::Workspaces,
            Stage::Layout => StageView::Layout,
            Stage::Processes(pane) => StageView::Processes(pane@),
            Stage::Renaming { label, manual } => StageView::Renaming {
                label: label@,
                manual: *manual,
            },
            Stage::TitleProcesses => StageView::TitleProcesses,
            Stage::Title => StageView::Title,
            Stage::Over => StageView::Over,
        }
    }
}

/// The tab with the focus, and the label that it has by now.
pub struct Focus {
    pub tab: TabView,
    pub label: Seq<char>,
}

/// A sync under way.
#[verifier::ext_equal]
pub struct SyncView {
    pub config: Settings,
    pub force: bool,
    pub environment: EnvironmentView,
    /// The labels that had been given to tabs before.
    pub before: Map<Seq<char>, Seq<char>>,
    /// The labels that are given to tabs.
    pub labels: Map<Seq<char>, Seq<char>>,
    pub tabs: Seq<TabView>,
    /// The panes by their tabs.
    pub groups: Map<Seq<char>, Seq<PaneView>>,
    /// The processes of the machine, where they were listed.
    pub snapshot: Seq<WindowsProcessEntry>,
    /// The labels of the workspaces.
    pub workspaces: Map<Seq<char>, Seq<char>>,
    /// The place of the tab at hand.
    pub next: nat,
    /// How many tabs were given a label.
    pub changed: nat,
    /// The last tab with the focus so far.
    pub focused: Option<Focus>,
    /// The pane that it is named after.
    pub focused_pane: Option<PaneView>,
    pub stage: StageView,
}

/// A sync under way.
#[derive(Debug)]
pub struct SyncRun {
    config: PluginConfig,
    force: bool,
    environment: Environment,
    before: LabelState,
    state: LabelState,
    tabs: Vec<Tab>,
    groups: PaneGroups,
    snapshot: PlatformProcessSnapshot,
    workspaces: TextMap,
    next: usize,
    changed: usize,
    focused: Option<(Tab, String)>,
    focused_pane: Option<Pane>,
    stage: Stage,
}

/// The view of an optional pane.
pub open spec fn pane_of(pane: Option<Pane>) -> Option<PaneView> {
    match pane {
        Some(p) => Some(p@),
        None => None,
    }
}

impl View for SyncRun {
    type V = SyncView;

    closed spec fn view(&self) -> SyncView {
        SyncView {
            config: self.config@,
            force: self.force,
            environment: self.environment@,
            before: self.before.labels@,
            labels: self.state.labels@,
            tabs: tab_views(self.tabs@),
            groups: self.groups@,
            snapshot: self.snapshot.entries@,
            workspaces: self.workspaces@,
            next: self.next as nat,
            changed: self.changed as nat,
            focused: match self.focused {
                Some((tab, label)) => Some(Focus { tab: tab@, label: label@ }),
                None => None,
            },
            focused_pane: pane_of(self.focused_pane),
            stage: self.stage.view(),
        }
    }
}

// ---------------------------------------------------------------------- the steps

/// What comes of a visit to a tab.
pub enum Outcome {
    /// Something is to be done.
    Act(SyncView, ActionView),
    /// The next tab follows.
    Next(SyncView),
}

/// The tab at hand.
pub open spec fn current(v: SyncView) -> TabView {
    v.tabs[v.next as int]
}

/// The sync, after the tab at hand got a label: where it has the focus, the window
/// title goes by the new label.
pub open spec fn refocused(v: SyncView, label: Seq<char>) -> SyncView {
    if current(v).focused {
        SyncView { focused: Some(Focus { tab: current(v), label }), ..v }
    } else {
        v
    }
}

/// A tab that was named by hand: it is no longer managed, and gets no more than its
/// tab number.
pub open spec fn by_hand(v: SyncView) -> Outcome {
    let tab = current(v);
    let w = SyncView { labels: v.labels.remove(tab.tab_id), ..v };
    match renumbered(tab.label, tab.display_number as nat, v.config.show_tab_number) {
        Some(label) => Outcome::Act(
            SyncView { stage: StageView::Renaming { label, manual: true }, ..w },
            ActionView::Rename { tab_id: tab.tab_id, label, manual: true },
        ),
        None => Outcome::Next(w),
    }
}

/// A visit to a tab, once it is known which pane it is named after.
pub open spec fn with_source(v: SyncView, layout: Option<Seq<char>>) -> Outcome {
    let tab = current(v);
    let source = source_of(tab, v.groups[tab.tab_id], layout);
    let w = if tab.focused {
        SyncView { focused_pane: source, ..v }
    } else {
        v
    };
    if !manages(tab, v.labels, v.force) {
        by_hand(w)
    } else {
        match source {
            Some(pane) => Outcome::Act(
                SyncView { stage: StageView::Processes(pane), ..w },
                ActionView::Ask(RequestView::Processes { pane_id: pane.pane_id }),
            ),
            None => Outcome::Next(w),
        }
    }
}

/// A visit to the tab at hand. A tab without panes is passed over; the pane is
/// looked for where the tab is managed or has the focus.
pub open spec fn enter(v: SyncView) -> Outcome {
    let tab = current(v);
    let w = refocused(v, tab.label);
    if !v.groups.dom().contains(tab.tab_id) {
        Outcome::Next(w)
    } else if manages(tab, v.labels, v.force) || tab.focused {
        let group = v.groups[tab.tab_id];
        if layout_decides(tab, group) {
            Outcome::Act(
                SyncView { stage: StageView::Layout, ..w },
                ActionView::Ask(RequestView::Layout { pane_id: group[0].pane_id }),
            )
        } else {
            with_source(w, None)
        }
    } else {
        by_hand(w)
    }
}

/// The tab at hand has the label that it should have, which is remembered.
pub open spec fn settled(v: SyncView, label: Seq<char>) -> SyncView {
    let w = refocused(v, label);
    SyncView { labels: w.labels.insert(current(v).tab_id, label), ..w }
}

/// The label that the tab at hand should have, by its pane and the processes of the
/// pane.
pub open spec fn wanted(v: SyncView, pane: PaneView, info: PaneProcessInfo) -> Seq<char> {
    numbered(
        current(v).display_number as nat,
        pane_label(
            pane,
            v.config,
            info,
            v.snapshot,
            v.environment.home,
            v.environment.is_windows,
        ),
        v.config.show_tab_number,
    )
}

/// A visit to a managed tab, once the processes of its pane are known.
pub open spec fn named(v: SyncView, pane: PaneView, info: PaneProcessInfo) -> Outcome {
    let label = wanted(v, pane, info);
    if label.len() == 0 {
        Outcome::Next(v)
    } else if current(v).label != label {
        Outcome::Act(
            SyncView { stage: StageView::Renaming { label, manual: false }, ..v },
            ActionView::Rename { tab_id: current(v).tab_id, label, manual: false },
        )
    } else {
        Outcome::Next(settled(v, label))
    }
}

/// The sync, after the tab at hand was given a label. That of a tab that was named
/// by hand is not remembered.
pub open spec fn renamed(v: SyncView, label: Seq<char>, manual: bool) -> SyncView {
    let w = SyncView { changed: v.changed + 1, ..v };
    if manual {
        refocused(w, label)
    } else {
        settled(w, label)
    }
}

/// The end of a sync that went well.
pub open spec fn done(v: SyncView) -> (SyncView, ActionView) {
    (
        SyncView { stage: StageView::Over, ..v },
        ActionView::Done { changed: v.changed, save: v.before != v.labels },
    )
}

/// The end of a sync for another reason.
pub open spec fn over(v: SyncView, action: ActionView) -> (SyncView, ActionView) {
    (SyncView { stage: StageView::Over, ..v }, action)
}

/// The label of the workspace of a tab.
pub open spec fn workspace_of(v: SyncView, tab: TabView) -> Option<Seq<char>> {
    if v.workspaces.dom().contains(tab.workspace_id) {
        Some(v.workspaces[tab.workspace_id])
    } else {
        None
    }
}

/// The window title is set, once the program in the foreground is known.
pub open spec fn entitle(v: SyncView, process: Option<Seq<char>>) -> (SyncView, ActionView) {
    let focus = v.focused->0;
    match title_of(
        v.config.terminal_title_template,
        title_values(
            focus.tab,
            focus.label,
            v.focused_pane,
            process,
            workspace_of(v, focus.tab),
            v.config,
            v.environment.hostname,
            v.environment.home,
            v.environment.is_windows,
        ),
    ) {
        Ok(title) => (
            SyncView { stage: StageView::Title, ..v },
            ActionView::SetTitle { tab_label: focus.label, title },
        ),
        Err(fault) => over(v, ActionView::Refuse { tab_label: focus.label, fault }),
    }
}

/// What follows the last tab: the window title, where the settings ask for one and
/// a tab has the focus.
pub open spec fn finish(v: SyncView) -> (SyncView, ActionView) {
    if v.config.set_window_title && v.focused is Some {
        match v.focused_pane {
            Some(pane) => (
                SyncView { stage: StageView::TitleProcesses, ..v },
                ActionView::Ask(RequestView::Processes { pane_id: pane.pane_id }),
            ),
            None => entitle(v, None),
        }
    } else {
        done(v)
    }
}

/// The sync from the tab at hand on, until something is to be done.
pub open spec fn visit(v: SyncView) -> (SyncView, ActionView)
    decreases v.tabs.len() - v.next,
{
    if v.next >= v.tabs.len() {
        finish(v)
    } else {
        match enter(v) {
            Outcome::Act(w, action) => (w, action),
            Outcome::Next(w) => visit(SyncView { next: v.next + 1, ..w }),
        }
    }
}

/// What follows a visit to a tab.
pub open spec fn go_on(outcome: Outcome) -> (SyncView, ActionView) {
    match outcome {
        Outcome::Act(w, action) => (w, action),
        Outcome::Next(w) => visit(SyncView { next: w.next + 1, ..w }),
    }
}

/// The ids of the tabs.
pub open spec fn tab_ids(tabs: Seq<TabView>) -> Seq<Seq<char>> {
    tabs.map_values(|t: TabView| t.tab_id)
}

/// The first tab follows. The labels of tabs that are gone are forgotten.
pub open spec fn first_tab(v: SyncView) -> (SyncView, ActionView) {
    visit(SyncView { labels: v.labels.restrict(tab_ids(v.tabs).to_set()), ..v })
}

/// What follows the list of processes: the workspaces, where a window title is to
/// be set.
pub open spec fn after_snapshot(v: SyncView) -> (SyncView, ActionView) {
    if v.config.set_window_title {
        (
            SyncView { stage: StageView::Workspaces, ..v },
            ActionView::Ask(RequestView::ListWorkspaces),
        )
    } else {
        first_tab(v)
    }
}

/// What follows an event. A failure ends the sync, but for two: without the layout
/// a tab is named after its first pane, and without its processes the focused pane
/// has no program in the foreground.
pub open spec fn step(v: SyncView, event: EventView) -> (SyncView, ActionView) {
    match (v.stage, event) {
        (StageView::Start, EventView::Begin) => (
            SyncView { stage: StageView::Tabs, ..v },
            ActionView::Ask(RequestView::ListTabs),
        ),
        (StageView::Tabs, EventView::Tabs(tabs)) => (
            SyncView { tabs, stage: StageView::Panes, ..v },
            ActionView::Ask(RequestView::ListPanes),
        ),
        (StageView::Panes, EventView::Panes(panes)) => {
            let w = SyncView { groups: grouped(panes), ..v };
            if v.config.windows_process_detection {
                (SyncView { stage: StageView::Snapshot, ..w }, ActionView::TakeSnapshot)
            } else {
                after_snapshot(w)
            }
        },
        (StageView::Snapshot, EventView::Snapshot(Some(snapshot))) => after_snapshot(
            SyncView { snapshot, ..v },
        ),
        (StageView::Snapshot, EventView::Snapshot(None)) => after_snapshot(v),
        (StageView::Workspaces, EventView::Workspaces(workspaces)) => first_tab(
            SyncView { workspaces, ..v },
        ),
        (StageView::Layout, EventView::Layout(pane_id)) => go_on(with_source(v, Some(pane_id))),
        (StageView::Layout, EventView::Failed) => go_on(with_source(v, None)),
        (StageView::Processes(pane), EventView::Processes(info)) => go_on(named(v, pane, info)),
        (StageView::Renaming { label, manual }, EventView::Renamed) => go_on(
            Outcome::Next(renamed(v, label, manual)),
        ),
        (StageView::TitleProcesses, EventView::Processes(info)) => entitle(
            v,
            foreground(info, v.snapshot, v.environment.is_windows),
        ),
        (StageView::TitleProcesses, EventView::Failed) => entitle(v, None),
        (StageView::Title, EventView::TitleSet(shown)) => if shown {
            done(v)
        } else {
            over(v, ActionView::Undelivered { tab_label: v.focused->0.label })
        },
        _ => over(v, ActionView::Stop),
    }
}

/// A sync as it starts.
pub open spec fn started(
    config: Settings,
    labels: Map<Seq<char>, Seq<char>>,
    force: bool,
    environment: EnvironmentView,
) -> SyncView {
    SyncView {
        config,
        force,
        environment,
        before: labels,
        labels,
        tabs: seq![],
        groups: Map::empty(),
        snapshot: seq![],
        workspaces: Map::empty(),
        next: 0,
        changed: 0,
        focused: None,
        focused_pane: None,
        stage: StageView::Start,
    }
}

/// Everything that has to be looked at for this event can be read.
pub open spec fn accepts(v: SyncView, event: EventView) -> bool {
    match (v.stage, event) {
        (StageView::Processes(pane), EventView::Processes(info)) => pane_readable(
            pane,
            v.config,
            info,
            v.snapshot,
            v.environment.home,
            v.environment.is_windows,
        ),
        (StageView::TitleProcesses, EventView::Processes(info)) => foreground_readable(
            info,
            v.snapshot,
            v.environment.is_windows,
        ) && title_readable(v.focused_pane, v.config, v.environment.home),
        (StageView::TitleProcesses, EventView::Failed) => title_readable(
            v.focused_pane,
            v.config,
            v.environment.home,
        ),
        _ => true,
    }
}

/// No more tabs were given a label than were visited.
pub open spec fn counts(v: SyncView) -> bool {
    v.changed <= v.next <= v.tabs.len()
}

/// What holds of every sync: there is a tab at hand where one is visited, and one
/// with the focus where the window gets its title, which the settings ask for.
pub open spec fn sound(v: SyncView) -> bool {
    &&& counts(v)
    &&& v.tabs.len() <= usize::MAX
    &&& match v.stage {
        StageView::Start
        | StageView::Tabs
        | StageView::Panes
        | StageView::Snapshot
        | StageView::Workspaces => v.next == 0,
        StageView::Layout => v.next < v.tabs.len() && v.groups.dom().contains(current(v).tab_id),
        StageView::Processes(_) => v.next < v.tabs.len(),
        StageView::Renaming { .. } => v.next < v.tabs.len(),
        StageView::TitleProcesses | StageView::Title => v.focused is Some
            && v.config.set_window_title,
        StageView::Over => true,
    }
}

proof fn lemma_visit_is_sound(v: SyncView)
    requires
        counts(v),
        v.tabs.len() <= usize::MAX,
    ensures
        sound(visit(v).0),
    decreases v.tabs.len() - v.next,
{
    if v.next < v.tabs.len() {
        if let Outcome::Next(w) = enter(v) {
            lemma_visit_is_sound(SyncView { next: v.next + 1, ..w });
        }
    }
}

/// Whatever happens, a sync stays sound.
pub proof fn law_sync_stays_sound(v: SyncView, event: EventView)
    requires
        sound(v),
        event matches EventView::Tabs(tabs) ==> tabs.len() <= usize::MAX,
    ensures
        sound(step(v, event).0),
{
    match (v.stage, event) {
        (StageView::Panes, EventView::Panes(panes)) => {
            let w = SyncView { groups: grouped(panes), ..v };
            lemma_first_tab_is_sound(w);
        },
        (StageView::Snapshot, EventView::Snapshot(Some(snapshot))) => {
            lemma_first_tab_is_sound(SyncView { snapshot, ..v });
        },
        (StageView::Snapshot, EventView::Snapshot(None)) => {
            lemma_first_tab_is_sound(v);
        },
        (StageView::Workspaces, EventView::Workspaces(workspaces)) => {
            lemma_first_tab_is_sound(SyncView { workspaces, ..v });
        },
        (StageView::Layout, EventView::Layout(pane_id)) => {
            lemma_going_on_is_sound(with_source(v, Some(pane_id)));
        },
        (StageView::Layout, EventView::Failed) => {
            lemma_going_on_is_sound(with_source(v, None));
        },
        (StageView::Processes(pane), EventView::Processes(info)) => {
            lemma_going_on_is_sound(named(v, pane, info));
        },
        (StageView::Renaming { label, manual }, EventView::Renamed) => {
            lemma_visit_is_sound(SyncView { next: v.next + 1, ..renamed(v, label, manual) });
        },
        _ => {},
    }
}

proof fn lemma_first_tab_is_sound(v: SyncView)
    requires
        counts(v),
        v.tabs.len() <= usize::MAX,
    ensures
        sound(first_tab(v).0),
{
    lemma_visit_is_sound(SyncView { labels: v.labels.restrict(tab_ids(v.tabs).to_set()), ..v });
}

proof fn lemma_going_on_is_sound(outcome: Outcome)
    requires
        outcome matches Outcome::Act(w, _) ==> sound(w),
        outcome matches Outcome::Next(w) ==> counts(w) && w.next < w.tabs.len() && w.tabs.len()
            <= usize::MAX,
    ensures
        sound(go_on(outcome).0),
{
    if let Outcome::Next(w) = outcome {
        lemma_visit_is_sound(SyncView { next: w.next + 1, ..w });
    }
}

// -------------------------------------------------------------------- the machine

/// A visit came to this: the sync as it is now, and what is to be done.
spec fn comes_to(outcome: Outcome, v: SyncView, action: Option<Action>) -> bool {
    match outcome {
        Outcome::Act(w, a) => v == w && (action matches Some(x) && x@ == a),
        Outcome::Next(w) => v == w && action is None,
    }
}

impl SyncRun {
    /// What holds of every sync.
    pub open spec fn wf(self) -> bool {
        sound(self@)
    }

    /// The labels that are given to tabs.
    pub fn labels(&self) -> (state: &LabelState)
        ensures
            state.labels@ == self@.labels,
    {
        &self.state
    }

    /// Notes the label of the tab at hand, where it has the focus.
    fn refocus(&mut self, label: &str)
        requires
            old(self)@.next < old(self)@.tabs.len(),
        ensures
            final(self)@ == refocused(old(self)@, label@),
    {
        assert(self@.tabs[self.next as int] == self.tabs@[self.next as int]@);
        if self.tabs[self.next].focused {
            self.focused = Some((self.tabs[self.next].clone(), label.to_owned()));
        }
    }

    /// A tab that was named by hand.
    fn leave_by_hand(&mut self) -> (action: Option<Action>)
        requires
            old(self)@.next < old(self)@.tabs.len(),
        ensures
            comes_to(by_hand(old(self)@), final(self)@, action),
    {
        assert(self@.tabs[self.next as int] == self.tabs@[self.next as int]@);
        let tab = self.tabs[self.next].clone();
        self.state.labels.remove(tab.tab_id.as_str());
        match desired_label_for_manual_tab(&tab, &self.config) {
            Some(label) => {
                self.stage = Stage::Renaming { label: label.clone(), manual: true };
                Some(Action::Rename { tab_id: tab.tab_id, label, manual: true })
            },
            None => None,
        }
    }

    /// A visit to a tab, once it is known which pane it is named after.
    fn take_source(&mut self, layout: Option<&str>) -> (action: Option<Action>)
        requires
            old(self)@.next < old(self)@.tabs.len(),
            old(self)@.groups.dom().contains(current(old(self)@).tab_id),
        ensures
            comes_to(with_source(old(self)@, str_of(layout)), final(self)@, action),
    {
        assert(self@.tabs[self.next as int] == self.tabs@[self.next as int]@);
        let tab = self.tabs[self.next].clone();
        let manage = should_manage_tab(&tab, &self.state, self.force);
        let source = match self.groups.get(tab.tab_id.as_str()) {
            Some(group) => match select_tab_source_pane(&tab, group.as_slice(), layout) {
                Some(pane) => Some(pane.clone()),
                None => None,
            },
            None => None,
        };
        if tab.focused {
            self.focused_pane = match &source {
                Some(pane) => Some(pane.clone()),
                None => None,
            };
        }
        if !manage {
            return self.leave_by_hand();
        }
        match source {
            Some(pane) => {
                let pane_id = pane.pane_id.clone();
                self.stage = Stage::Processes(pane);
                Some(Action::Ask(Request::Processes { pane_id }))
            },
            None => None,
        }
    }

    /// A visit to the tab at hand.
    fn enter_tab(&mut self) -> (action: Option<Action>)
        requires
            old(self)@.next < old(self)@.tabs.len(),
        ensures
            comes_to(enter(old(self)@), final(self)@, action),
    {
        assert(self@.tabs[self.next as int] == self.tabs@[self.next as int]@);
        let tab = self.tabs[self.next].clone();
        self.refocus(tab.label.as_str());
        let manage = should_manage_tab(&tab, &self.state, self.force);
        match self.groups.get(tab.tab_id.as_str()) {
            None => {
                return None;
            },
            Some(group) => {
                if (manage || tab.focused) && needs_layout(&tab, group.as_slice()) {
                    assert(pane_views(group@)[0] == group@[0]@);
                    let pane_id = group[0].pane_id.clone();
                    self.stage = Stage::Layout;
                    return Some(Action::Ask(Request::Layout { pane_id }));
                }
            },
        }
        if manage || tab.focused {
            self.take_source(None)
        } else {
            self.leave_by_hand()
        }
    }

    /// Remembers the label of the tab at hand.
    fn settle(&mut self, label: String)
        requires
            old(self)@.next < old(self)@.tabs.len(),
        ensures
            final(self)@ == settled(old(self)@, label@),
    {
        assert(self@.tabs[self.next as int] == self.tabs@[self.next as int]@);
        self.refocus(label.as_str());
        let tab_id = self.tabs[self.next].tab_id.clone();
        self.state.labels.insert(tab_id, label);
    }

    /// A visit to a managed tab, once the processes of its pane are known.
    fn name_tab(&mut self, pane: &Pane, info: &PaneProcessInfo) -> (action: Option<Action>)
        requires
            old(self)@.next < old(self)@.tabs.len(),
            pane_readable(
                pane@,
                old(self)@.config,
                *info,
                old(self)@.snapshot,
                old(self)@.environment.home,
                old(self)@.environment.is_windows,
            ),
        ensures
            comes_to(named(old(self)@, pane@, *info), final(self)@, action),
    {
        assert(self@.tabs[self.next as int] == self.tabs@[self.next as int]@);
        let label = desired_label_for_tab(
            &self.tabs[self.next],
            pane,
            &self.config,
            info,
            &self.snapshot,
            as_deref(&self.environment.home),
            self.environment.is_windows,
        );
        if label.as_str().unicode_len() == 0 {
            return None;
        }
        if !same_text(self.tabs[self.next].label.as_str(), label.as_str()) {
            let tab_id = self.tabs[self.next].tab_id.clone();
            self.stage = Stage::Renaming { label: label.clone(), manual: false };
            return Some(Action::Rename { tab_id, label, manual: false });
        }
        self.settle(label);
        None
    }

    /// The end of a sync that went well.
    fn end(&mut self) -> (action: Action)
        ensures
            (final(self)@, action@) == done(old(self)@),
    {
        self.stage = Stage::Over;
        Action::Done {
            changed: self.changed,
            save: save_label_state_if_changed(&self.before, &self.state),
        }
    }

    /// Sets the window title, once the program in the foreground is known.
    fn set_title(&mut self, process: Option<&str>) -> (action: Action)
        requires
            old(self)@.focused is Some,
            title_readable(
                old(self)@.focused_pane,
                old(self)@.config,
                old(self)@.environment.home,
            ),
        ensures
            (final(self)@, action@) == entitle(old(self)@, str_of(process)),
    {
        match &self.focused {
            None => Action::Stop,
            Some((tab, label)) => {
                let tab_label = label.clone();
                let workspace = match self.workspaces.get(tab.workspace_id.as_str()) {
                    Some(workspace) => Some(workspace.as_str()),
                    None => None,
                };
                let pane = match &self.focused_pane {
                    Some(pane) => Some(pane),
                    None => None,
                };
                match window_title(
                    tab,
                    label.as_str(),
                    pane,
                    process,
                    workspace,
                    &self.config,
                    as_deref(&self.environment.hostname),
                    as_deref(&self.environment.home),
                    self.environment.is_windows,
                ) {
                    Ok(title) => {
                        self.stage = Stage::Title;
                        Action::SetTitle { tab_label, title }
                    },
                    Err(error) => {
                        self.stage = Stage::Over;
                        Action::Refuse { tab_label, error }
                    },
                }
            },
        }
    }

    /// What follows the last tab.
    fn finish_tabs(&mut self) -> (action: Action)
        ensures
            (final(self)@, action@) == finish(old(self)@),
    {
        if !self.config.set_window_title || self.focused.is_none() {
            return self.end();
        }
        let asked = match &self.focused_pane {
            Some(pane) => Some(pane.pane_id.clone()),
            None => None,
        };
        match asked {
            Some(pane_id) => {
                self.stage = Stage::TitleProcesses;
                Action::Ask(Request::Processes { pane_id })
            },
            None => self.set_title(None),
        }
    }

    /// The sync from the tab at hand on, until something is to be done.
    fn visit_tabs(&mut self) -> (action: Action)
        requires
            counts(old(self)@),
        ensures
            (final(self)@, action@) == visit(old(self)@),
    {
        let ghost begin = self@;
        while self.next < self.tabs.len()
            invariant
                begin == old(self)@,
                counts(self@),
                visit(self@) == visit(begin),
            decreases self.tabs@.len() - self.next,
        {
            let ghost before = self@;
            if let Some(action) = self.enter_tab() {
                return action;
            }
            self.next += 1;
            assert(self@ == (SyncView { next: before.next + 1, ..enter(before)->Next_0 }));
        }
        self.finish_tabs()
    }

    /// What follows a visit to a tab.
    fn continue_after(&mut self, action: Option<Action>) -> (next: Action)
        requires
            action is None ==> old(self)@.changed <= old(self)@.next + 1 <= old(self)@.tabs.len(),
        ensures
            match action {
                Some(a) => final(self)@ == old(self)@ && next == a,
                None => (final(self)@, next@) == go_on(Outcome::Next(old(self)@)),
            },
    {
        match action {
            Some(a) => a,
            None => {
                assert(self.next < self.tabs.len());
                self.next += 1;
                self.visit_tabs()
            },
        }
    }

    /// The first tab follows.
    fn begin_tabs(&mut self) -> (action: Action)
        requires
            counts(old(self)@),
        ensures
            (final(self)@, action@) == first_tab(old(self)@),
    {
        let mut ids: Vec<String> = Vec::new();
        for i in 0..self.tabs.len()
            invariant
                ids@.len() == i,
                forall|j: int| 0 <= j < i ==> (#[trigger] ids@[j])@ == self.tabs@[j].tab_id@,
        {
            ids.push(self.tabs[i].tab_id.clone());
        }
        assert(views(ids@) =~= tab_ids(self@.tabs));
        self.state.labels.retain(ids.as_slice());
        self.visit_tabs()
    }

    /// What follows the list of processes.
    fn ask_workspaces(&mut self) -> (action: Action)
        requires
            counts(old(self)@),
        ensures
            (final(self)@, action@) == after_snapshot(old(self)@),
    {
        if self.config.set_window_title {
            self.stage = Stage::Workspaces;
            Action::Ask(Request::ListWorkspaces)
        } else {
            self.begin_tabs()
        }
    }

    /// Ends the sync.
    fn give_up(&mut self, action: Action) -> (r: Action)
        ensures
            (final(self)@, r@) == over(old(self)@, action@),
    {
        self.stage = Stage::Over;
        action
    }
}

impl SyncRun {
    fn on_begin(&mut self) -> (action: Action)
        ensures
            (final(self)@, action@) == step(old(self)@, EventView::Begin),
    {
        if let Stage::Start = &self.stage {
            self.stage = Stage::Tabs;
            return Action::Ask(Request::ListTabs);
        }
        self.give_up(Action::Stop)
    }

    fn on_tabs(&mut self, tabs: Vec<Tab>) -> (action: Action)
        ensures
            (final(self)@, action@) == step(old(self)@, EventView::Tabs(tab_views(tabs@))),
    {
        if let Stage::Tabs = &self.stage {
            self.tabs = tabs;
            self.stage = Stage::Panes;
            return Action::Ask(Request::ListPanes);
        }
        self.give_up(Action::Stop)
    }

    fn on_panes(&mut self, panes: Vec<Pane>) -> (action: Action)
        requires
            old(self).wf(),
        ensures
            (final(self)@, action@) == step(old(self)@, EventView::Panes(pane_views(panes@))),
    {
        if let Stage::Panes = &self.stage {
            self.groups = group_panes_by_tab(panes);
            if self.config.windows_process_detection {
                self.stage = Stage::Snapshot;
                return Action::TakeSnapshot;
            }
            return self.ask_workspaces();
        }
        self.give_up(Action::Stop)
    }

    fn on_snapshot(&mut self, snapshot: Option<PlatformProcessSnapshot>) -> (action: Action)
        requires
            old(self).wf(),
        ensures
            (final(self)@, action@) == step(old(self)@, Event::Snapshot(snapshot)@),
    {
        if let Stage::Snapshot = &self.stage {
            if let Some(snapshot) = snapshot {
                self.snapshot = snapshot;
            }
            return self.ask_workspaces();
        }
        self.give_up(Action::Stop)
    }

    fn on_workspaces(&mut self, workspaces: TextMap) -> (action: Action)
        requires
            old(self).wf(),
        ensures
            (final(self)@, action@) == step(old(self)@, EventView::Workspaces(workspaces@)),
    {
        if let Stage::Workspaces = &self.stage {
            self.workspaces = workspaces;
            return self.begin_tabs();
        }
        self.give_up(Action::Stop)
    }

    fn on_layout(&mut self, pane_id: &str) -> (action: Action)
        requires
            old(self).wf(),
        ensures
            (final(self)@, action@) == step(old(self)@, EventView::Layout(pane_id@)),
    {
        if let Stage::Layout = &self.stage {
            let action = self.take_source(Some(pane_id));
            return self.continue_after(action);
        }
        self.give_up(Action::Stop)
    }

    fn on_processes(&mut self, info: PaneProcessInfo) -> (action: Action)
        requires
            old(self).wf(),
            accepts(old(self)@, EventView::Processes(info)),
        ensures
            (final(self)@, action@) == step(old(self)@, EventView::Processes(info)),
    {
        let source = match &self.stage {
            Stage::Processes(pane) => Some(pane.clone()),
            _ => None,
        };
        if let Some(pane) = source {
            let action = self.name_tab(&pane, &info);
            return self.continue_after(action);
        }
        if let Stage::TitleProcesses = &self.stage {
            let process = foreground_process_name(
                Some(&info),
                &self.snapshot,
                self.environment.is_windows,
            );
            return self.set_title(as_deref(&process));
        }
        self.give_up(Action::Stop)
    }

    fn on_renamed(&mut self) -> (action: Action)
        requires
            old(self).wf(),
        ensures
            (final(self)@, action@) == step(old(self)@, EventView::Renamed),
    {
        let given = match &self.stage {
            Stage::Renaming { label, manual } => Some((label.clone(), *manual)),
            _ => None,
        };
        if let Some((label, manual)) = given {
            assert(self.next < self.tabs.len());
            self.changed += 1;
            if manual {
                self.refocus(label.as_str());
            } else {
                self.settle(label);
            }
            return self.continue_after(None);
        }
        self.give_up(Action::Stop)
    }

    fn on_title_set(&mut self, shown: bool) -> (action: Action)
        requires
            old(self).wf(),
        ensures
            (final(self)@, action@) == step(old(self)@, EventView::TitleSet(shown)),
    {
        if let Stage::Title = &self.stage {
            if shown {
                return self.end();
            }
            if let Some((_, label)) = &self.focused {
                let tab_label = label.clone();
                return self.give_up(Action::Undelivered { tab_label });
            }
        }
        self.give_up(Action::Stop)
    }

    fn on_failed(&mut self) -> (action: Action)
        requires
            old(self).wf(),
            accepts(old(self)@, EventView::Failed),
        ensures
            (final(self)@, action@) == step(old(self)@, EventView::Failed),
    {
        if let Stage::Layout = &self.stage {
            let action = self.take_source(None);
            return self.continue_after(action);
        }
        if let Stage::TitleProcesses = &self.stage {
            return self.set_title(None);
        }
        self.give_up(Action::Stop)
    }
}

/// Goes on with a sync: takes what has happened and says what is to be done next.
pub fn sync_once(run: &mut SyncRun, event: Event) -> (action: Action)
    requires
        old(run).wf(),
        accepts(old(run)@, event@),
    ensures
        final(run).wf(),
        (final(run)@, action@) == step(old(run)@, event@),
{
    proof {
        if event is Tabs {
            assert(event->Tabs_0.len() <= usize::MAX);
        }
        law_sync_stays_sound(run@, event@);
    }
    match event {
        Event::Begin => run.on_begin(),
        Event::Tabs(tabs) => run.on_tabs(tabs),
        Event::Panes(panes) => run.on_panes(panes),
        Event::Snapshot(snapshot) => run.on_snapshot(snapshot),
        Event::Workspaces(workspaces) => run.on_workspaces(workspaces),
        Event::Layout(pane_id) => run.on_layout(pane_id.as_str()),
        Event::Processes(info) => run.on_processes(info),
        Event::Renamed => run.on_renamed(),
        Event::TitleSet(shown) => run.on_title_set(shown),
        Event::Failed => run.on_failed(),
    }
}

impl SyncRun {
    /// Whether everything that has to be looked at for an event can be read.
    pub fn is_acceptable(&self, event: &Event) -> (b: bool)
        ensures
            b == accepts(self@, event@),
    {
        match event {
            Event::Processes(info) => match &self.stage {
                Stage::Processes(pane) => pane_is_readable(
                    pane,
                    &self.config,
                    info,
                    &self.snapshot,
                    as_deref(&self.environment.home),
                    self.environment.is_windows,
                ),
                Stage::TitleProcesses => foreground_is_readable(
                    info,
                    &self.snapshot,
                    self.environment.is_windows,
                ) && self.title_is_acceptable(),
                _ => true,
            },
            Event::Failed => match &self.stage {
                Stage::TitleProcesses => self.title_is_acceptable(),
                _ => true,
            },
            _ => true,
        }
    }

    /// Whether the directory of the focused pane can be read.
    fn title_is_acceptable(&self) -> (b: bool)
        ensures
            b == title_readable(self@.focused_pane, self@.config, self@.environment.home),
    {
        let pane = match &self.focused_pane {
            Some(pane) => Some(pane),
            None => None,
        };
        title_is_readable(pane, &self.config, as_deref(&self.environment.home))
    }
}

/// Goes on with a sync where everything that has to be looked at for the event can
/// be read; else it stays as it is.
pub fn advance(run: &mut SyncRun, event: Event) -> (r: Option<Action>)
    requires
        old(run).wf(),
    ensures
        final(run).wf(),
        match r {
            Some(action) => accepts(old(run)@, event@) && (final(run)@, action@) == step(
                old(run)@,
                event@,
            ),
            None => !accepts(old(run)@, event@) && final(run)@ == old(run)@,
        },
{
    if run.is_acceptable(&event) {
        Some(sync_once(run, event))
    } else {
        None
    }
}

// ----------------------------------------------------------------------- the start

/// Why a sync does not start.
#[derive(Debug)]
pub enum StartError {
    /// The configuration is refused.
    Config(ConfigError),
    /// The labels that had been given to tabs cannot be read.
    Labels,
}

/// Starts a sync with these settings and with the labels that had been given to
/// tabs, `None` where they cannot be read.
pub fn sync_now_with_config(
    config: PluginConfig,
    labels: Option<LabelState>,
    force: bool,
    environment: Environment,
) -> (r: Result<SyncRun, StartError>)
    ensures
        match labels {
            Some(state) => r matches Ok(run) && run.wf() && run@ == started(
                config@,
                state.labels@,
                force,
                environment@,
            ),
            None => r matches Err(StartError::Labels),
        },
{
    let state = match labels {
        Some(state) => state,
        None => {
            return Err(StartError::Labels);
        },
    };
    let run = SyncRun {
        config,
        force,
        environment,
        before: state.clone(),
        state,
        tabs: Vec::new(),
        groups: PaneGroups::new(),
        snapshot: PlatformProcessSnapshot::default(),
        workspaces: TextMap::new(),
        next: 0,
        changed: 0,
        focused: None,
        focused_pane: None,
        stage: Stage::Start,
    };
    assert(run@.tabs =~= seq![]);
    assert(run@.snapshot =~= seq![]);
    Ok(run)
}

/// Starts a sync with the settings in the text of the configuration file, `None`
/// where there is no such file.
pub fn sync_now(
    text: Option<&str>,
    labels: Option<LabelState>,
    force: bool,
    environment: Environment,
) -> (r: Result<SyncRun, StartError>)
    ensures
        match settings_of_file(str_of(text)) {
            Err(fault) => r matches Err(StartError::Config(e)) && e@ == fault,
            Ok(settings) => match labels {
                Some(state) => r matches Ok(run) && run.wf() && run@ == started(
                    settings,
                    state.labels@,
                    force,
                    environment@,
                ),
                None => r matches Err(StartError::Labels),
            },
        },
{
    match load_plugin_config(text) {
        Ok(config) => sync_now_with_config(config, labels, force, environment),
        Err(e) => Err(StartError::Config(e)),
    }
}

// --------------------------------------------------------------------------- laws

/// Every label that is remembered is one of a tab that is listed.
pub open spec fn remembers_listed_tabs(v: SyncView) -> bool {
    v.labels.dom().subset_of(tab_ids(v.tabs).to_set())
}

/// The tabs are visited, or the window gets its title.
pub open spec fn past_lists(v: SyncView) -> bool {
    match v.stage {
        StageView::Layout
        | StageView::Processes(_)
        | StageView::Renaming { .. }
        | StageView::TitleProcesses
        | StageView::Title => true,
        _ => false,
    }
}

proof fn lemma_current_is_listed(v: SyncView)
    requires
        v.next < v.tabs.len(),
    ensures
        tab_ids(v.tabs).to_set().contains(current(v).tab_id),
{
    assert(tab_ids(v.tabs)[v.next as int] == current(v).tab_id);
}

proof fn lemma_visit_remembers(v: SyncView)
    requires
        remembers_listed_tabs(v),
    ensures
        remembers_listed_tabs(visit(v).0),
    decreases v.tabs.len() - v.next,
{
    if v.next < v.tabs.len() {
        if let Outcome::Next(w) = enter(v) {
            lemma_visit_remembers(SyncView { next: v.next + 1, ..w });
        }
    }
}

/// The labels of tabs that are gone are forgotten: once the lists are read, and to
/// the end, only labels of listed tabs are remembered.
pub proof fn law_labels_of_gone_tabs_are_forgotten(v: SyncView, event: EventView)
    requires
        sound(v),
        past_lists(v) ==> remembers_listed_tabs(v),
    ensures
        ({
            let (w, action) = step(v, event);
            past_lists(w) || action is Done ==> remembers_listed_tabs(w)
        }),
{
    let kept = v.labels.restrict(tab_ids(v.tabs).to_set());
    match (v.stage, event) {
        (StageView::Panes, EventView::Panes(panes)) => {
            lemma_visit_remembers(SyncView { groups: grouped(panes), labels: kept, ..v });
        },
        (StageView::Snapshot, EventView::Snapshot(Some(snapshot))) => {
            lemma_visit_remembers(SyncView { snapshot, labels: kept, ..v });
        },
        (StageView::Snapshot, EventView::Snapshot(None)) => {
            lemma_visit_remembers(SyncView { labels: kept, ..v });
        },
        (StageView::Workspaces, EventView::Workspaces(workspaces)) => {
            lemma_visit_remembers(SyncView { workspaces, labels: kept, ..v });
        },
        (StageView::Layout, EventView::Layout(pane_id)) => {
            if let Outcome::Next(w) = with_source(v, Some(pane_id)) {
                lemma_visit_remembers(SyncView { next: w.next + 1, ..w });
            }
        },
        (StageView::Layout, EventView::Failed) => {
            if let Outcome::Next(w) = with_source(v, None) {
                lemma_visit_remembers(SyncView { next: w.next + 1, ..w });
            }
        },
        (StageView::Processes(pane), EventView::Processes(info)) => {
            lemma_current_is_listed(v);
            if let Outcome::Next(w) = named(v, pane, info) {
                lemma_visit_remembers(SyncView { next: w.next + 1, ..w });
            }
        },
        (StageView::Renaming { label, manual }, EventView::Renamed) => {
            lemma_current_is_listed(v);
            let w = renamed(v, label, manual);
            lemma_visit_remembers(SyncView { next: w.next + 1, ..w });
        },
        _ => {},
    }
}

proof fn lemma_visit_counts_nothing(v: SyncView)
    ensures
        visit(v).0.changed == v.changed,
        visit(v).1 matches ActionView::Done { changed, save } ==> changed == v.changed && save == (
        visit(v).0.before != visit(v).0.labels),
        visit(v).0.before == v.before,
    decreases v.tabs.len() - v.next,
{
    if v.next < v.tabs.len() {
        if let Outcome::Next(w) = enter(v) {
            lemma_visit_counts_nothing(SyncView { next: v.next + 1, ..w });
        }
    }
}

/// A tab is counted when Herdr has given it its label, and not otherwise. A sync
/// that ends well tells that count, and asks for the labels to be saved where they
/// are not those that it was started with.
pub proof fn law_given_labels_are_counted(v: SyncView, event: EventView)
    ensures
        ({
            let (w, action) = step(v, event);
            &&& w.changed == v.changed + if v.stage is Renaming && event is Renamed {
                1nat
            } else {
                0nat
            }
            &&& w.before == v.before
            &&& action matches ActionView::Done { changed, save } ==> changed == w.changed && save
                == (w.before != w.labels)
        }),
{
    let kept = v.labels.restrict(tab_ids(v.tabs).to_set());
    match (v.stage, event) {
        (StageView::Panes, EventView::Panes(panes)) => {
            lemma_visit_counts_nothing(SyncView { groups: grouped(panes), labels: kept, ..v });
        },
        (StageView::Snapshot, EventView::Snapshot(Some(snapshot))) => {
            lemma_visit_counts_nothing(SyncView { snapshot, labels: kept, ..v });
        },
        (StageView::Snapshot, EventView::Snapshot(None)) => {
            lemma_visit_counts_nothing(SyncView { labels: kept, ..v });
        },
        (StageView::Workspaces, EventView::Workspaces(workspaces)) => {
            lemma_visit_counts_nothing(SyncView { workspaces, labels: kept, ..v });
        },
        (StageView::Layout, EventView::Layout(pane_id)) => {
            if let Outcome::Next(w) = with_source(v, Some(pane_id)) {
                lemma_visit_counts_nothing(SyncView { next: w.next + 1, ..w });
            }
        },
        (StageView::Layout, EventView::Failed) => {
            if let Outcome::Next(w) = with_source(v, None) {
                lemma_visit_counts_nothing(SyncView { next: w.next + 1, ..w });
            }
        },
        (StageView::Processes(pane), EventView::Processes(info)) => {
            if let Outcome::Next(w) = named(v, pane, info) {
                lemma_visit_counts_nothing(SyncView { next: w.next + 1, ..w });
            }
        },
        (StageView::Renaming { label, manual }, EventView::Renamed) => {
            let w = renamed(v, label, manual);
            lemma_visit_counts_nothing(SyncView { next: w.next + 1, ..w });
        },
        _ => {},
    }
}

/// A tab that was named by hand keeps its text: no more is asked for than to give it
/// its tab number, and its label is not remembered as one that was given.
pub proof fn law_tabs_named_by_hand_are_only_numbered(v: SyncView, layout: Option<Seq<char>>)
    requires
        v.next < v.tabs.len(),
        v.groups.dom().contains(current(v).tab_id),
        !manages(current(v), v.labels, v.force),
    ensures
        ({
            let tab = current(v);
            let number = renumbered(
                tab.label,
                tab.display_number as nat,
                v.config.show_tab_number,
            );
            &&& enter(v) matches Outcome::Act(w, action) ==> (action matches ActionView::Ask(
                RequestView::Layout { .. },
            ) && tab.focused) || (!w.labels.dom().contains(tab.tab_id) && action
                == ActionView::Rename { tab_id: tab.tab_id, label: number->0, manual: true }
                && number is Some)
            &&& enter(v) matches Outcome::Next(w) ==> !w.labels.dom().contains(tab.tab_id)
                && number is None
            &&& with_source(v, layout) matches Outcome::Act(w, action) ==> !w.labels.dom().contains(
                tab.tab_id,
            ) && action == ActionView::Rename {
                tab_id: tab.tab_id,
                label: number->0,
                manual: true,
            } && number is Some
            &&& with_source(v, layout) matches Outcome::Next(w) ==> !w.labels.dom().contains(
                tab.tab_id,
            ) && number is None
        }),
{
}

/// A tab that is managed is never treated as one that was named by hand. So a forced
/// sync, which manages every tab, names every tab that has panes.
pub proof fn law_managed_tabs_are_named(v: SyncView, layout: Option<Seq<char>>)
    requires
        v.next < v.tabs.len(),
        v.groups.dom().contains(current(v).tab_id),
        v.groups[current(v).tab_id].len() > 0,
        manages(current(v), v.labels, v.force),
    ensures
        enter(v) matches Outcome::Act(_, ActionView::Ask(request)) && (request is Layout
            || request is Processes),
        with_source(v, layout) matches Outcome::Act(
            _,
            ActionView::Ask(RequestView::Processes { pane_id }),
        ) && pane_id == source_of(
            current(v),
            v.groups[current(v).tab_id],
            layout,
        )->0.pane_id,
{
    let w = refocused(v, current(v).label);
    law_source_is_a_pane_of_the_tab(current(v), v.groups[current(v).tab_id], layout);
    law_source_is_a_pane_of_the_tab(current(v), v.groups[current(v).tab_id], None);
    assert(w.groups == v.groups);
}

/// A tab that has the label that it should have, and was given it, is left alone:
/// Herdr is not asked to rename it, and what is remembered stays the same.
pub proof fn law_settled_tabs_are_left_alone(v: SyncView, pane: PaneView, info: PaneProcessInfo)
    requires
        v.next < v.tabs.len(),
        current(v).label == wanted(v, pane, info),
        v.labels.dom().contains(current(v).tab_id),
        v.labels[current(v).tab_id] == current(v).label,
    ensures
        named(v, pane, info) matches Outcome::Next(w) && w.labels == v.labels && w.changed
            == v.changed,
{
    let label = wanted(v, pane, info);
    assert(v.labels.insert(current(v).tab_id, label) =~= v.labels);
}

/// A label that was given is remembered, so that the tab is managed by the next sync
/// for as long as it keeps that label, and only then.
pub proof fn law_given_label_is_remembered(v: SyncView, label: Seq<char>, later: Seq<char>)
    requires
        v.next < v.tabs.len(),
    ensures
        renamed(v, label, false).labels == v.labels.insert(current(v).tab_id, label),
        manages(
            TabView { label: later, ..current(v) },
            renamed(v, label, false).labels,
            false,
        ) == (later == label),
{
}

/// Whether a window title is set or refused depends on the template alone: without a
/// fault in it no sync is refused.
pub proof fn law_template_alone_decides(v: SyncView, process: Option<Seq<char>>)
    ensures
        entitle(v, process).1 is SetTitle <==> is_template(v.config.terminal_title_template),
        entitle(v, process).1 is Refuse <==> !is_template(v.config.terminal_title_template),
{
    law_accepted_templates_never_fail(
        v.config.terminal_title_template,
        title_values(
            v.focused->0.tab,
            v.focused->0.label,
            v.focused_pane,
            process,
            workspace_of(v, v.focused->0.tab),
            v.config,
            v.environment.hostname,
            v.environment.home,
            v.environment.is_windows,
        ),
    );
}

/// How many parts of a sync are still to come.
pub open spec fn phase(v: SyncView) -> nat {
    match v.stage {
        StageView::Start => 8,
        StageView::Tabs => 7,
        StageView::Panes => 6,
        StageView::Snapshot => 5,
        StageView::Workspaces => 4,
        StageView::Layout => 3,
        StageView::Processes(_) => 3,
        StageView::Renaming { .. } => 3,
        StageView::TitleProcesses => 2,
        StageView::Title => 1,
        StageView::Over => 0,
    }
}

/// How much is still to come of the visits to the tabs.
pub open spec fn left(v: SyncView) -> int {
    3 * (v.tabs.len() - v.next) + match v.stage {
        StageView::Layout => 2int,
        StageView::Processes(_) => 1int,
        _ => 0int,
    }
}

proof fn lemma_visit_advances(v: SyncView)
    requires
        counts(v),
    ensures
        visit(v).0.tabs == v.tabs,
        v.next <= visit(v).0.next <= v.tabs.len(),
        phase(visit(v).0) <= 3,
        visit(v).0.config == v.config,
    decreases v.tabs.len() - v.next,
{
    if v.next < v.tabs.len() {
        if let Outcome::Next(w) = enter(v) {
            lemma_visit_advances(SyncView { next: v.next + 1, ..w });
        }
    }
}

/// Every sync ends: whatever happens, either less is left of the visits to the
/// tabs, or a later part of the sync begins.
pub proof fn law_every_sync_ends(v: SyncView, event: EventView)
    requires
        sound(v),
        v.stage !is Over,
    ensures
        ({
            let w = step(v, event).0;
            phase(w) < phase(v) || (phase(w) == phase(v) && 0 <= left(w) < left(v))
        }),
{
    let kept = v.labels.restrict(tab_ids(v.tabs).to_set());
    match (v.stage, event) {
        (StageView::Panes, EventView::Panes(panes)) => {
            lemma_visit_advances(SyncView { groups: grouped(panes), labels: kept, ..v });
        },
        (StageView::Snapshot, EventView::Snapshot(Some(snapshot))) => {
            lemma_visit_advances(SyncView { snapshot, labels: kept, ..v });
        },
        (StageView::Snapshot, EventView::Snapshot(None)) => {
            lemma_visit_advances(SyncView { labels: kept, ..v });
        },
        (StageView::Workspaces, EventView::Workspaces(workspaces)) => {
            lemma_visit_advances(SyncView { workspaces, labels: kept, ..v });
        },
        (StageView::Layout, EventView::Layout(pane_id)) => {
            if let Outcome::Next(w) = with_source(v, Some(pane_id)) {
                lemma_visit_advances(SyncView { next: w.next + 1, ..w });
            }
        },
        (StageView::Layout, EventView::Failed) => {
            if let Outcome::Next(w) = with_source(v, None) {
                lemma_visit_advances(SyncView { next: w.next + 1, ..w });
            }
        },
        (StageView::Processes(pane), EventView::Processes(info)) => {
            if let Outcome::Next(w) = named(v, pane, info) {
                lemma_visit_advances(SyncView { next: w.next + 1, ..w });
            }
        },
        (StageView::Renaming { label, manual }, EventView::Renamed) => {
            let w = renamed(v, label, manual);
            lemma_visit_advances(SyncView { next: w.next + 1, ..w });
        },
        _ => {},
    }
}

/// The actions that end a sync.
pub open spec fn is_end(action: ActionView) -> bool {
    match action {
        ActionView::Refuse { .. }
        | ActionView::Undelivered { .. }
        | ActionView::Stop
        | ActionView::Done { .. } => true,
        _ => false,
    }
}

proof fn lemma_visit_entitles(v: SyncView)
    ensures
        visit(v).1 is SetTitle || visit(v).1 is Refuse ==> v.config.set_window_title,
        is_end(visit(v).1) <==> visit(v).0.stage is Over,
        visit(v).1 !is Stop,
        visit(v).1 !is Undelivered,
    decreases v.tabs.len() - v.next,
{
    if v.next < v.tabs.len() {
        if let Outcome::Next(w) = enter(v) {
            lemma_visit_entitles(SyncView { next: v.next + 1, ..w });
        }
    }
}

/// The window gets a title only where the settings ask for one; and a sync is over
/// exactly when an action has ended it.
pub proof fn law_title_is_set_only_where_asked_for(v: SyncView, event: EventView)
    requires
        sound(v),
    ensures
        ({
            let (w, action) = step(v, event);
            &&& action is SetTitle || action is Refuse || action is Undelivered
                ==> v.config.set_window_title
            &&& is_end(action) <==> w.stage is Over
        }),
{
    let kept = v.labels.restrict(tab_ids(v.tabs).to_set());
    match (v.stage, event) {
        (StageView::Panes, EventView::Panes(panes)) => {
            lemma_visit_entitles(SyncView { groups: grouped(panes), labels: kept, ..v });
        },
        (StageView::Snapshot, EventView::Snapshot(Some(snapshot))) => {
            lemma_visit_entitles(SyncView { snapshot, labels: kept, ..v });
        },
        (StageView::Snapshot, EventView::Snapshot(None)) => {
            lemma_visit_entitles(SyncView { labels: kept, ..v });
        },
        (StageView::Workspaces, EventView::Workspaces(workspaces)) => {
            lemma_visit_entitles(SyncView { workspaces, labels: kept, ..v });
        },
        (StageView::Layout, EventView::Layout(pane_id)) => {
            if let Outcome::Next(w) = with_source(v, Some(pane_id)) {
                lemma_visit_entitles(SyncView { next: w.next + 1, ..w });
            }
        },
        (StageView::Layout, EventView::Failed) => {
            if let Outcome::Next(w) = with_source(v, None) {
                lemma_visit_entitles(SyncView { next: w.next + 1, ..w });
            }
        },
        (StageView::Processes(pane), EventView::Processes(info)) => {
            if let Outcome::Next(w) = named(v, pane, info) {
                lemma_visit_entitles(SyncView { next: w.next + 1, ..w });
            }
        },
        (StageView::Renaming { label, manual }, EventView::Renamed) => {
            let w = renamed(v, label, manual);
            lemma_visit_entitles(SyncView { next: w.next + 1, ..w });
        },
        _ => {},
    }
}

/// A request that fails ends the sync, and nothing is saved; but for the layout of a
/// tab, in place of which the first pane is taken, and the processes of the focused
/// pane, without which the window title names no program.
pub proof fn law_failure_ends_the_sync(v: SyncView)
    ensures
        v.stage !is Layout && v.stage !is TitleProcesses ==> step(v, EventView::Failed).1 is Stop,
        v.stage is Layout ==> step(v, EventView::Failed) == go_on(with_source(v, None)),
        v.stage is TitleProcesses ==> step(v, EventView::Failed) == entitle(v, None),
{
}

/// Away from Windows, and where directories are not shortened by the home directory, a
/// sync accepts whatever happens; and nothing but processes, or their failure, can be
/// unacceptable anywhere.
pub proof fn law_events_are_accepted(v: SyncView, event: EventView)
    ensures
        !v.environment.is_windows && !v.config.shorten_home_directory ==> accepts(v, event),
        event !is Processes && event !is Failed ==> accepts(v, event),
        !v.config.set_window_title && event is Failed && sound(v) ==> accepts(v, event),
{
}

} // verus!
