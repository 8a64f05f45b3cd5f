//! What a whole sync comes to, where Herdr and the machine answer every question.
use crate::config::Settings;
use crate::directory::label_with_home;
use crate::herdr::RequestView;
use crate::label::{
    clean, law_clean_text_stays_put, law_numbered_label_is_not_default, law_renumbering_settles,
    numbered, renumbered, stays_put, unnumbered,
};
use crate::naming::{foreground, pane_label, title_values};
use crate::number::decimal;
use crate::process::PaneProcessInfo;
use crate::sync::{
    after_snapshot, by_hand, counts, current, entitle, finish, first_tab, go_on, is_end,
    law_every_sync_ends, law_template_alone_decides, left, named, phase, refocused, renamed, sound,
    started, step, tab_ids, visit, wanted, with_source, workspace_of, ActionView, EnvironmentView,
    EventView, Focus, Outcome, StageView, SyncView,
};
use crate::tab::{
    grouped, is_default_label, law_panes_are_grouped_by_tab, law_source_is_a_pane_of_the_tab,
    layout_decides, manages, panes_of, sorted, source_of, PaneView, TabView,
};
use crate::template::{
    is_template, law_accepted_templates_never_fail, law_placeholders_give_their_values,
    placeholder, placeholders, title_of, TitleValues,
};
use crate::text::{lower_all, trim, upper_all};
use crate::windows::WindowsProcessEntry;
use vstd::prelude::*;

verus! {

// ------------------------------------------------------------------ a whole sync

/// What Herdr and the machine have to say, by what they are asked.
pub struct World {
    pub tabs: Seq<TabView>,
    pub panes: Seq<PaneView>,
    pub snapshot: Option<Seq<WindowsProcessEntry>>,
    pub workspaces: Map<Seq<char>, Seq<char>>,
    /// The panes that the layouts name, by the panes that are asked about.
    pub layouts: Map<Seq<char>, Seq<char>>,
    /// The processes of the panes, by the panes.
    pub processes: Map<Seq<char>, PaneProcessInfo>,
}

/// What happens where an action is done.
pub open spec fn answer(world: World, action: ActionView) -> EventView {
    match action {
        ActionView::Ask(RequestView::ListTabs) => EventView::Tabs(world.tabs),
        ActionView::Ask(RequestView::ListPanes) => EventView::Panes(world.panes),
        ActionView::Ask(RequestView::ListWorkspaces) => EventView::Workspaces(world.workspaces),
        ActionView::Ask(RequestView::Layout { pane_id }) => if world.layouts.dom().contains(pane_id) {
            EventView::Layout(world.layouts[pane_id])
        } else {
            EventView::Failed
        },
        ActionView::Ask(RequestView::Processes { pane_id }) => if world.processes.dom().contains(
            pane_id,
        ) {
            EventView::Processes(world.processes[pane_id])
        } else {
            EventView::Failed
        },
        ActionView::TakeSnapshot => EventView::Snapshot(world.snapshot),
        ActionView::Rename { .. } => EventView::Renamed,
        ActionView::SetTitle { .. } => EventView::TitleSet(true),
        _ => EventView::Failed,
    }
}

/// The sync to its end, from an action on.
pub open spec fn play(v: SyncView, action: ActionView, world: World) -> (SyncView, ActionView)
    decreases phase(v), left(v),
{
    if is_end(action) || v.stage is Over || !sound(v) {
        (v, action)
    } else {
        let (w, next) = step(v, answer(world, action));
        proof {
            law_every_sync_ends(v, answer(world, action));
        }
        play(w, next, world)
    }
}

/// What the sync does to tabs and to the window, from an action on: the renames and the
/// window title that it asks for, in their order.
pub open spec fn deeds(v: SyncView, action: ActionView, world: World) -> Seq<ActionView>
    decreases phase(v), left(v),
{
    let this = if action is Rename || action is SetTitle {
        seq![action]
    } else {
        seq![]
    };
    if is_end(action) || v.stage is Over || !sound(v) {
        this
    } else {
        let (w, next) = step(v, answer(world, action));
        proof {
            law_every_sync_ends(v, answer(world, action));
        }
        this + deeds(w, next, world)
    }
}

/// The pane that the layout names for a group of panes.
pub open spec fn laid_out(world: World, group: Seq<PaneView>) -> Option<Seq<char>> {
    if world.layouts.dom().contains(group[0].pane_id) {
        Some(world.layouts[group[0].pane_id])
    } else {
        None
    }
}

proof fn lemma_set_title_ends_well(v: SyncView, action: ActionView, world: World)
    requires
        sound(v),
        v.stage is Title,
        action is SetTitle,
    ensures
        deeds(v, action, world) == seq![action],
        ({
            let (w, last) = play(v, action, world);
            &&& last == ActionView::Done { changed: v.changed, save: v.before != v.labels }
            &&& w.labels == v.labels
        }),
{
    let (w, next) = step(v, answer(world, action));
    assert(play(w, next, world) == (w, next));
    assert(deeds(w, next, world) =~= seq![]);
    assert(seq![action] + Seq::<ActionView>::empty() =~= seq![action]);
}

/// A sync as it comes to the first tab.
pub open spec fn at_first_tab(start: SyncView, world: World) -> SyncView {
    SyncView {
        tabs: world.tabs,
        groups: grouped(world.panes),
        snapshot: if start.config.windows_process_detection {
            match world.snapshot {
                Some(snapshot) => snapshot,
                None => start.snapshot,
            }
        } else {
            start.snapshot
        },
        workspaces: if start.config.set_window_title {
            world.workspaces
        } else {
            start.workspaces
        },
        ..start
    }
}

proof fn lemma_play_to_workspaces(v: SyncView, world: World)
    requires
        sound(v),
        v.next == 0,
        v.stage is Panes || v.stage is Snapshot,
        v.tabs == world.tabs,
    ensures
        ({
            let (w, action) = after_snapshot(v);
            let ready = SyncView {
                workspaces: if v.config.set_window_title {
                    world.workspaces
                } else {
                    v.workspaces
                },
                stage: if v.config.set_window_title {
                    StageView::Workspaces
                } else {
                    v.stage
                },
                ..v
            };
            &&& play(w, action, world) == play(first_tab(ready).0, first_tab(ready).1, world)
            &&& deeds(w, action, world) == deeds(first_tab(ready).0, first_tab(ready).1, world)
        }),
{
    let (w, action) = after_snapshot(v);
    if v.config.set_window_title {
        let (x, next) = step(w, answer(world, action));
        assert(deeds(w, action, world) =~= deeds(x, next, world));
    }
}

/// A sync comes to the first tab once it has read its lists; what was remembered of
/// tabs that are gone is forgotten then.
proof fn lemma_play_to_first_tab(start: SyncView, world: World) -> (v: SyncView)
    requires
        sound(start),
        start.stage is Start,
        world.tabs.len() <= usize::MAX,
    ensures
        v == (SyncView { stage: v.stage, ..at_first_tab(start, world) }),
        play(step(start, EventView::Begin).0, step(start, EventView::Begin).1, world) == play(
            first_tab(v).0,
            first_tab(v).1,
            world,
        ),
        deeds(step(start, EventView::Begin).0, step(start, EventView::Begin).1, world) == deeds(
            first_tab(v).0,
            first_tab(v).1,
            world,
        ),
{
    let (a, ask_tabs) = step(start, EventView::Begin);
    let (b, ask_panes) = step(a, answer(world, ask_tabs));
    assert(play(a, ask_tabs, world) == play(b, ask_panes, world));
    assert(deeds(a, ask_tabs, world) =~= deeds(b, ask_panes, world));
    let (c, next) = step(b, answer(world, ask_panes));
    assert(play(b, ask_panes, world) == play(c, next, world));
    assert(deeds(b, ask_panes, world) =~= deeds(c, next, world));
    let grouped_b = SyncView { groups: grouped(world.panes), ..b };
    let last = if start.config.windows_process_detection {
        let (d, after) = step(c, answer(world, next));
        assert(play(c, next, world) == play(d, after, world));
        assert(deeds(c, next, world) =~= deeds(d, after, world));
        let known = SyncView { snapshot: at_first_tab(start, world).snapshot, ..c };
        assert((d, after) == after_snapshot(known));
        known
    } else {
        assert((c, next) == after_snapshot(grouped_b));
        grouped_b
    };
    lemma_play_to_workspaces(last, world);
    SyncView {
        workspaces: at_first_tab(start, world).workspaces,
        stage: if start.config.set_window_title {
            StageView::Workspaces
        } else {
            last.stage
        },
        ..last
    }
}

// ------------------------------------------------------------ what becomes of tabs

/// What a sync makes of a tab.
pub enum Fate {
    /// It is left as it is.
    Passed,
    /// It was named by hand.
    ByHand,
    /// It is managed, and gets the label that it should have.
    Named,
}

/// The pane that the tab at place `i` is named after.
pub open spec fn source_at(v: SyncView, i: nat, world: World) -> PaneView {
    let tab = v.tabs[i as int];
    let group = v.groups[tab.tab_id];
    source_of(tab, group, laid_out(world, group))->0
}

/// The label that the tab at place `i` should have, where it has panes.
pub open spec fn label_for(v: SyncView, i: nat, world: World) -> Seq<char> {
    let source = source_at(v, i, world);
    wanted(SyncView { next: i, ..v }, source, world.processes[source.pane_id])
}

/// What a sync makes of the tab at place `i`. Tabs without panes are left as they
/// are, and so are managed tabs for which there is no label.
pub open spec fn fate(v: SyncView, i: nat, world: World) -> Fate {
    let tab = v.tabs[i as int];
    if !v.groups.dom().contains(tab.tab_id) {
        Fate::Passed
    } else if !manages(tab, v.labels, v.force) {
        Fate::ByHand
    } else if label_for(v, i, world).len() == 0 {
        Fate::Passed
    } else {
        Fate::Named
    }
}

/// The label that the tab at place `i` has after the sync.
pub open spec fn new_label(v: SyncView, i: nat, world: World) -> Seq<char> {
    let tab = v.tabs[i as int];
    match fate(v, i, world) {
        Fate::Passed => tab.label,
        Fate::ByHand => match renumbered(
            tab.label,
            tab.display_number as nat,
            v.config.show_tab_number,
        ) {
            Some(label) => label,
            None => tab.label,
        },
        Fate::Named => label_for(v, i, world),
    }
}

/// What is remembered after the visit to the tab at place `i`.
pub open spec fn remembered_after(v: SyncView, i: nat, world: World) -> Map<Seq<char>, Seq<char>> {
    let tab_id = v.tabs[i as int].tab_id;
    match fate(v, i, world) {
        Fate::Passed => v.labels,
        Fate::ByHand => v.labels.remove(tab_id),
        Fate::Named => v.labels.insert(tab_id, label_for(v, i, world)),
    }
}

/// The sync after the visit to the tab at hand, but for the tab with the focus.
pub open spec fn after_tab(v: SyncView, world: World) -> SyncView {
    SyncView {
        next: v.next + 1,
        labels: remembered_after(v, v.next, world),
        changed: v.changed + if new_label(v, v.next, world) != current(v).label {
            1nat
        } else {
            0nat
        },
        ..v
    }
}

/// The rename that the visit to the tab at place `i` asks for, where its label changes.
pub open spec fn deed_at(v: SyncView, i: nat, world: World) -> Seq<ActionView> {
    let tab = v.tabs[i as int];
    if new_label(v, i, world) != tab.label {
        seq![
            ActionView::Rename {
                tab_id: tab.tab_id,
                label: new_label(v, i, world),
                manual: fate(v, i, world) is ByHand,
            },
        ]
    } else {
        seq![]
    }
}

/// The sync after the visit to the tab at hand. Where the tab has the focus, the window
/// title goes by its new label, and by its pane where it has any.
pub open spec fn visited(v: SyncView, world: World) -> SyncView {
    let tab = current(v);
    SyncView {
        focused: if tab.focused {
            Some(Focus { tab, label: new_label(v, v.next, world) })
        } else {
            v.focused
        },
        focused_pane: if tab.focused && v.groups.dom().contains(tab.tab_id) {
            Some(source_at(v, v.next, world))
        } else {
            v.focused_pane
        },
        ..after_tab(v, world)
    }
}

/// The sync after the visits to all tabs from the one at hand on, but for the tab
/// with the focus.
pub open spec fn after_all_tabs(v: SyncView, world: World) -> SyncView
    decreases v.tabs.len() - v.next,
{
    if v.next >= v.tabs.len() {
        v
    } else {
        after_all_tabs(after_tab(v, world), world)
    }
}

/// Herdr tells the processes of the pane that the tab at place `i` is named after,
/// where the tab is managed and has panes.
pub open spec fn answers_for(v: SyncView, i: nat, world: World) -> bool {
    let tab = v.tabs[i as int];
    v.groups.dom().contains(tab.tab_id) && manages(tab, v.labels, v.force)
        ==> world.processes.dom().contains(source_at(v, i, world).pane_id)
}

/// Herdr tells the processes that the visits to the tabs from the one at hand on ask
/// for.
pub open spec fn answers(v: SyncView, world: World) -> bool
    decreases v.tabs.len() - v.next,
{
    v.next < v.tabs.len() ==> answers_for(v, v.next, world) && answers(after_tab(v, world), world)
}

/// A tab with the focus was visited, or is still to be visited.
pub open spec fn has_focus(v: SyncView) -> bool {
    v.focused is Some || exists|i: int| v.next <= i < v.tabs.len() && (#[trigger] v.tabs[i]).focused
}

/// Where the window gets a title, its template has no fault.
pub open spec fn title_works(v: SyncView) -> bool {
    v.config.set_window_title && has_focus(v) ==> is_template(v.config.terminal_title_template)
}

/// Every group holds a pane.
spec fn groups_hold_panes(v: SyncView) -> bool {
    forall|key: Seq<char>| #[trigger] v.groups.dom().contains(key) ==> v.groups[key].len() > 0
}

proof fn lemma_title_comes_to(v: SyncView, world: World)
    requires
        counts(v),
        v.tabs.len() <= usize::MAX,
        v.next >= v.tabs.len(),
    ensures
        ({
            let (w, action) = play(finish(v).0, finish(v).1, world);
            &&& action is Done <==> title_works(v)
            &&& action is Done ==> action == ActionView::Done {
                changed: v.changed,
                save: v.before != v.labels,
            } && w.labels == v.labels
        }),
{
    let (w, action) = finish(v);
    if w.stage is TitleProcesses {
        let event = answer(world, action);
        let (x, next) = step(w, event);
        let process = match event {
            EventView::Processes(info) => foreground(info, w.snapshot, w.environment.is_windows),
            _ => None,
        };
        law_template_alone_decides(w, process);
        assert((x, next) == entitle(w, process));
        assert(play(w, action, world) == play(x, next, world));
        if next is SetTitle {
            lemma_set_title_ends_well(x, next, world);
        } else {
            assert(play(x, next, world) == (x, next));
        }
    } else if v.config.set_window_title && v.focused is Some {
        law_template_alone_decides(v, None);
        if action is SetTitle {
            lemma_set_title_ends_well(w, action, world);
        }
    }
}

/// Two syncs that differ at most in the tab with the focus and in what they wait
/// for.
pub open spec fn alike(v: SyncView, w: SyncView) -> bool {
    w == (SyncView {
        focused: w.focused,
        focused_pane: w.focused_pane,
        stage: w.stage,
        ..v
    })
}

proof fn lemma_alike_after_all_tabs(v: SyncView, w: SyncView, world: World)
    requires
        alike(v, w),
    ensures
        after_all_tabs(v, world).labels == after_all_tabs(w, world).labels,
        after_all_tabs(v, world).changed == after_all_tabs(w, world).changed,
        answers(v, world) == answers(w, world),
    decreases v.tabs.len() - v.next,
{
    if v.next < v.tabs.len() {
        lemma_alike_fate(v, w, v.next, world);
        lemma_alike_after_all_tabs(after_tab(v, world), after_tab(w, world), world);
    }
}

proof fn lemma_alike_fate(v: SyncView, w: SyncView, i: nat, world: World)
    requires
        alike(v, w),
    ensures
        label_for(v, i, world) == label_for(w, i, world),
        fate(v, i, world) == fate(w, i, world),
        new_label(v, i, world) == new_label(w, i, world),
        remembered_after(v, i, world) == remembered_after(w, i, world),
{
}

/// The end of a visit to a tab that was named by hand.
proof fn lemma_by_hand_comes_to(v: SyncView, w: SyncView, world: World) -> (x: SyncView)
    requires
        counts(v),
        v.tabs.len() <= usize::MAX,
        v.next < v.tabs.len(),
        alike(v, w),
        v.groups.dom().contains(current(v).tab_id),
        !manages(current(v), v.labels, v.force),
        w.focused == refocused(v, current(v).label).focused,
        w.focused_pane == visited(v, world).focused_pane,
    ensures
        x == (SyncView { stage: x.stage, ..visited(v, world) }),
        play(go_on(by_hand(w)).0, go_on(by_hand(w)).1, world) == play(
            visit(x).0,
            visit(x).1,
            world,
        ),
        deeds(go_on(by_hand(w)).0, go_on(by_hand(w)).1, world) == deed_at(v, v.next, world) + deeds(
            visit(x).0,
            visit(x).1,
            world,
        ),
{
    match by_hand(w) {
        Outcome::Next(y) => {
            let x = SyncView { next: y.next + 1, ..y };
            let rest = deeds(visit(x).0, visit(x).1, world);
            assert(deed_at(v, v.next, world) + rest =~= rest);
            x
        },
        Outcome::Act(y, action) => {
            let label = renumbered(
                current(v).label,
                current(v).display_number as nat,
                v.config.show_tab_number,
            )->0;
            let x = SyncView { next: y.next + 1, ..renamed(y, label, true) };
            assert(answer(world, action) == EventView::Renamed);
            assert(step(y, EventView::Renamed) == visit(x));
            assert(play(y, action, world) == play(visit(x).0, visit(x).1, world));
            assert(deed_at(v, v.next, world) =~= seq![action]);
            x
        },
    }
}

/// The end of a visit to a tab, once it is known which pane it is named after.
proof fn lemma_source_comes_to(
    v: SyncView,
    w: SyncView,
    layout: Option<Seq<char>>,
    world: World,
) -> (x: SyncView)
    requires
        counts(v),
        v.tabs.len() <= usize::MAX,
        v.next < v.tabs.len(),
        alike(v, w),
        v.groups.dom().contains(current(v).tab_id),
        v.groups[current(v).tab_id].len() > 0,
        answers_for(v, v.next, world),
        w.focused == refocused(v, current(v).label).focused,
        w.focused_pane == v.focused_pane,
        source_of(current(v), v.groups[current(v).tab_id], layout) == source_of(
            current(v),
            v.groups[current(v).tab_id],
            laid_out(world, v.groups[current(v).tab_id]),
        ),
    ensures
        x == (SyncView { stage: x.stage, ..visited(v, world) }),
        play(go_on(with_source(w, layout)).0, go_on(with_source(w, layout)).1, world) == play(
            visit(x).0,
            visit(x).1,
            world,
        ),
        deeds(go_on(with_source(w, layout)).0, go_on(with_source(w, layout)).1, world) == deed_at(
            v,
            v.next,
            world,
        ) + deeds(visit(x).0, visit(x).1, world),
{
    let tab = current(v);
    let group = v.groups[tab.tab_id];
    let source = source_of(tab, group, layout);
    law_source_is_a_pane_of_the_tab(tab, group, layout);
    let focused = if tab.focused {
        SyncView { focused_pane: source, ..w }
    } else {
        w
    };
    if !manages(tab, v.labels, v.force) {
        lemma_by_hand_comes_to(v, focused, world)
    } else {
        let pane = source->0;
        let info = world.processes[pane.pane_id];
        let y = SyncView { stage: StageView::Processes(pane), ..focused };
        let action = ActionView::Ask(RequestView::Processes { pane_id: pane.pane_id });
        assert(with_source(w, layout) == Outcome::Act(y, action));
        assert(answer(world, action) == EventView::Processes(info));
        let (z, next) = step(y, EventView::Processes(info));
        assert(play(y, action, world) == play(z, next, world));
        assert(deeds(y, action, world) =~= deeds(z, next, world));
        let label = wanted(y, pane, info);
        assert(label == label_for(v, v.next, world));
        match named(y, pane, info) {
            Outcome::Next(a) => {
                let x = SyncView { next: a.next + 1, ..a };
                assert((z, next) == visit(x));
                let rest = deeds(z, next, world);
                assert(deed_at(v, v.next, world) + rest =~= rest);
                x
            },
            Outcome::Act(a, rename) => {
                let x = SyncView { next: a.next + 1, ..renamed(a, label, false) };
                assert((z, next) == (a, rename));
                assert(answer(world, rename) == EventView::Renamed);
                assert(step(a, EventView::Renamed) == visit(x));
                assert(play(a, rename, world) == play(visit(x).0, visit(x).1, world));
                assert(deed_at(v, v.next, world) =~= seq![rename]);
                x
            },
        }
    }
}

/// A visit to a tab leads to the next one.
proof fn lemma_tab_comes_to(v: SyncView, world: World) -> (x: SyncView)
    requires
        counts(v),
        v.tabs.len() <= usize::MAX,
        v.next < v.tabs.len(),
        groups_hold_panes(v),
        answers_for(v, v.next, world),
    ensures
        x == (SyncView { stage: x.stage, ..visited(v, world) }),
        play(visit(v).0, visit(v).1, world) == play(visit(x).0, visit(x).1, world),
        deeds(visit(v).0, visit(v).1, world) == deed_at(v, v.next, world) + deeds(
            visit(x).0,
            visit(x).1,
            world,
        ),
{
    let tab = current(v);
    let group = v.groups[tab.tab_id];
    let w = refocused(v, tab.label);
    if !v.groups.dom().contains(tab.tab_id) {
        let x = SyncView { next: v.next + 1, ..w };
        let rest = deeds(visit(x).0, visit(x).1, world);
        assert(deed_at(v, v.next, world) + rest =~= rest);
        x
    } else if manages(tab, v.labels, v.force) || tab.focused {
        if layout_decides(tab, group) {
            let layout = laid_out(world, group);
            let y = SyncView { stage: StageView::Layout, ..w };
            let action = ActionView::Ask(RequestView::Layout { pane_id: group[0].pane_id });
            assert(visit(v) == (y, action));
            let event = answer(world, action);
            assert(step(y, event) == go_on(with_source(y, layout)));
            let (z, next) = step(y, event);
            assert(play(y, action, world) == play(z, next, world));
            assert(deeds(y, action, world) =~= deeds(z, next, world));
            lemma_source_comes_to(v, y, layout, world)
        } else {
            assert(visit(v) == go_on(with_source(w, None)));
            lemma_source_comes_to(v, w, None, world)
        }
    } else {
        assert(visit(v) == go_on(by_hand(w)));
        lemma_by_hand_comes_to(v, w, world)
    }
}

/// Where Herdr does not tell the processes of the pane that a managed tab is named
/// after, the sync ends without having gone well.
proof fn lemma_unanswered(v: SyncView, world: World)
    requires
        counts(v),
        v.tabs.len() <= usize::MAX,
        v.next < v.tabs.len(),
        groups_hold_panes(v),
        !answers_for(v, v.next, world),
    ensures
        play(visit(v).0, visit(v).1, world).1 is Stop,
{
    let tab = current(v);
    let group = v.groups[tab.tab_id];
    let w = refocused(v, tab.label);
    assert(group.len() > 0);
    if layout_decides(tab, group) {
        let layout = laid_out(world, group);
        let y = SyncView { stage: StageView::Layout, ..w };
        let action = ActionView::Ask(RequestView::Layout { pane_id: group[0].pane_id });
        assert(visit(v) == (y, action));
        let event = answer(world, action);
        assert(step(y, event) == go_on(with_source(y, layout)));
        let (z, next) = step(y, event);
        assert(play(y, action, world) == play(z, next, world));
        lemma_unanswered_source(y, layout, world);
    } else {
        assert(visit(v) == go_on(with_source(w, None)));
        lemma_unanswered_source(w, None, world);
    }
}

proof fn lemma_unanswered_source(v: SyncView, layout: Option<Seq<char>>, world: World)
    requires
        counts(v),
        v.tabs.len() <= usize::MAX,
        v.next < v.tabs.len(),
        manages(current(v), v.labels, v.force),
        v.groups[current(v).tab_id].len() > 0,
        !world.processes.dom().contains(
            source_of(current(v), v.groups[current(v).tab_id], layout)->0.pane_id,
        ),
    ensures
        ({
            let (w, action) = go_on(with_source(v, layout));
            play(w, action, world).1 is Stop
        }),
{
    let tab = current(v);
    law_source_is_a_pane_of_the_tab(tab, v.groups[tab.tab_id], layout);
    let (w, action) = go_on(with_source(v, layout));
    assert(answer(world, action) is Failed);
    let (x, next) = step(w, EventView::Failed);
    assert(play(w, action, world) == play(x, next, world));
    assert(play(x, next, world) == (x, next));
}

proof fn lemma_visits_come_to(v: SyncView, world: World)
    requires
        counts(v),
        v.tabs.len() <= usize::MAX,
        groups_hold_panes(v),
    ensures
        ({
            let (w, action) = play(visit(v).0, visit(v).1, world);
            let end = after_all_tabs(v, world);
            &&& action is Done <==> answers(v, world) && title_works(v)
            &&& action is Done ==> action == ActionView::Done {
                changed: end.changed,
                save: v.before != end.labels,
            } && w.labels == end.labels
        }),
    decreases v.tabs.len() - v.next,
{
    if v.next >= v.tabs.len() {
        lemma_title_comes_to(v, world);
    } else if !answers_for(v, v.next, world) {
        lemma_unanswered(v, world);
    } else {
        let x = lemma_tab_comes_to(v, world);
        lemma_visits_come_to(x, world);
        lemma_alike_after_all_tabs(after_tab(v, world), x, world);
        assert(has_focus(x) == has_focus(v)) by {
            if has_focus(v) && v.focused is None {
                let i = choose|i: int|
                    v.next <= i < v.tabs.len() && (#[trigger] v.tabs[i]).focused;
                assert(i == v.next || x.tabs[i].focused);
            }
            if has_focus(x) && x.focused is None {
                let i = choose|i: int|
                    x.next <= i < x.tabs.len() && (#[trigger] x.tabs[i]).focused;
                assert(v.tabs[i].focused);
            }
            if current(v).focused {
                assert(v.tabs[v.next as int].focused);
            }
        }
    }
}

/// A sync as it visits the first tab: its lists are read, and what was remembered of
/// tabs that are gone is forgotten.
pub open spec fn ready_for_tabs(
    config: Settings,
    labels: Map<Seq<char>, Seq<char>>,
    force: bool,
    environment: EnvironmentView,
    world: World,
) -> SyncView {
    SyncView {
        labels: labels.restrict(tab_ids(world.tabs).to_set()),
        ..at_first_tab(started(config, labels, force, environment), world)
    }
}

/// A whole sync from its start.
pub open spec fn whole_sync(
    config: Settings,
    labels: Map<Seq<char>, Seq<char>>,
    force: bool,
    environment: EnvironmentView,
    world: World,
) -> (SyncView, ActionView) {
    let (v, action) = step(started(config, labels, force, environment), EventView::Begin);
    play(v, action, world)
}

/// What a whole sync comes to. It goes well exactly where Herdr tells the processes
/// that are asked for, for the managed tabs that have panes, and the template of the
/// window title has no fault where there is a title to set. Then every tab has its
/// fate, one after the other; as many renamed tabs are counted as have another label
/// than before, and what is remembered is saved where it has changed.
pub proof fn law_whole_sync(
    config: Settings,
    labels: Map<Seq<char>, Seq<char>>,
    force: bool,
    environment: EnvironmentView,
    world: World,
)
    requires
        world.tabs.len() <= usize::MAX,
    ensures
        ({
            let first = ready_for_tabs(config, labels, force, environment, world);
            let (w, last) = whole_sync(config, labels, force, environment, world);
            let end = after_all_tabs(first, world);
            &&& last is Done <==> answers(first, world) && title_works(first)
            &&& last is Done ==> last == ActionView::Done {
                changed: end.changed,
                save: labels != end.labels,
            } && w.labels == end.labels
        }),
{
    let start = started(config, labels, force, environment);
    let v = lemma_play_to_first_tab(start, world);
    let first = ready_for_tabs(config, labels, force, environment, world);
    let w = SyncView { labels: first.labels, ..v };
    assert forall|key: Seq<char>| #[trigger] w.groups.dom().contains(key) implies w.groups[key].len()
        > 0 by {
        law_panes_are_grouped_by_tab(world.panes, key, arbitrary());
    }
    lemma_visits_come_to(w, world);
    lemma_alike_after_all_tabs(first, w, world);
    assert(has_focus(w) == has_focus(first)) by {
        assert(w.tabs == first.tabs && w.next == first.next && w.focused == first.focused);
    }
}

// ---------------------------------------------------------------------- at rest

/// There is nothing to do for the tab at place `i`: it has no panes; or it was named by
/// hand, is not remembered and has its number; or there is no label that it should
/// have; or it has that label and was given it.
pub open spec fn at_rest(v: SyncView, i: nat, world: World) -> bool {
    let tab = v.tabs[i as int];
    v.groups.dom().contains(tab.tab_id) ==> if !manages(tab, v.labels, v.force) {
        &&& !v.labels.dom().contains(tab.tab_id)
        &&& renumbered(tab.label, tab.display_number as nat, v.config.show_tab_number) is None
    } else {
        let label = label_for(v, i, world);
        &&& world.processes.dom().contains(source_at(v, i, world).pane_id)
        &&& label.len() > 0 ==> label == tab.label && v.labels.dom().contains(tab.tab_id)
            && v.labels[tab.tab_id] == label
    }
}

/// There is nothing to do for any tab from the one at hand on.
pub open spec fn all_at_rest(v: SyncView, world: World) -> bool {
    forall|i: nat| v.next <= i < v.tabs.len() ==> #[trigger] at_rest(v, i, world)
}

/// Where there is nothing to do for any tab, the visits change nothing.
proof fn lemma_visits_at_rest(v: SyncView, world: World)
    requires
        all_at_rest(v, world),
    ensures
        answers(v, world),
        after_all_tabs(v, world).labels == v.labels,
        after_all_tabs(v, world).changed == v.changed,
    decreases v.tabs.len() - v.next,
{
    if v.next < v.tabs.len() {
        assert(at_rest(v, v.next, world));
        let w = after_tab(v, world);
        assert(w.labels =~= v.labels);
        assert(w.changed == v.changed);
        assert forall|i: nat| w.next <= i < w.tabs.len() implies #[trigger] at_rest(w, i, world) by {
            assert(at_rest(v, i, world));
            assert((SyncView { next: i, ..w }) == (SyncView { next: i, ..v }));
        }
        lemma_visits_at_rest(w, world);
    }
}

/// Where there is nothing to do for any tab, and nothing is remembered of tabs that
/// are gone, a whole sync renames no tab and saves nothing.
pub proof fn law_sync_at_rest_changes_nothing(
    config: Settings,
    labels: Map<Seq<char>, Seq<char>>,
    force: bool,
    environment: EnvironmentView,
    world: World,
)
    requires
        world.tabs.len() <= usize::MAX,
        title_works(ready_for_tabs(config, labels, force, environment, world)),
        labels.dom().subset_of(tab_ids(world.tabs).to_set()),
        all_at_rest(ready_for_tabs(config, labels, force, environment, world), world),
    ensures
        ({
            let (w, last) = whole_sync(config, labels, force, environment, world);
            last == (ActionView::Done { changed: 0, save: false }) && w.labels == labels
        }),
{
    let first = ready_for_tabs(config, labels, force, environment, world);
    assert(first.labels =~= labels);
    law_whole_sync(config, labels, force, environment, world);
    lemma_visits_at_rest(first, world);
}

// ---------------------------------------------------------------- a second sync

/// Two maps have the same to say of a key.
pub open spec fn agree_on(
    a: Map<Seq<char>, Seq<char>>,
    b: Map<Seq<char>, Seq<char>>,
    key: Seq<char>,
) -> bool {
    a.dom().contains(key) == b.dom().contains(key) && (a.dom().contains(key) ==> a[key] == b[key])
}

/// No two tabs have the same id.
pub open spec fn ids_differ(tabs: Seq<TabView>) -> bool {
    forall|i: int, j: int|
        0 <= i < j < tabs.len() ==> (#[trigger] tabs[i]).tab_id != (#[trigger] tabs[j]).tab_id
}

/// The visit to one tab does not change the fate of another.
proof fn lemma_fates_are_independent(v: SyncView, i: nat, world: World)
    requires
        ids_differ(v.tabs),
        v.next < i < v.tabs.len(),
    ensures
        label_for(after_tab(v, world), i, world) == label_for(v, i, world),
        fate(after_tab(v, world), i, world) == fate(v, i, world),
        agree_on(
            remembered_after(after_tab(v, world), i, world),
            remembered_after(v, i, world),
            v.tabs[i as int].tab_id,
        ),
        answers_for(after_tab(v, world), i, world) == answers_for(v, i, world),
{
    assert(v.tabs[v.next as int].tab_id != v.tabs[i as int].tab_id);
}

/// What is asked for at a tab does not depend on the visits before.
proof fn lemma_answers_for_each(v: SyncView, i: nat, world: World)
    requires
        ids_differ(v.tabs),
        answers(v, world),
        v.next <= i < v.tabs.len(),
    ensures
        answers_for(v, i, world),
    decreases v.tabs.len() - v.next,
{
    if v.next < i {
        lemma_answers_for_each(after_tab(v, world), i, world);
        lemma_fates_are_independent(v, i, world);
    }
}

/// What is remembered of a tab in the end is what its own visit left; of other keys
/// it is what was remembered before.
proof fn lemma_end_of_visits(v: SyncView, world: World)
    requires
        ids_differ(v.tabs),
        v.next <= v.tabs.len(),
    ensures
        forall|i: nat|
            v.next <= i < v.tabs.len() ==> agree_on(
                after_all_tabs(v, world).labels,
                #[trigger] remembered_after(v, i, world),
                v.tabs[i as int].tab_id,
            ),
        forall|key: Seq<char>|
            (forall|i: int| v.next <= i < v.tabs.len() ==> (#[trigger] v.tabs[i]).tab_id != key)
                ==> #[trigger] agree_on(after_all_tabs(v, world).labels, v.labels, key),
    decreases v.tabs.len() - v.next,
{
    let end = after_all_tabs(v, world).labels;
    if v.next < v.tabs.len() {
        let w = after_tab(v, world);
        lemma_end_of_visits(w, world);
        assert forall|i: nat| v.next <= i < v.tabs.len() implies agree_on(
            end,
            #[trigger] remembered_after(v, i, world),
            v.tabs[i as int].tab_id,
        ) by {
            if i == v.next {
                assert forall|j: int| w.next <= j < w.tabs.len() implies (#[trigger] w.tabs[j]).tab_id
                    != v.tabs[i as int].tab_id by {
                    assert(v.tabs[i as int].tab_id != v.tabs[j].tab_id);
                }
                assert(agree_on(end, w.labels, v.tabs[i as int].tab_id));
            } else {
                lemma_fates_are_independent(v, i, world);
                assert(agree_on(end, remembered_after(w, i, world), w.tabs[i as int].tab_id));
            }
        }
        assert forall|key: Seq<char>|
            (forall|i: int| v.next <= i < v.tabs.len() ==> (#[trigger] v.tabs[i]).tab_id != key)
        implies #[trigger] agree_on(end, v.labels, key) by {
            assert(v.tabs[v.next as int].tab_id != key);
            assert forall|i: int| w.next <= i < w.tabs.len() implies (#[trigger] w.tabs[i]).tab_id
                != key by {
                assert(v.tabs[i].tab_id != key);
            }
            assert(agree_on(end, w.labels, key));
        }
    }
}

/// The tabs with the labels that they have after a sync.
pub open spec fn relabeled(v: SyncView, world: World) -> Seq<TabView> {
    Seq::new(
        v.tabs.len(),
        |i: int| TabView { label: new_label(v, i as nat, world), ..v.tabs[i] },
    )
}

/// A tab that was named by hand comes to rest at once. This is not so of a text that
/// a second number would change, nor, where no numbers are shown, of a label that
/// looks as if nobody had given it, unless there is no label that the tab should
/// have.
pub open spec fn comes_to_rest(v: SyncView, i: nat, world: World) -> bool {
    let tab = v.tabs[i as int];
    if v.config.show_tab_number {
        stays_put(unnumbered(tab.label))
    } else {
        is_default_label(tab.label) ==> world.processes.dom().contains(
            source_at(v, i, world).pane_id,
        ) && label_for(v, i, world).len() == 0
    }
}

proof fn lemma_tab_is_at_rest(v: SyncView, w: SyncView, i: nat, world: World, later: World)
    requires
        i < v.tabs.len(),
        answers_for(v, i, world),
        fate(v, i, world) is ByHand ==> comes_to_rest(v, i, world),
        later == (World { tabs: relabeled(v, world), ..world }),
        w == (SyncView { tabs: later.tabs, labels: w.labels, before: w.before, ..v }),
        agree_on(w.labels, remembered_after(v, i, world), v.tabs[i as int].tab_id),
    ensures
        at_rest(w, i, later),
{
    let tab = v.tabs[i as int];
    let now = w.tabs[i as int];
    assert(now == (TabView { label: new_label(v, i, world), ..tab }));
    if v.groups.dom().contains(tab.tab_id) {
        let group = v.groups[tab.tab_id];
        assert(laid_out(later, group) == laid_out(world, group));
        assert(source_of(now, group, laid_out(world, group)) == source_of(
            tab,
            group,
            laid_out(world, group),
        ));
        let source = source_of(tab, group, laid_out(world, group))->0;
        assert(wanted(SyncView { next: i, ..w }, source, world.processes[source.pane_id])
            == label_for(v, i, world));
        if fate(v, i, world) is ByHand {
            let number = tab.display_number as nat;
            if v.config.show_tab_number {
                assert(now.label == numbered(number, unnumbered(tab.label), true));
                law_renumbering_settles(tab.label, number);
                law_numbered_label_is_not_default(unnumbered(tab.label), number);
            }
        }
    }
}

/// A second sync right after one that went well renames no tab, saves nothing and
/// remembers the same, where nothing but the labels of the tabs has changed.
pub proof fn law_second_sync_changes_nothing(
    config: Settings,
    labels: Map<Seq<char>, Seq<char>>,
    force: bool,
    environment: EnvironmentView,
    world: World,
)
    requires
        world.tabs.len() <= usize::MAX,
        ids_differ(world.tabs),
        whole_sync(config, labels, force, environment, world).1 is Done,
        ({
            let first = ready_for_tabs(config, labels, force, environment, world);
            forall|i: nat|
                i < world.tabs.len() && fate(first, i, world) is ByHand ==> #[trigger] comes_to_rest(
                    first,
                    i,
                    world,
                )
        }),
    ensures
        ({
            let first = ready_for_tabs(config, labels, force, environment, world);
            let end = whole_sync(config, labels, force, environment, world).0.labels;
            let later = World { tabs: relabeled(first, world), ..world };
            let (w, last) = whole_sync(config, end, force, environment, later);
            last == (ActionView::Done { changed: 0, save: false }) && w.labels == end
        }),
{
    let first = ready_for_tabs(config, labels, force, environment, world);
    law_whole_sync(config, labels, force, environment, world);
    let end = after_all_tabs(first, world).labels;
    let later = World { tabs: relabeled(first, world), ..world };
    let ready = ready_for_tabs(config, end, force, environment, later);
    lemma_end_of_visits(first, world);
    assert(tab_ids(later.tabs) =~= tab_ids(world.tabs));
    assert(end.dom().subset_of(tab_ids(later.tabs).to_set())) by {
        assert forall|key: Seq<char>| end.dom().contains(key) implies tab_ids(
            later.tabs,
        ).to_set().contains(key) by {
            if !tab_ids(world.tabs).contains(key) {
                assert forall|i: int| first.next <= i < first.tabs.len() implies (
                #[trigger] first.tabs[i]).tab_id != key by {
                    assert(tab_ids(world.tabs)[i] == first.tabs[i].tab_id);
                }
                assert(agree_on(end, first.labels, key));
            }
        }
    }
    assert(ready.labels =~= end);
    assert forall|i: nat| ready.next <= i < ready.tabs.len() implies #[trigger] at_rest(
        ready,
        i,
        later,
    ) by {
        lemma_answers_for_each(first, i, world);
        assert(agree_on(end, remembered_after(first, i, world), first.tabs[i as int].tab_id));
        assert(fate(first, i, world) is ByHand ==> comes_to_rest(first, i, world));
        lemma_tab_is_at_rest(first, ready, i, world, later);
    }
    assert(title_works(ready)) by {
        if has_focus(ready) {
            let i = choose|i: int|
                ready.next <= i < ready.tabs.len() && (#[trigger] ready.tabs[i]).focused;
            assert(first.tabs[i].focused);
        }
    }
    law_sync_at_rest_changes_nothing(config, end, force, environment, later);
}

/// Where numbers are shown and all labels are clean, a second sync right after one
/// that went well changes nothing.
pub proof fn law_second_sync_of_clean_labels_changes_nothing(
    config: Settings,
    labels: Map<Seq<char>, Seq<char>>,
    force: bool,
    environment: EnvironmentView,
    world: World,
)
    requires
        world.tabs.len() <= usize::MAX,
        ids_differ(world.tabs),
        whole_sync(config, labels, force, environment, world).1 is Done,
        config.show_tab_number,
        forall|i: int|
            0 <= i < world.tabs.len() ==> clean((#[trigger] world.tabs[i]).label)
                == world.tabs[i].label,
    ensures
        ({
            let first = ready_for_tabs(config, labels, force, environment, world);
            let end = whole_sync(config, labels, force, environment, world).0.labels;
            let later = World { tabs: relabeled(first, world), ..world };
            let (w, last) = whole_sync(config, end, force, environment, later);
            last == (ActionView::Done { changed: 0, save: false }) && w.labels == end
        }),
{
    let first = ready_for_tabs(config, labels, force, environment, world);
    assert forall|i: nat|
        i < world.tabs.len() && fate(
            first,
            i,
            world,
        ) is ByHand implies #[trigger] comes_to_rest(first, i, world) by {
        law_clean_text_stays_put(world.tabs[i as int].label);
    }
    law_second_sync_changes_nothing(config, labels, force, environment, world);
}

// ------------------------------------------------------- what a sync does to the user

/// The sync after the visits to all tabs from the one at hand on.
pub open spec fn all_visited(v: SyncView, world: World) -> SyncView
    decreases v.tabs.len() - v.next,
{
    if v.next >= v.tabs.len() {
        v
    } else {
        all_visited(visited(v, world), world)
    }
}

/// The renames that the visits to all tabs from the one at hand on ask for.
pub open spec fn all_deeds(v: SyncView, world: World) -> Seq<ActionView>
    decreases v.tabs.len() - v.next,
{
    if v.next >= v.tabs.len() {
        seq![]
    } else {
        deed_at(v, v.next, world) + all_deeds(visited(v, world), world)
    }
}

proof fn lemma_stage_does_not_matter(v: SyncView, w: SyncView, world: World)
    requires
        w == (SyncView { stage: w.stage, ..v }),
    ensures
        all_deeds(v, world) == all_deeds(w, world),
        all_visited(w, world) == (SyncView {
            stage: all_visited(w, world).stage,
            ..all_visited(v, world)
        }),
    decreases v.tabs.len() - v.next,
{
    if v.next < v.tabs.len() {
        lemma_alike_fate(v, w, v.next, world);
        assert(source_at(v, v.next, world) == source_at(w, v.next, world));
        lemma_stage_does_not_matter(visited(v, world), visited(w, world), world);
    }
}

proof fn lemma_deeds_of_visits(v: SyncView, world: World)
    requires
        counts(v),
        v.tabs.len() <= usize::MAX,
        groups_hold_panes(v),
        answers(v, world),
    ensures
        ({
            let end = all_visited(v, world);
            &&& counts(end) && end.next >= end.tabs.len() && end.tabs == v.tabs
            &&& deeds(visit(v).0, visit(v).1, world) == all_deeds(v, world) + deeds(
                finish(end).0,
                finish(end).1,
                world,
            )
        }),
    decreases v.tabs.len() - v.next,
{
    if v.next >= v.tabs.len() {
        let rest = deeds(finish(v).0, finish(v).1, world);
        assert(all_deeds(v, world) + rest =~= rest);
    } else {
        let x = lemma_tab_comes_to(v, world);
        let y = visited(v, world);
        lemma_stage_does_not_matter(y, x, world);
        lemma_alike_after_all_tabs(after_tab(v, world), x, world);
        lemma_deeds_of_visits(x, world);
        let one = all_visited(x, world);
        let other = all_visited(y, world);
        assert(finish(one) == finish(other)) by {
            assert(one == (SyncView { stage: one.stage, ..other }));
            assert(SyncView { stage: StageView::Over, ..one } == SyncView {
                stage: StageView::Over,
                ..other
            });
        }
        let rest = deeds(finish(one).0, finish(one).1, world);
        assert((deed_at(v, v.next, world) + all_deeds(x, world)) + rest =~= deed_at(
            v,
            v.next,
            world,
        ) + (all_deeds(x, world) + rest));
    }
}

proof fn lemma_either_holds(a: Seq<ActionView>, b: Seq<ActionView>, x: ActionView)
    ensures
        (a + b).contains(x) <==> a.contains(x) || b.contains(x),
{
    if a.contains(x) {
        let i = choose|i: int| 0 <= i < a.len() && a[i] == x;
        assert((a + b)[i] == x);
    }
    if b.contains(x) {
        let i = choose|i: int| 0 <= i < b.len() && b[i] == x;
        assert((a + b)[a.len() + i] == x);
    }
    if (a + b).contains(x) {
        let i = choose|i: int| 0 <= i < (a + b).len() && (a + b)[i] == x;
        if i < a.len() {
            assert(a[i] == x);
        } else {
            assert(b[i - a.len()] == x);
        }
    }
}

/// Of a tab, the visits ask for what its own visit asks for, where ids differ.
proof fn lemma_deeds_of_a_tab(v: SyncView, world: World, i: nat, action: ActionView)
    requires
        ids_differ(v.tabs),
        v.next <= i < v.tabs.len(),
        action matches ActionView::Rename { tab_id, .. } && tab_id == v.tabs[i as int].tab_id,
    ensures
        all_deeds(v, world).contains(action) <==> deed_at(v, i, world).contains(action),
    decreases v.tabs.len() - v.next,
{
    let w = visited(v, world);
    let first = deed_at(v, v.next, world);
    lemma_either_holds(first, all_deeds(w, world), action);
    if v.next < i {
        lemma_deeds_of_a_tab(w, world, i, action);
        lemma_fates_are_independent(v, i, world);
        let x = after_tab(v, world);
        lemma_alike_fate(x, w, i, world);
        assert(deed_at(w, i, world) == deed_at(v, i, world));
        assert(v.tabs[v.next as int].tab_id != v.tabs[i as int].tab_id);
        assert(!first.contains(action));
    } else {
        lemma_no_deeds_behind(w, world, action);
    }
}

proof fn lemma_no_deeds_behind(v: SyncView, world: World, action: ActionView)
    requires
        action matches ActionView::Rename { tab_id, .. } && forall|j: int|
            v.next <= j < v.tabs.len() ==> (#[trigger] v.tabs[j]).tab_id != tab_id,
    ensures
        !all_deeds(v, world).contains(action),
    decreases v.tabs.len() - v.next,
{
    if v.next < v.tabs.len() {
        let w = visited(v, world);
        assert(v.tabs[v.next as int].tab_id != action->Rename_tab_id);
        assert forall|j: int| w.next <= j < w.tabs.len() implies (#[trigger] w.tabs[j]).tab_id
            != action->Rename_tab_id by {
            assert(v.tabs[j].tab_id != action->Rename_tab_id);
        }
        lemma_no_deeds_behind(w, world, action);
        lemma_either_holds(deed_at(v, v.next, world), all_deeds(w, world), action);
    }
}

/// The processes of the machine, as far as a sync looks at them.
pub open spec fn listed_processes(config: Settings, world: World) -> Seq<WindowsProcessEntry> {
    match world.snapshot {
        Some(entries) => if config.windows_process_detection {
            entries
        } else {
            seq![]
        },
        None => seq![],
    }
}

/// What the window title of a focused tab is made of: the name of the machine, the tab
/// under its label and in its workspace, and of the pane its title, directory, agent
/// and program. Without a pane these four are missing.
pub open spec fn title_context(
    config: Settings,
    environment: EnvironmentView,
    world: World,
    tab: TabView,
    label: Seq<char>,
    pane: Option<PaneView>,
) -> TitleValues {
    let cwd = match pane {
        Some(p) => if p.foreground_cwd is Some {
            p.foreground_cwd
        } else {
            p.cwd
        },
        None => None,
    };
    let home = if config.shorten_home_directory {
        environment.home
    } else {
        None
    };
    TitleValues {
        hostname: environment.hostname,
        hostname_lowercase: match environment.hostname {
            Some(name) => Some(lower_all(name)),
            None => None,
        },
        hostname_uppercase: match environment.hostname {
            Some(name) => Some(upper_all(name)),
            None => None,
        },
        tab_label: label,
        internal_title: match pane {
            Some(p) => p.internal_title,
            None => None,
        },
        tab_number: tab.display_number as nat,
        workspace: if world.workspaces.dom().contains(tab.workspace_id) {
            Some(world.workspaces[tab.workspace_id])
        } else {
            None
        },
        cwd,
        directory: match cwd {
            Some(path) => Some(
                label_with_home(
                    path,
                    config.directory_depth as nat,
                    home,
                    environment.is_windows,
                ),
            ),
            None => None,
        },
        process: match pane {
            Some(p) => if world.processes.dom().contains(p.pane_id) {
                foreground(
                    world.processes[p.pane_id],
                    listed_processes(config, world),
                    environment.is_windows,
                )
            } else {
                None
            },
            None => None,
        },
        agent: match pane {
            Some(p) => p.agent,
            None => None,
        },
    }
}

/// The deeds of a sync that has visited all tabs: the window title, where there is one
/// to set.
proof fn lemma_deed_of_title(v: SyncView, world: World)
    requires
        counts(v),
        v.tabs.len() <= usize::MAX,
        v.next >= v.tabs.len(),
        v.config.set_window_title ==> v.workspaces == world.workspaces,
        v.snapshot == listed_processes(v.config, world),
    ensures
        deeds(finish(v).0, finish(v).1, world) == if v.config.set_window_title && v.focused is Some
            && is_template(v.config.terminal_title_template) {
            let focus = v.focused->0;
            seq![
                ActionView::SetTitle {
                    tab_label: focus.label,
                    title: title_of(
                        v.config.terminal_title_template,
                        title_context(
                            v.config,
                            v.environment,
                            world,
                            focus.tab,
                            focus.label,
                            v.focused_pane,
                        ),
                    )->Ok_0,
                },
            ]
        } else {
            Seq::<ActionView>::empty()
        },
{
    let (w, action) = finish(v);
    if w.stage is TitleProcesses {
        let event = answer(world, action);
        let (x, next) = step(w, event);
        let process = match event {
            EventView::Processes(info) => foreground(info, w.snapshot, w.environment.is_windows),
            _ => None,
        };
        law_template_alone_decides(w, process);
        assert((x, next) == entitle(w, process));
        assert(deeds(w, action, world) =~= deeds(x, next, world));
        lemma_title_values(v, world, process);
        if next is SetTitle {
            lemma_set_title_ends_well(x, next, world);
        }
    } else if v.config.set_window_title && v.focused is Some {
        law_template_alone_decides(v, None);
        lemma_title_values(v, world, None);
        if action is SetTitle {
            lemma_set_title_ends_well(w, action, world);
        }
    }
}

proof fn lemma_title_values(v: SyncView, world: World, process: Option<Seq<char>>)
    requires
        v.focused is Some,
        v.workspaces == world.workspaces,
        v.snapshot == listed_processes(v.config, world),
        process == match v.focused_pane {
            Some(p) => if world.processes.dom().contains(p.pane_id) {
                foreground(world.processes[p.pane_id], v.snapshot, v.environment.is_windows)
            } else {
                None
            },
            None => None,
        },
    ensures
        title_values(
            v.focused->0.tab,
            v.focused->0.label,
            v.focused_pane,
            process,
            workspace_of(v, v.focused->0.tab),
            v.config,
            v.environment.hostname,
            v.environment.home,
            v.environment.is_windows,
        ) == title_context(
            v.config,
            v.environment,
            world,
            v.focused->0.tab,
            v.focused->0.label,
            v.focused_pane,
        ),
{
}

/// All that a whole sync does to tabs and to the window.
pub open spec fn whole_deeds(
    config: Settings,
    labels: Map<Seq<char>, Seq<char>>,
    force: bool,
    environment: EnvironmentView,
    world: World,
) -> Seq<ActionView> {
    let (v, action) = step(started(config, labels, force, environment), EventView::Begin);
    deeds(v, action, world)
}

proof fn lemma_whole_deeds(
    config: Settings,
    labels: Map<Seq<char>, Seq<char>>,
    force: bool,
    environment: EnvironmentView,
    world: World,
)
    requires
        world.tabs.len() <= usize::MAX,
        answers(ready_for_tabs(config, labels, force, environment, world), world),
    ensures
        ({
            let first = ready_for_tabs(config, labels, force, environment, world);
            let end = all_visited(first, world);
            &&& counts(end) && end.next >= end.tabs.len() && end.tabs == world.tabs
            &&& whole_deeds(config, labels, force, environment, world) == all_deeds(first, world)
                + deeds(finish(end).0, finish(end).1, world)
        }),
{
    let start = started(config, labels, force, environment);
    let v = lemma_play_to_first_tab(start, world);
    let first = ready_for_tabs(config, labels, force, environment, world);
    let w = SyncView { labels: first.labels, ..v };
    assert forall|key: Seq<char>| #[trigger] w.groups.dom().contains(key) implies w.groups[key].len()
        > 0 by {
        law_panes_are_grouped_by_tab(world.panes, key, arbitrary());
    }
    lemma_alike_after_all_tabs(first, w, world);
    lemma_deeds_of_visits(w, world);
    lemma_stage_does_not_matter(first, w, world);
    let one = all_visited(w, world);
    let other = all_visited(first, world);
    assert(finish(one) == finish(other)) by {
        assert(one == (SyncView { stage: one.stage, ..other }));
        assert(SyncView { stage: StageView::Over, ..one } == SyncView {
            stage: StageView::Over,
            ..other
        });
    }
}

/// What the visits leave as it is.
proof fn lemma_visits_keep(v: SyncView, world: World)
    ensures
        ({
            let end = all_visited(v, world);
            &&& end.config == v.config
            &&& end.environment == v.environment
            &&& end.workspaces == v.workspaces
            &&& end.snapshot == v.snapshot
            &&& end.tabs == v.tabs
        }),
    decreases v.tabs.len() - v.next,
{
    if v.next < v.tabs.len() {
        lemma_visits_keep(visited(v, world), world);
    }
}

/// The last tab with the focus is the one that the window title is about.
proof fn lemma_focus_is_left(v: SyncView, world: World, k: nat)
    requires
        ids_differ(v.tabs),
        v.next <= k < v.tabs.len(),
        v.tabs[k as int].focused,
        forall|j: int| k < j < v.tabs.len() ==> !(#[trigger] v.tabs[j]).focused,
    ensures
        all_visited(v, world).focused == Some(
            Focus { tab: v.tabs[k as int], label: new_label(v, k, world) },
        ),
        v.groups.dom().contains(v.tabs[k as int].tab_id) ==> all_visited(v, world).focused_pane
            == Some(source_at(v, k, world)),
    decreases v.tabs.len() - v.next,
{
    let w = visited(v, world);
    if v.next < k {
        lemma_focus_is_left(w, world, k);
        lemma_fates_are_independent(v, k, world);
        lemma_alike_fate(after_tab(v, world), w, k, world);
        assert(new_label(w, k, world) == new_label(v, k, world));
    } else {
        lemma_focus_stays(w, world);
    }
}

proof fn lemma_focus_stays(v: SyncView, world: World)
    requires
        forall|j: int| v.next <= j < v.tabs.len() ==> !(#[trigger] v.tabs[j]).focused,
    ensures
        all_visited(v, world).focused == v.focused,
        all_visited(v, world).focused_pane == v.focused_pane,
    decreases v.tabs.len() - v.next,
{
    if v.next < v.tabs.len() {
        assert(!v.tabs[v.next as int].focused);
        lemma_focus_stays(visited(v, world), world);
    }
}

proof fn lemma_no_pane_is_left(v: SyncView, world: World)
    requires
        forall|j: int|
            v.next <= j < v.tabs.len() && (#[trigger] v.tabs[j]).focused ==> !v.groups.dom().contains(
                v.tabs[j].tab_id,
            ),
    ensures
        all_visited(v, world).focused_pane == v.focused_pane,
    decreases v.tabs.len() - v.next,
{
    if v.next < v.tabs.len() {
        assert(v.tabs[v.next as int].focused ==> !v.groups.dom().contains(
            v.tabs[v.next as int].tab_id,
        ));
        lemma_no_pane_is_left(visited(v, world), world);
    }
}

/// A whole sync sets the window title once, where the settings ask for one, a tab has
/// the focus and the template has no fault; and it is the last thing that it does. The
/// title is that of the last tab with the focus, under the label that this tab has by
/// then, and of the pane that the tab is named after: its template, with the values of
/// the tab and of the pane.
pub proof fn law_window_title_is_that_of_the_focused_tab(
    config: Settings,
    labels: Map<Seq<char>, Seq<char>>,
    force: bool,
    environment: EnvironmentView,
    world: World,
    k: nat,
)
    requires
        world.tabs.len() <= usize::MAX,
        answers(ready_for_tabs(config, labels, force, environment, world), world),
        ids_differ(world.tabs),
        k < world.tabs.len(),
        world.tabs[k as int].focused,
        forall|j: int| k < j < world.tabs.len() ==> !(#[trigger] world.tabs[j]).focused,
        config.set_window_title,
        is_template(config.terminal_title_template),
    ensures
        ({
            let first = ready_for_tabs(config, labels, force, environment, world);
            let done = whole_deeds(config, labels, force, environment, world);
            let tab = world.tabs[k as int];
            let label = new_label(first, k, world);
            let groups = grouped(world.panes);
            let group = groups[tab.tab_id];
            &&& done.len() > 0
            &&& forall|i: int| 0 <= i < done.len() - 1 ==> (#[trigger] done[i]) is Rename
            &&& groups.dom().contains(tab.tab_id) ==> {
                let pane = source_of(tab, group, laid_out(world, group))->0;
                done.last() == ActionView::SetTitle {
                    tab_label: label,
                    title: title_of(
                        config.terminal_title_template,
                        title_context(config, environment, world, tab, label, Some(pane)),
                    )->Ok_0,
                }
            }
            &&& (forall|j: int|
                0 <= j < world.tabs.len() && (#[trigger] world.tabs[j]).focused
                    ==> !groups.dom().contains(world.tabs[j].tab_id)) ==> done.last()
                == ActionView::SetTitle {
                tab_label: label,
                title: title_of(
                    config.terminal_title_template,
                    title_context(config, environment, world, tab, label, None),
                )->Ok_0,
            }
        }),
{
    let first = ready_for_tabs(config, labels, force, environment, world);
    let end = all_visited(first, world);
    lemma_whole_deeds(config, labels, force, environment, world);
    lemma_visits_keep(first, world);
    lemma_focus_is_left(first, world, k);
    assert(first.snapshot =~= listed_processes(config, world));
    lemma_deed_of_title(end, world);
    lemma_only_renames(first, world);
    let done = whole_deeds(config, labels, force, environment, world);
    assert forall|i: int| 0 <= i < done.len() - 1 implies (#[trigger] done[i]) is Rename by {
        assert(done[i] == all_deeds(first, world)[i]);
    }
    if forall|j: int|
        0 <= j < world.tabs.len() && (#[trigger] world.tabs[j]).focused ==> !grouped(
            world.panes,
        ).dom().contains(world.tabs[j].tab_id) {
        lemma_no_pane_is_left(first, world);
    }
}

proof fn lemma_only_renames(v: SyncView, world: World)
    ensures
        forall|i: int|
            0 <= i < all_deeds(v, world).len() ==> (#[trigger] all_deeds(v, world)[i]) is Rename,
    decreases v.tabs.len() - v.next,
{
    if v.next < v.tabs.len() {
        let w = visited(v, world);
        lemma_only_renames(w, world);
        let one = deed_at(v, v.next, world);
        assert forall|i: int| 0 <= i < all_deeds(v, world).len() implies (#[trigger] all_deeds(
            v,
            world,
        )[i]) is Rename by {
            if i >= one.len() {
                assert(all_deeds(v, world)[i] == all_deeds(w, world)[i - one.len()]);
            }
        }
    }
}

/// The window is left alone where the settings do not ask for a title, or no tab has
/// the focus.
pub proof fn law_window_is_left_alone(
    config: Settings,
    labels: Map<Seq<char>, Seq<char>>,
    force: bool,
    environment: EnvironmentView,
    world: World,
)
    requires
        world.tabs.len() <= usize::MAX,
        answers(ready_for_tabs(config, labels, force, environment, world), world),
        !config.set_window_title || forall|j: int|
            0 <= j < world.tabs.len() ==> !(#[trigger] world.tabs[j]).focused,
    ensures
        forall|i: int|
            0 <= i < whole_deeds(config, labels, force, environment, world).len() ==> (
            #[trigger] whole_deeds(config, labels, force, environment, world)[i]) is Rename,
{
    let first = ready_for_tabs(config, labels, force, environment, world);
    let end = all_visited(first, world);
    lemma_whole_deeds(config, labels, force, environment, world);
    lemma_visits_keep(first, world);
    assert(first.snapshot =~= listed_processes(config, world));
    if config.set_window_title {
        lemma_focus_stays(first, world);
    }
    lemma_deed_of_title(end, world);
    lemma_only_renames(first, world);
}

/// Every tab is renamed as it should be, and no tab otherwise. A managed tab gets the
/// name of the pane that it is named after, with its number where numbers are shown;
/// one that was named by hand gets no more than its number. A tab that has its label
/// already is not renamed, nor is one without panes, nor one for which there is no
/// name.
pub proof fn law_tabs_are_renamed_as_they_should_be(
    config: Settings,
    labels: Map<Seq<char>, Seq<char>>,
    force: bool,
    environment: EnvironmentView,
    world: World,
    k: nat,
    label: Seq<char>,
    manual: bool,
)
    requires
        world.tabs.len() <= usize::MAX,
        answers(ready_for_tabs(config, labels, force, environment, world), world),
        ids_differ(world.tabs),
        k < world.tabs.len(),
    ensures
        ({
            let tab = world.tabs[k as int];
            let groups = grouped(world.panes);
            let group = groups[tab.tab_id];
            let pane = source_of(tab, group, laid_out(world, group))->0;
            let named = numbered(
                tab.display_number as nat,
                pane_label(
                    pane,
                    config,
                    world.processes[pane.pane_id],
                    listed_processes(config, world),
                    environment.home,
                    environment.is_windows,
                ),
                config.show_tab_number,
            );
            whole_deeds(config, labels, force, environment, world).contains(
                ActionView::Rename { tab_id: tab.tab_id, label, manual },
            ) <==> {
                &&& groups.dom().contains(tab.tab_id)
                &&& if manages(tab, labels, force) {
                    !manual && label == named && named.len() > 0 && named != tab.label
                } else {
                    manual && renumbered(
                        tab.label,
                        tab.display_number as nat,
                        config.show_tab_number,
                    ) == Some(label)
                }
            }
        }),
{
    let first = ready_for_tabs(config, labels, force, environment, world);
    let end = all_visited(first, world);
    let tab = world.tabs[k as int];
    let action = ActionView::Rename { tab_id: tab.tab_id, label, manual };
    lemma_whole_deeds(config, labels, force, environment, world);
    lemma_visits_keep(first, world);
    assert(first.snapshot =~= listed_processes(config, world));
    lemma_deed_of_title(end, world);
    let last = deeds(finish(end).0, finish(end).1, world);
    lemma_either_holds(all_deeds(first, world), last, action);
    assert(!last.contains(action));
    lemma_deeds_of_a_tab(first, world, k, action);
    assert(tab_ids(world.tabs)[k as int] == tab.tab_id);
    assert(tab_ids(world.tabs).contains(tab.tab_id));
    assert(manages(tab, first.labels, force) == manages(tab, labels, force));
    let one = deed_at(first, k, world);
    if one.len() > 0 {
        assert(one[0] == one[0]);
        assert(one.contains(one[0]));
    }
    if one.contains(action) {
        assert(action == one[0]);
    }
}

/// What a sync that goes well leaves to be remembered of a tab with panes: the name of
/// a managed tab, and nothing of one that was named by hand. Of a tab without panes,
/// or without a name, it is what was remembered before; of tabs that are gone it is
/// nothing.
pub proof fn law_given_names_are_remembered(
    config: Settings,
    labels: Map<Seq<char>, Seq<char>>,
    force: bool,
    environment: EnvironmentView,
    world: World,
    k: nat,
    gone: Seq<char>,
)
    requires
        world.tabs.len() <= usize::MAX,
        whole_sync(config, labels, force, environment, world).1 is Done,
        ids_differ(world.tabs),
        k < world.tabs.len(),
        forall|j: int| 0 <= j < world.tabs.len() ==> (#[trigger] world.tabs[j]).tab_id != gone,
    ensures
        ({
            let tab = world.tabs[k as int];
            let groups = grouped(world.panes);
            let group = groups[tab.tab_id];
            let pane = source_of(tab, group, laid_out(world, group))->0;
            let named = numbered(
                tab.display_number as nat,
                pane_label(
                    pane,
                    config,
                    world.processes[pane.pane_id],
                    listed_processes(config, world),
                    environment.home,
                    environment.is_windows,
                ),
                config.show_tab_number,
            );
            let left = whole_sync(config, labels, force, environment, world).0.labels;
            &&& !left.dom().contains(gone)
            &&& if !groups.dom().contains(tab.tab_id) {
                agree_on(left, labels, tab.tab_id)
            } else if !manages(tab, labels, force) {
                !left.dom().contains(tab.tab_id)
            } else if named.len() == 0 {
                agree_on(left, labels, tab.tab_id)
            } else {
                left.dom().contains(tab.tab_id) && left[tab.tab_id] == named
            }
        }),
{
    let first = ready_for_tabs(config, labels, force, environment, world);
    let tab = world.tabs[k as int];
    law_whole_sync(config, labels, force, environment, world);
    lemma_end_of_visits(first, world);
    assert(agree_on(
        after_all_tabs(first, world).labels,
        remembered_after(first, k, world),
        first.tabs[k as int].tab_id,
    ));
    assert(first.snapshot =~= listed_processes(config, world));
    assert(tab_ids(world.tabs)[k as int] == tab.tab_id);
    assert(tab_ids(world.tabs).contains(tab.tab_id));
    assert(manages(tab, first.labels, force) == manages(tab, labels, force));
    assert(!tab_ids(world.tabs).contains(gone)) by {
        if tab_ids(world.tabs).contains(gone) {
            let j = choose|j: int|
                0 <= j < tab_ids(world.tabs).len() && tab_ids(world.tabs)[j] == gone;
            assert(world.tabs[j].tab_id == gone);
        }
    }
    assert(agree_on(after_all_tabs(first, world).labels, first.labels, gone));
}

proof fn lemma_only_pane(panes: Seq<PaneView>, m: int)
    requires
        0 <= m < panes.len(),
        forall|j: int|
            0 <= j < panes.len() && j != m ==> (#[trigger] panes[j]).tab_id != panes[m].tab_id,
    ensures
        panes_of(panes, panes[m].tab_id) == seq![panes[m]],
    decreases panes.len(),
{
    let id = panes[m].tab_id;
    let shorter = panes.drop_last();
    if m == panes.len() - 1 {
        lemma_no_panes(shorter, id);
        assert(panes_of(panes, id) =~= seq![panes[m]]);
    } else {
        assert(panes[panes.len() - 1].tab_id != id);
        assert(shorter[m] == panes[m]);
        assert forall|j: int| 0 <= j < shorter.len() && j != m implies (#[trigger] shorter[j]).tab_id
            != shorter[m].tab_id by {
            assert(shorter[j] == panes[j]);
        }
        lemma_only_pane(shorter, m);
    }
}

proof fn lemma_no_panes(panes: Seq<PaneView>, id: Seq<char>)
    requires
        forall|j: int| 0 <= j < panes.len() ==> (#[trigger] panes[j]).tab_id != id,
    ensures
        panes_of(panes, id).len() == 0,
    decreases panes.len(),
{
    if panes.len() > 0 {
        assert(panes[panes.len() - 1].tab_id != id);
        assert forall|j: int| 0 <= j < panes.drop_last().len() implies (
        #[trigger] panes.drop_last()[j]).tab_id != id by {
            assert(panes.drop_last()[j] == panes[j]);
        }
        lemma_no_panes(panes.drop_last(), id);
    }
}

/// The window title shows the pane of the focused tab: where the tab has one pane, a
/// template of one placeholder gives what that pane is listed with.
pub proof fn law_window_title_shows_the_pane(
    config: Settings,
    labels: Map<Seq<char>, Seq<char>>,
    force: bool,
    environment: EnvironmentView,
    world: World,
    k: nat,
    m: int,
)
    requires
        world.tabs.len() <= usize::MAX,
        answers(ready_for_tabs(config, labels, force, environment, world), world),
        ids_differ(world.tabs),
        k < world.tabs.len(),
        world.tabs[k as int].focused,
        forall|j: int| k < j < world.tabs.len() ==> !(#[trigger] world.tabs[j]).focused,
        config.set_window_title,
        0 <= m < world.panes.len(),
        world.panes[m].tab_id == world.tabs[k as int].tab_id,
        forall|j: int|
            0 <= j < world.panes.len() && j != m ==> (#[trigger] world.panes[j]).tab_id
                != world.panes[m].tab_id,
    ensures
        ({
            let done = whole_deeds(config, labels, force, environment, world);
            let pane = world.panes[m];
            let template = config.terminal_title_template;
            let text = |value: Option<Seq<char>>|
                match value {
                    Some(s) => trim(s),
                    None => trim(seq![]),
                };
            &&& is_template(template) ==> done.len() > 0 && done.last() is SetTitle
            &&& template == placeholder("internal_title"@) ==> done.last()->SetTitle_title == text(
                pane.internal_title,
            )
            &&& template == placeholder("agent"@) ==> done.last()->SetTitle_title == text(pane.agent)
            &&& template == placeholder("cwd"@) ==> done.last()->SetTitle_title == text(
                if pane.foreground_cwd is Some {
                    pane.foreground_cwd
                } else {
                    pane.cwd
                },
            )
            &&& template == placeholder("hostname"@) ==> done.last()->SetTitle_title == text(
                environment.hostname,
            )
            &&& template == placeholder("tab_number"@) ==> done.last()->SetTitle_title == trim(
                decimal(world.tabs[k as int].display_number as nat),
            )
            &&& template == placeholder("tab_label"@) ==> done.last()->SetTitle_title == trim(
                done.last()->SetTitle_tab_label,
            )
        }),
{
    let tab = world.tabs[k as int];
    let pane = world.panes[m];
    lemma_only_pane(world.panes, m);
    let group = grouped(world.panes)[tab.tab_id];
    let one = seq![pane];
    assert(one.drop_last() =~= Seq::<PaneView>::empty());
    assert(sorted(Seq::<PaneView>::empty()) =~= Seq::<PaneView>::empty());
    assert(group =~= one);
    law_source_is_a_pane_of_the_tab(tab, group, laid_out(world, group));
    assert(source_of(tab, group, laid_out(world, group)) == Some(pane));
    let first = ready_for_tabs(config, labels, force, environment, world);
    let label = new_label(first, k, world);
    let context = title_context(config, environment, world, tab, label, Some(pane));
    let none = Seq::<char>::empty();
    let names = placeholders(context);
    assert(names[0].0 == "hostname"@);
    assert(names[3].0 == "tab_label"@);
    assert(names[4].0 == "internal_title"@);
    assert(names[5].0 == "tab_number"@);
    assert(names[7].0 == "cwd"@);
    assert(names[10].0 == "agent"@);
    law_placeholders_give_their_values(context, none, 0);
    law_placeholders_give_their_values(context, none, 3);
    law_placeholders_give_their_values(context, none, 4);
    law_placeholders_give_their_values(context, none, 5);
    law_placeholders_give_their_values(context, none, 7);
    law_placeholders_give_their_values(context, none, 10);
    law_accepted_templates_never_fail(config.terminal_title_template, context);
    if is_template(config.terminal_title_template) {
        law_window_title_is_that_of_the_focused_tab(
            config,
            labels,
            force,
            environment,
            world,
            k,
        );
    }
}

} // verus!
