//! Tabs and panes: which tabs are managed, how panes belong to tabs, and which pane
//! a tab is named after.
use crate::config::PluginConfig;
use crate::label::{format_tab_label, renumbered, strip_tab_number_prefix};
use crate::number::{decimal, lemma_decimal_denotes};
use crate::text::{
    before, copy_of, digits_only, is_digit, is_digits, law_digits_are_ascii,
    lemma_before_is_strict, lemma_before_is_transitive, same_text, str_of, text_before, text_of,
};
use crate::text_map::TextMap;
use vstd::prelude::*;

verus! {

/// A tab of Herdr.
#[derive(Debug, PartialEq, Eq)]
pub struct Tab {
    pub tab_id: String,
    pub workspace_id: String,
    pub label: String,
    /// The number that Herdr gave the tab when it was made.
    pub number: usize,
    /// The place of the tab among the tabs of its workspace, from one on.
    pub display_number: usize,
    pub focused: bool,
}

/// `Tab`, with its strings as sequences.
#[verifier::ext_equal]
pub struct TabView {
    pub tab_id: Seq<char>,
    pub workspace_id: Seq<char>,
    pub label: Seq<char>,
    pub number: usize,
    pub display_number: usize,
    pub focused: bool,
}

impl View for Tab {
    type V = TabView;

    open spec fn view(&self) -> TabView {
        TabView {
            tab_id: self.tab_id@,
            workspace_id: self.workspace_id@,
            label: self.label@,
            number: self.number,
            display_number: self.display_number,
            focused: self.focused,
        }
    }
}

impl Clone for Tab {
    fn clone(&self) -> (t: Self)
        ensures
            t@ == self@,
    {
        Tab {
            tab_id: self.tab_id.clone(),
            workspace_id: self.workspace_id.clone(),
            label: self.label.clone(),
            number: self.number,
            display_number: self.display_number,
            focused: self.focused,
        }
    }
}

/// A pane of a tab.
#[derive(Debug, PartialEq, Eq)]
pub struct Pane {
    pub pane_id: String,
    pub tab_id: String,
    pub focused: bool,
    pub cwd: Option<String>,
    pub foreground_cwd: Option<String>,
    pub agent: Option<String>,
    /// The title that the program in the pane set.
    pub internal_title: Option<String>,
}

/// `Pane`, with its strings as sequences.
#[verifier::ext_equal]
pub struct PaneView {
    pub pane_id: Seq<char>,
    pub tab_id: Seq<char>,
    pub focused: bool,
    pub cwd: Option<Seq<char>>,
    pub foreground_cwd: Option<Seq<char>>,
    pub agent: Option<Seq<char>>,
    pub internal_title: Option<Seq<char>>,
}

impl View for Pane {
    type V = PaneView;

    open spec fn view(&self) -> PaneView {
        PaneView {
            pane_id: self.pane_id@,
            tab_id: self.tab_id@,
            focused: self.focused,
            cwd: text_of(self.cwd),
            foreground_cwd: text_of(self.foreground_cwd),
            agent: text_of(self.agent),
            internal_title: text_of(self.internal_title),
        }
    }
}

impl Clone for Pane {
    fn clone(&self) -> (p: Self)
        ensures
            p@ == self@,
    {
        Pane {
            pane_id: self.pane_id.clone(),
            tab_id: self.tab_id.clone(),
            focused: self.focused,
            cwd: copy_of(&self.cwd),
            foreground_cwd: copy_of(&self.foreground_cwd),
            agent: copy_of(&self.agent),
            internal_title: copy_of(&self.internal_title),
        }
    }
}

/// The views of a row of tabs.
pub open spec fn tab_views(tabs: Seq<Tab>) -> Seq<TabView> {
    tabs.map_values(|t: Tab| t@)
}

/// The views of a row of panes.
pub open spec fn pane_views(panes: Seq<Pane>) -> Seq<PaneView> {
    panes.map_values(|p: Pane| p@)
}

// ------------------------------------------------------------------ managed tabs

/// The labels that were given to tabs, by the ids of the tabs.
#[derive(Debug)]
pub struct LabelState {
    pub labels: TextMap,
}

impl Default for LabelState {
    fn default() -> (s: Self)
        ensures
            s.labels@ == Map::<Seq<char>, Seq<char>>::empty(),
    {
        LabelState { labels: TextMap::new() }
    }
}

impl Clone for LabelState {
    fn clone(&self) -> (s: Self)
        ensures
            s.labels@ == self.labels@,
    {
        LabelState { labels: self.labels.clone() }
    }
}

/// A label as Herdr gives it to a new tab: a number.
pub open spec fn is_default_label(label: Seq<char>) -> bool {
    digits_only(label)
}

/// A tab is managed where this is forced, where its label is the one that it was
/// given last, or where it was given none and has a default label.
pub open spec fn manages(tab: TabView, labels: Map<Seq<char>, Seq<char>>, force: bool) -> bool {
    if force {
        true
    } else if labels.dom().contains(tab.tab_id) {
        labels[tab.tab_id] == tab.label
    } else {
        is_default_label(tab.label)
    }
}

/// Whether a label is one that Herdr gives to a new tab.
pub fn looks_like_default_numeric_label(label: &str) -> (b: bool)
    ensures
        b == is_default_label(label@),
{
    is_digits(label)
}

/// Whether a tab is managed.
pub fn should_manage_tab(tab: &Tab, state: &LabelState, force: bool) -> (b: bool)
    ensures
        b == manages(tab@, state.labels@, force),
{
    if force {
        return true;
    }
    match state.labels.get(tab.tab_id.as_str()) {
        Some(last) => same_text(last.as_str(), tab.label.as_str()),
        None => looks_like_default_numeric_label(tab.label.as_str()),
    }
}

/// Whether the labels have to be saved: they are no longer those that were read.
pub fn save_label_state_if_changed(previous: &LabelState, current: &LabelState) -> (save: bool)
    ensures
        save == (previous.labels@ != current.labels@),
{
    !previous.labels.same(&current.labels)
}

/// The label that a tab gets that was named by hand, or none where it keeps its
/// label.
pub fn desired_label_for_manual_tab(tab: &Tab, config: &PluginConfig) -> (new: Option<String>)
    ensures
        text_of(new) == renumbered(
            tab@.label,
            tab@.display_number as nat,
            config@.show_tab_number,
        ),
{
    if !config.show_tab_number {
        return None;
    }
    let desired = format_tab_label(
        tab.display_number,
        strip_tab_number_prefix(tab.label.as_str()),
        config,
    );
    if same_text(desired.as_str(), tab.label.as_str()) {
        None
    } else {
        Some(desired)
    }
}

// --------------------------------------------------------------- panes of a tab

/// A sorted row with one more pane, which comes after those with the same id.
pub open spec fn inserted(row: Seq<PaneView>, pane: PaneView) -> Seq<PaneView>
    decreases row.len(),
{
    if row.len() == 0 || !before(pane.pane_id, row.last().pane_id) {
        row.push(pane)
    } else {
        inserted(row.drop_last(), pane).push(row.last())
    }
}

/// Panes sorted by their ids; panes with the same id stay in order.
pub open spec fn sorted(panes: Seq<PaneView>) -> Seq<PaneView>
    decreases panes.len(),
{
    if panes.len() == 0 {
        panes
    } else {
        inserted(sorted(panes.drop_last()), panes.last())
    }
}

/// The panes of a tab, in the order in which they came.
pub open spec fn panes_of(panes: Seq<PaneView>, tab_id: Seq<char>) -> Seq<PaneView>
    decreases panes.len(),
{
    if panes.len() == 0 {
        panes
    } else if panes.last().tab_id == tab_id {
        panes_of(panes.drop_last(), tab_id).push(panes.last())
    } else {
        panes_of(panes.drop_last(), tab_id)
    }
}

/// The panes by the tabs that have any, those of a tab sorted by their ids.
pub open spec fn grouped(panes: Seq<PaneView>) -> Map<Seq<char>, Seq<PaneView>> {
    Map::new(
        |tab_id: Seq<char>| panes_of(panes, tab_id).len() > 0,
        |tab_id: Seq<char>| sorted(panes_of(panes, tab_id)),
    )
}

/// Panes by the tabs that they belong to.
#[derive(Debug)]
pub struct PaneGroups {
    groups: Vec<(String, Vec<Pane>)>,
}

/// The map that a row of groups makes.
spec fn groups_of(groups: Seq<(String, Vec<Pane>)>) -> Map<Seq<char>, Seq<PaneView>>
    decreases groups.len(),
{
    if groups.len() == 0 {
        Map::empty()
    } else {
        groups_of(groups.drop_last()).insert(groups.last().0@, pane_views(groups.last().1@))
    }
}

spec fn distinct_groups(groups: Seq<(String, Vec<Pane>)>) -> bool {
    forall|i: int, j: int|
        0 <= i < j < groups.len() ==> (#[trigger] groups[i]).0@ != (#[trigger] groups[j]).0@
}

spec fn has_group(groups: Seq<(String, Vec<Pane>)>, tab_id: Seq<char>) -> bool {
    exists|k: int| 0 <= k < groups.len() && (#[trigger] groups[k]).0@ == tab_id
}

proof fn lemma_groups_of(groups: Seq<(String, Vec<Pane>)>)
    requires
        distinct_groups(groups),
    ensures
        forall|i: int|
            0 <= i < groups.len() ==> groups_of(groups).dom().contains((#[trigger] groups[i]).0@)
                && groups_of(groups)[groups[i].0@] == pane_views(groups[i].1@),
        forall|k: Seq<char>| #[trigger]
            groups_of(groups).dom().contains(k) ==> exists|i: int|
                0 <= i < groups.len() && (#[trigger] groups[i]).0@ == k,
    decreases groups.len(),
{
    if groups.len() > 0 {
        let fewer = groups.drop_last();
        assert(distinct_groups(fewer)) by {
            assert forall|i: int, j: int| 0 <= i < j < fewer.len() implies (#[trigger] fewer[i]).0@
                != (#[trigger] fewer[j]).0@ by {
                assert(groups[i].0@ != groups[j].0@);
            }
        }
        lemma_groups_of(fewer);
        assert forall|i: int| 0 <= i < groups.len() implies groups_of(groups).dom().contains(
            (#[trigger] groups[i]).0@,
        ) && groups_of(groups)[groups[i].0@] == pane_views(groups[i].1@) by {
            if i < fewer.len() {
                assert(fewer[i] == groups[i]);
                assert(groups[i].0@ != groups[groups.len() - 1].0@);
            }
        }
        assert forall|k: Seq<char>| #[trigger] groups_of(groups).dom().contains(k) implies exists|i:
            int| 0 <= i < groups.len() && (#[trigger] groups[i]).0@ == k by {
            if k == groups.last().0@ {
                assert(groups[groups.len() - 1].0@ == k);
            } else {
                assert(groups_of(fewer).dom().contains(k));
                let i = choose|i: int| 0 <= i < fewer.len() && (#[trigger] fewer[i]).0@ == k;
                assert(groups[i].0@ == k);
            }
        }
    }
}

impl View for PaneGroups {
    type V = Map<Seq<char>, Seq<PaneView>>;

    closed spec fn view(&self) -> Map<Seq<char>, Seq<PaneView>> {
        groups_of(self.groups@)
    }
}

impl PaneGroups {
    #[verifier::type_invariant]
    spec fn well_formed(self) -> bool {
        distinct_groups(self.groups@)
    }

    /// No groups.
    pub fn new() -> (g: Self)
        ensures
            g@ == Map::<Seq<char>, Seq<PaneView>>::empty(),
    {
        PaneGroups { groups: Vec::new() }
    }

    /// The panes of a tab, where it has any.
    pub fn get(&self, tab_id: &str) -> (r: Option<&Vec<Pane>>)
        ensures
            match r {
                Some(group) => self@.dom().contains(tab_id@) && self@[tab_id@] == pane_views(group@),
                None => !self@.dom().contains(tab_id@),
            },
    {
        proof {
            use_type_invariant(self);
            lemma_groups_of(self.groups@);
        }
        for i in 0..self.groups.len()
            invariant
                forall|k: int|
                    0 <= k < self.groups@.len() ==> self@.dom().contains((#[trigger] self.groups@[k]).0@)
                        && self@[self.groups@[k].0@] == pane_views(self.groups@[k].1@),
                forall|k: Seq<char>| #[trigger]
                    self@.dom().contains(k) ==> exists|i: int|
                        0 <= i < self.groups@.len() && (#[trigger] self.groups@[i]).0@ == k,
                forall|k: int| 0 <= k < i ==> (#[trigger] self.groups@[k]).0@ != tab_id@,
        {
            if same_text(self.groups[i].0.as_str(), tab_id) {
                return Some(&self.groups[i].1);
            }
        }
        None
    }
}

/// Puts a pane into a sorted row, after those with the same id.
fn insert_pane(row: Vec<Pane>, pane: Pane) -> (r: Vec<Pane>)
    ensures
        pane_views(r@) == inserted(pane_views(row@), pane@),
{
    let ghost all = pane_views(row@);
    let ghost new = pane@;
    let mut row = row;
    let mut at: usize = row.len();
    assert(all.take(at as int) =~= all);
    assert(inserted(all, new) =~= inserted(all, new) + all.skip(at as int));
    while at > 0 && text_before(pane.pane_id.as_str(), row[at - 1].pane_id.as_str())
        invariant
            all == pane_views(row@),
            new == pane@,
            at <= row@.len(),
            inserted(all, new) == inserted(all.take(at as int), new) + all.skip(at as int),
        decreases at,
    {
        proof {
            let front = all.take(at as int);
            assert(front.last() == all[at - 1] && all[at - 1] == row@[at - 1]@);
            assert(front.drop_last() =~= all.take(at - 1));
            assert(inserted(front, new) == inserted(all.take(at - 1), new).push(all[at - 1]));
            assert(inserted(front, new) + all.skip(at as int) =~= inserted(all.take(at - 1), new)
                + all.skip(at - 1));
        }
        at -= 1;
    }
    proof {
        let front = all.take(at as int);
        if at > 0 {
            assert(front.last() == all[at - 1] && all[at - 1] == row@[at - 1]@);
        }
        assert(inserted(front, new) == front.push(new));
    }
    row.insert(at, pane);
    assert(pane_views(row@) =~= all.take(at as int).push(new) + all.skip(at as int));
    row
}

/// The panes of a tab, sorted by their ids.
fn collect_group(panes: &Vec<Pane>, tab_id: &str) -> (group: Vec<Pane>)
    ensures
        pane_views(group@) == sorted(panes_of(pane_views(panes@), tab_id@)),
{
    let ghost all = pane_views(panes@);
    let mut group: Vec<Pane> = Vec::new();
    assert(pane_views(group@) =~= seq![]);
    for i in 0..panes.len()
        invariant
            all == pane_views(panes@),
            pane_views(group@) == sorted(panes_of(all.take(i as int), tab_id@)),
    {
        proof {
            let more = all.take(i + 1);
            assert(more.drop_last() =~= all.take(i as int));
            assert(more.last() == all[i as int] && all[i as int] == panes@[i as int]@);
            let ours = panes_of(all.take(i as int), tab_id@);
            if all[i as int].tab_id == tab_id@ {
                assert(panes_of(more, tab_id@) == ours.push(all[i as int]));
                assert(ours.push(all[i as int]).drop_last() =~= ours);
            } else {
                assert(panes_of(more, tab_id@) == ours);
            }
        }
        if same_text(panes[i].tab_id.as_str(), tab_id) {
            group = insert_pane(group, panes[i].clone());
        }
    }
    assert(all.take(panes@.len() as int) =~= all);
    group
}

proof fn lemma_has_panes(panes: Seq<PaneView>, tab_id: Seq<char>)
    ensures
        panes_of(panes, tab_id).len() > 0 <==> exists|i: int|
            0 <= i < panes.len() && (#[trigger] panes[i]).tab_id == tab_id,
    decreases panes.len(),
{
    if panes.len() > 0 {
        let fewer = panes.drop_last();
        lemma_has_panes(fewer, tab_id);
        if panes.last().tab_id == tab_id {
            assert(panes[panes.len() - 1].tab_id == tab_id);
        } else {
            assert(panes_of(panes, tab_id) == panes_of(fewer, tab_id));
            if panes_of(fewer, tab_id).len() > 0 {
                let i = choose|i: int| 0 <= i < fewer.len() && (#[trigger] fewer[i]).tab_id == tab_id;
                assert(panes[i].tab_id == tab_id);
            } else {
                assert forall|i: int| 0 <= i < panes.len() implies (#[trigger] panes[i]).tab_id
                    != tab_id by {
                    if i < fewer.len() {
                        assert(fewer[i] == panes[i]);
                    }
                }
            }
        }
    }
}

/// Groups panes by their tabs; those of a tab are sorted by their ids.
pub fn group_panes_by_tab(panes: Vec<Pane>) -> (groups: PaneGroups)
    ensures
        groups@ == grouped(pane_views(panes@)),
{
    let ghost all = pane_views(panes@);
    let mut groups: Vec<(String, Vec<Pane>)> = Vec::new();
    for i in 0..panes.len()
        invariant
            all == pane_views(panes@),
            distinct_groups(groups@),
            forall|k: int|
                0 <= k < groups@.len() ==> pane_views((#[trigger] groups@[k]).1@) == sorted(
                    panes_of(all, groups@[k].0@),
                ) && panes_of(all, groups@[k].0@).len() > 0,
            forall|j: int|
                0 <= j < i ==> has_group(groups@, (#[trigger] all[j]).tab_id),
    {
        let mut known = false;
        for k in 0..groups.len()
            invariant
                i < panes@.len(),
                all == pane_views(panes@),
                known == exists|n: int|
                    0 <= n < k && (#[trigger] groups@[n]).0@ == panes@[i as int].tab_id@,
        {
            if same_text(groups[k].0.as_str(), panes[i].tab_id.as_str()) {
                known = true;
            }
        }
        assert(all[i as int].tab_id == panes@[i as int].tab_id@);
        let ghost earlier = groups@;
        if !known {
            let group = collect_group(&panes, panes[i].tab_id.as_str());
            groups.push((panes[i].tab_id.clone(), group));
            proof {
                lemma_has_panes(all, all[i as int].tab_id);
                assert(groups@.last().0@ == all[i as int].tab_id);
            }
        }
        assert forall|j: int| 0 <= j < i + 1 implies has_group(
            groups@,
            (#[trigger] all[j]).tab_id,
        ) by {
            if j < i || known {
                assert(has_group(earlier, all[j].tab_id));
                let k = choose|k: int|
                    0 <= k < earlier.len() && (#[trigger] earlier[k]).0@ == all[j].tab_id;
                assert(groups@[k].0@ == all[j].tab_id);
            } else {
                assert(groups@[groups@.len() - 1].0@ == all[j].tab_id);
            }
        }
    }
    proof {
        lemma_groups_of(groups@);
        assert forall|id: Seq<char>| groups_of(groups@).dom().contains(id) == (panes_of(all, id).len()
            > 0) by {
            lemma_has_panes(all, id);
            if panes_of(all, id).len() > 0 {
                let j = choose|j: int| 0 <= j < all.len() && (#[trigger] all[j]).tab_id == id;
                assert(has_group(groups@, all[j].tab_id));
                let k = choose|k: int|
                    0 <= k < groups@.len() && (#[trigger] groups@[k]).0@ == all[j].tab_id;
                assert(groups_of(groups@).dom().contains(groups@[k].0@));
            }
        }
        assert forall|id: Seq<char>| groups_of(groups@).dom().contains(id) implies groups_of(
            groups@,
        )[id] == sorted(panes_of(all, id)) by {
            let k = choose|k: int| 0 <= k < groups@.len() && (#[trigger] groups@[k]).0@ == id;
            assert(groups_of(groups@)[groups@[k].0@] == pane_views(groups@[k].1@));
        }
        assert(groups_of(groups@) =~= grouped(all));
    }
    PaneGroups { groups }
}

// ------------------------------------------------- the pane a tab is named after

/// The first pane that has the focus.
pub open spec fn first_focused(panes: Seq<PaneView>) -> Option<PaneView>
    decreases panes.len(),
{
    if panes.len() == 0 {
        None
    } else if panes[0].focused {
        Some(panes[0])
    } else {
        first_focused(panes.skip(1))
    }
}

/// The first pane with an id.
pub open spec fn first_with_id(panes: Seq<PaneView>, pane_id: Seq<char>) -> Option<PaneView>
    decreases panes.len(),
{
    if panes.len() == 0 {
        None
    } else if panes[0].pane_id == pane_id {
        Some(panes[0])
    } else {
        first_with_id(panes.skip(1), pane_id)
    }
}

/// The pane with the focus in the tab with the focus.
pub open spec fn focused_in(tab: TabView, panes: Seq<PaneView>) -> Option<PaneView> {
    if tab.focused {
        first_focused(panes)
    } else {
        None
    }
}

/// The layout of the tab decides on the pane: there are several, and none is known
/// to have the focus.
pub open spec fn layout_decides(tab: TabView, panes: Seq<PaneView>) -> bool {
    focused_in(tab, panes) is None && panes.len() > 1
}

/// The pane that a tab is named after: the one with the focus, else the one that
/// the layout of the tab names as such, else the first. `layout` is the id that
/// the layout names, where it is known.
pub open spec fn source_of(
    tab: TabView,
    panes: Seq<PaneView>,
    layout: Option<Seq<char>>,
) -> Option<PaneView> {
    match focused_in(tab, panes) {
        Some(pane) => Some(pane),
        None => if panes.len() == 0 {
            None
        } else if panes.len() == 1 {
            Some(panes[0])
        } else {
            match layout {
                Some(pane_id) => match first_with_id(panes, pane_id) {
                    Some(pane) => Some(pane),
                    None => Some(panes[0]),
                },
                None => Some(panes[0]),
            }
        },
    }
}

/// The place of the pane that has the focus in the tab that has the focus.
fn focused_pane(tab: &Tab, panes: &[Pane]) -> (r: Option<usize>)
    ensures
        match r {
            Some(i) => i < panes@.len() && focused_in(tab@, pane_views(panes@)) == Some(
                panes@[i as int]@,
            ),
            None => focused_in(tab@, pane_views(panes@)) is None,
        },
{
    if !tab.focused {
        return None;
    }
    let ghost all = pane_views(panes@);
    assert(all.skip(0) =~= all);
    for i in 0..panes.len()
        invariant
            all == pane_views(panes@),
            first_focused(all) == first_focused(all.skip(i as int)),
            tab.focused,
    {
        assert(all.skip(i as int)[0] == panes@[i as int]@);
        assert(all.skip(i as int).skip(1) =~= all.skip(i + 1));
        if panes[i].focused {
            return Some(i);
        }
    }
    None
}

/// Whether the layout of a tab has to be asked for the pane that the tab is named
/// after.
pub fn needs_layout(tab: &Tab, panes: &[Pane]) -> (b: bool)
    ensures
        b == layout_decides(tab@, pane_views(panes@)),
{
    match focused_pane(tab, panes) {
        Some(_) => false,
        None => panes.len() > 1,
    }
}

/// The pane that a tab is named after, where it has panes. `layout` is the id of
/// the pane that the layout of the tab names, where that is known.
pub fn select_tab_source_pane<'a>(tab: &Tab, panes: &'a [Pane], layout: Option<&str>) -> (r: Option<
    &'a Pane,
>)
    ensures
        match source_of(tab@, pane_views(panes@), str_of(layout)) {
            Some(pane) => r matches Some(p) && p@ == pane,
            None => r is None,
        },
{
    if let Some(i) = focused_pane(tab, panes) {
        return Some(&panes[i]);
    }
    if panes.len() == 0 {
        return None;
    }
    assert(pane_views(panes@)[0] == panes@[0]@);
    if panes.len() == 1 {
        return Some(&panes[0]);
    }
    if let Some(pane_id) = layout {
        let ghost all = pane_views(panes@);
        assert(all.skip(0) =~= all);
        for i in 0..panes.len()
            invariant
                all == pane_views(panes@),
                first_with_id(all, pane_id@) == first_with_id(all.skip(i as int), pane_id@),
                focused_in(tab@, all) is None,
                panes@.len() > 1,
                str_of(layout) == Some(pane_id@),
        {
            assert(all.skip(i as int)[0] == panes@[i as int]@);
            assert(all.skip(i as int).skip(1) =~= all.skip(i + 1));
            if same_text(panes[i].pane_id.as_str(), pane_id) {
                return Some(&panes[i]);
            }
        }
    }
    Some(&panes[0])
}

// -------------------------------------------------------------------------- laws

/// No pane comes before an earlier one.
pub open spec fn in_order(panes: Seq<PaneView>) -> bool {
    forall|i: int, j: int|
        0 <= i < j < panes.len() ==> !before(
            (#[trigger] panes[j]).pane_id,
            (#[trigger] panes[i]).pane_id,
        )
}

/// The panes with an id, in their order.
pub open spec fn with_id(panes: Seq<PaneView>, pane_id: Seq<char>) -> Seq<PaneView>
    decreases panes.len(),
{
    if panes.len() == 0 {
        panes
    } else if panes.last().pane_id == pane_id {
        with_id(panes.drop_last(), pane_id).push(panes.last())
    } else {
        with_id(panes.drop_last(), pane_id)
    }
}

proof fn lemma_inserted(row: Seq<PaneView>, pane: PaneView)
    requires
        in_order(row),
    ensures
        in_order(inserted(row, pane)),
        inserted(row, pane).len() == row.len() + 1,
        inserted(row, pane).to_multiset() == row.to_multiset().insert(pane),
        forall|i: int|
            0 <= i < inserted(row, pane).len() ==> (#[trigger] inserted(row, pane)[i]) == pane
                || row.contains(inserted(row, pane)[i]),
        forall|id: Seq<char>| #[trigger]
            with_id(inserted(row, pane), id) == if pane.pane_id == id {
                with_id(row, id).push(pane)
            } else {
                with_id(row, id)
            },
    decreases row.len(),
{
    broadcast use vstd::seq_lib::group_to_multiset_ensures;

    let whole = inserted(row, pane);
    if row.len() == 0 || !before(pane.pane_id, row.last().pane_id) {
        assert(whole.drop_last() =~= row);
        assert forall|i: int, j: int| 0 <= i < j < whole.len() implies !before(
            (#[trigger] whole[j]).pane_id,
            (#[trigger] whole[i]).pane_id,
        ) by {
            if j == row.len() {
                if i < row.len() - 1 {
                    lemma_before_is_transitive(
                        row[i].pane_id,
                        row[row.len() - 1].pane_id,
                        pane.pane_id,
                    );
                }
            } else {
                assert(whole[i] == row[i] && whole[j] == row[j]);
            }
        }
        assert forall|i: int| 0 <= i < whole.len() implies (#[trigger] whole[i]) == pane
            || row.contains(whole[i]) by {
            if i < row.len() {
                assert(row[i] == whole[i]);
            }
        }
    } else {
        let fewer = row.drop_last();
        let last = row.last();
        assert(in_order(fewer)) by {
            assert forall|i: int, j: int| 0 <= i < j < fewer.len() implies !before(
                (#[trigger] fewer[j]).pane_id,
                (#[trigger] fewer[i]).pane_id,
            ) by {
                assert(fewer[i] == row[i] && fewer[j] == row[j]);
            }
        }
        lemma_inserted(fewer, pane);
        let front = inserted(fewer, pane);
        assert(whole.drop_last() =~= front);
        assert(row =~= fewer.push(last));
        lemma_before_is_strict(pane.pane_id, last.pane_id);
        assert forall|i: int, j: int| 0 <= i < j < whole.len() implies !before(
            (#[trigger] whole[j]).pane_id,
            (#[trigger] whole[i]).pane_id,
        ) by {
            if j == whole.len() - 1 {
                assert(whole[i] == front[i]);
                if front[i] != pane {
                    let k = choose|k: int| 0 <= k < fewer.len() && fewer[k] == front[i];
                    assert(row[k] == front[i]);
                    assert(row[row.len() - 1] == last);
                }
            } else {
                assert(whole[i] == front[i] && whole[j] == front[j]);
            }
        }
        assert(whole.to_multiset() =~= row.to_multiset().insert(pane));
        assert forall|i: int| 0 <= i < whole.len() implies (#[trigger] whole[i]) == pane
            || row.contains(whole[i]) by {
            if i < whole.len() - 1 {
                assert(whole[i] == front[i]);
                if front[i] != pane {
                    let k = choose|k: int| 0 <= k < fewer.len() && fewer[k] == front[i];
                    assert(row[k] == whole[i]);
                }
            } else {
                assert(row[row.len() - 1] == whole[i]);
            }
        }
        assert forall|id: Seq<char>| #[trigger] with_id(whole, id) == if pane.pane_id == id {
            with_id(row, id).push(pane)
        } else {
            with_id(row, id)
        } by {
            assert(with_id(front, id) == if pane.pane_id == id {
                with_id(fewer, id).push(pane)
            } else {
                with_id(fewer, id)
            });
        }
    }
}

/// Sorting panes keeps each of them, orders them by their ids, and leaves panes
/// with the same id in the order in which they came.
pub proof fn law_sorting_orders_the_panes(panes: Seq<PaneView>)
    ensures
        sorted(panes).to_multiset() == panes.to_multiset(),
        in_order(sorted(panes)),
        forall|id: Seq<char>| #[trigger] with_id(sorted(panes), id) == with_id(panes, id),
    decreases panes.len(),
{
    broadcast use vstd::seq_lib::group_to_multiset_ensures;

    if panes.len() > 0 {
        let fewer = panes.drop_last();
        law_sorting_orders_the_panes(fewer);
        lemma_inserted(sorted(fewer), panes.last());
        assert(panes =~= fewer.push(panes.last()));
        assert forall|id: Seq<char>| #[trigger] with_id(sorted(panes), id) == with_id(panes, id) by {
            assert(with_id(sorted(fewer), id) == with_id(fewer, id));
        }
    }
}

proof fn lemma_panes_of(panes: Seq<PaneView>, tab_id: Seq<char>, pane: PaneView)
    ensures
        panes_of(panes, tab_id).to_multiset().count(pane) == if pane.tab_id == tab_id {
            panes.to_multiset().count(pane)
        } else {
            0
        },
    decreases panes.len(),
{
    broadcast use vstd::seq_lib::group_to_multiset_ensures;

    if panes.len() > 0 {
        lemma_panes_of(panes.drop_last(), tab_id, pane);
        assert(panes =~= panes.drop_last().push(panes.last()));
    }
}

/// Each pane stands in the group of its tab, as often as it was listed, and in no
/// other group; a tab without panes has no group.
pub proof fn law_panes_are_grouped_by_tab(panes: Seq<PaneView>, tab_id: Seq<char>, pane: PaneView)
    ensures
        grouped(panes).dom().contains(tab_id) ==> {
            let group = grouped(panes)[tab_id];
            &&& group.len() > 0
            &&& in_order(group)
            &&& group.to_multiset().count(pane) == if pane.tab_id == tab_id {
                panes.to_multiset().count(pane)
            } else {
                0
            }
        },
        panes.contains(pane) ==> grouped(panes).dom().contains(pane.tab_id),
{
    broadcast use vstd::seq_lib::group_to_multiset_ensures;

    law_sorting_orders_the_panes(panes_of(panes, tab_id));
    lemma_panes_of(panes, tab_id, pane);
    lemma_sorted_len(panes_of(panes, tab_id));
    lemma_has_panes(panes, pane.tab_id);
    if panes.contains(pane) {
        let i = choose|i: int| 0 <= i < panes.len() && panes[i] == pane;
        assert(panes[i].tab_id == pane.tab_id);
    }
}

proof fn lemma_sorted_len(panes: Seq<PaneView>)
    ensures
        sorted(panes).len() == panes.len(),
    decreases panes.len(),
{
    if panes.len() > 0 {
        lemma_sorted_len(panes.drop_last());
        law_sorting_orders_the_panes(panes.drop_last());
        lemma_inserted(sorted(panes.drop_last()), panes.last());
    }
}

/// The pane that a tab is named after is one of its panes, and a tab with panes has
/// one.
pub proof fn law_source_is_a_pane_of_the_tab(
    tab: TabView,
    panes: Seq<PaneView>,
    layout: Option<Seq<char>>,
)
    ensures
        source_of(tab, panes, layout) is Some == (panes.len() > 0),
        source_of(tab, panes, layout) matches Some(pane) ==> panes.contains(pane),
{
    lemma_first_focused(panes);
    if let Some(id) = layout {
        lemma_first_with_id(panes, id);
    }
    if panes.len() > 0 {
        assert(panes.contains(panes[0]));
    }
}

proof fn lemma_first_focused(panes: Seq<PaneView>)
    ensures
        first_focused(panes) matches Some(pane) ==> panes.contains(pane),
    decreases panes.len(),
{
    if panes.len() > 0 {
        lemma_first_focused(panes.skip(1));
        if let Some(pane) = first_focused(panes) {
            if panes[0].focused {
                assert(panes[0] == pane);
            } else {
                let i = choose|i: int| 0 <= i < panes.skip(1).len() && panes.skip(1)[i] == pane;
                assert(panes[i + 1] == pane);
            }
        }
    }
}

proof fn lemma_first_with_id(panes: Seq<PaneView>, id: Seq<char>)
    ensures
        first_with_id(panes, id) matches Some(pane) ==> panes.contains(pane),
    decreases panes.len(),
{
    if panes.len() > 0 {
        lemma_first_with_id(panes.skip(1), id);
        if let Some(pane) = first_with_id(panes, id) {
            if panes[0].pane_id == id {
                assert(panes[0] == pane);
            } else {
                let i = choose|i: int| 0 <= i < panes.skip(1).len() && panes.skip(1)[i] == pane;
                assert(panes[i + 1] == pane);
            }
        }
    }
}

/// A tab keeps being managed for as long as its label is the one that it was given,
/// and is no longer managed once it has another; forcing manages every tab.
pub proof fn law_given_labels_decide(
    tab: TabView,
    labels: Map<Seq<char>, Seq<char>>,
    given: Seq<char>,
)
    ensures
        manages(tab, labels.insert(tab.tab_id, given), false) == (tab.label == given),
        manages(tab, labels, true),
{
}

/// Without force, a tab that nothing is remembered of is managed if and only if its
/// label is a row of digits, however long; so every number is. Where something is
/// remembered of the tab, it is managed if and only if that is its label. Forcing
/// manages every tab.
pub proof fn law_generated_labels_are_managed(
    tab: TabView,
    labels: Map<Seq<char>, Seq<char>>,
    n: nat,
)
    ensures
        !labels.dom().contains(tab.tab_id) ==> {
            &&& manages(tab, labels, false) <==> tab.label.len() > 0 && forall|i: int|
                0 <= i < tab.label.len() ==> '0' <= #[trigger] tab.label[i] && tab.label[i] <= '9'
            &&& manages(TabView { label: decimal(n), ..tab }, labels, false)
        },
        labels.dom().contains(tab.tab_id) ==> (manages(tab, labels, false) <==> labels[tab.tab_id]
            == tab.label),
        manages(tab, labels, true),
{
    lemma_decimal_denotes(n);
    if digits_only(tab.label) {
        assert forall|i: int| 0 <= i < tab.label.len() implies '0' <= #[trigger] tab.label[i]
            && tab.label[i] <= '9' by {
            law_digits_are_ascii(tab.label[i]);
        }
    }
    if tab.label.len() > 0 && forall|i: int|
        0 <= i < tab.label.len() ==> '0' <= #[trigger] tab.label[i] && tab.label[i] <= '9' {
        assert forall|i: int| 0 <= i < tab.label.len() implies is_digit(
            #[trigger] tab.label[i],
        ) by {
            law_digits_are_ascii(tab.label[i]);
        }
    }
}

/// What is remembered of other tabs does not matter.
pub proof fn law_other_tabs_do_not_matter(
    tab: TabView,
    labels: Map<Seq<char>, Seq<char>>,
    other: Seq<char>,
    given: Seq<char>,
    force: bool,
)
    requires
        other != tab.tab_id,
    ensures
        manages(tab, labels.insert(other, given), force) == manages(tab, labels, force),
        manages(tab, labels.remove(other), force) == manages(tab, labels, force),
{
}

proof fn lemma_focused_at(panes: Seq<PaneView>, i: int)
    requires
        0 <= i < panes.len(),
        panes[i].focused,
        forall|j: int| 0 <= j < i ==> !(#[trigger] panes[j]).focused,
    ensures
        first_focused(panes) == Some(panes[i]),
    decreases i,
{
    if i > 0 {
        assert(!panes[0].focused);
        let rest = panes.skip(1);
        assert forall|j: int| 0 <= j < i - 1 implies !(#[trigger] rest[j]).focused by {
            assert(rest[j] == panes[j + 1]);
        }
        lemma_focused_at(rest, i - 1);
    }
}

proof fn lemma_none_focused(panes: Seq<PaneView>)
    requires
        forall|j: int| 0 <= j < panes.len() ==> !(#[trigger] panes[j]).focused,
    ensures
        first_focused(panes) is None,
    decreases panes.len(),
{
    if panes.len() > 0 {
        let rest = panes.skip(1);
        assert(!panes[0].focused);
        assert forall|j: int| 0 <= j < rest.len() implies !(#[trigger] rest[j]).focused by {
            assert(rest[j] == panes[j + 1]);
        }
        lemma_none_focused(rest);
    }
}

proof fn lemma_id_at(panes: Seq<PaneView>, pane_id: Seq<char>, i: int)
    requires
        0 <= i < panes.len(),
        panes[i].pane_id == pane_id,
        forall|j: int| 0 <= j < i ==> (#[trigger] panes[j]).pane_id != pane_id,
    ensures
        first_with_id(panes, pane_id) == Some(panes[i]),
    decreases i,
{
    if i > 0 {
        assert(panes[0].pane_id != pane_id);
        let rest = panes.skip(1);
        assert forall|j: int| 0 <= j < i - 1 implies (#[trigger] rest[j]).pane_id != pane_id by {
            assert(rest[j] == panes[j + 1]);
        }
        lemma_id_at(rest, pane_id, i - 1);
    }
}

proof fn lemma_none_with_id(panes: Seq<PaneView>, pane_id: Seq<char>)
    requires
        forall|j: int| 0 <= j < panes.len() ==> (#[trigger] panes[j]).pane_id != pane_id,
    ensures
        first_with_id(panes, pane_id) is None,
    decreases panes.len(),
{
    if panes.len() > 0 {
        let rest = panes.skip(1);
        assert(panes[0].pane_id != pane_id);
        assert forall|j: int| 0 <= j < rest.len() implies (#[trigger] rest[j]).pane_id
            != pane_id by {
            assert(rest[j] == panes[j + 1]);
        }
        lemma_none_with_id(rest, pane_id);
    }
}

/// The tab with the focus is named after its first pane with the focus, and its layout
/// is not asked for then.
pub proof fn law_focused_pane_names_the_focused_tab(
    tab: TabView,
    panes: Seq<PaneView>,
    layout: Option<Seq<char>>,
    i: int,
)
    requires
        tab.focused,
        0 <= i < panes.len(),
        panes[i].focused,
        forall|j: int| 0 <= j < i ==> !(#[trigger] panes[j]).focused,
    ensures
        source_of(tab, panes, layout) == Some(panes[i]),
        !layout_decides(tab, panes),
{
    lemma_focused_at(panes, i);
}

/// Any other tab is named after the first of its panes with the id that its layout
/// names, and after its first pane where the layout names none of them or is not
/// known. The layout is asked for where there are several panes.
pub proof fn law_layout_names_the_other_tabs(
    tab: TabView,
    panes: Seq<PaneView>,
    pane_id: Seq<char>,
    i: int,
)
    requires
        panes.len() > 0,
        !tab.focused || forall|j: int| 0 <= j < panes.len() ==> !(#[trigger] panes[j]).focused,
    ensures
        layout_decides(tab, panes) <==> panes.len() > 1,
        source_of(tab, panes, None) == Some(panes[0]),
        panes.len() > 1 && 0 <= i < panes.len() && panes[i].pane_id == pane_id && (forall|j: int|
            0 <= j < i ==> (#[trigger] panes[j]).pane_id != pane_id) ==> source_of(
            tab,
            panes,
            Some(pane_id),
        ) == Some(panes[i]),
        panes.len() == 1 || (forall|j: int|
            0 <= j < panes.len() ==> (#[trigger] panes[j]).pane_id != pane_id) ==> source_of(
            tab,
            panes,
            Some(pane_id),
        ) == Some(panes[0]),
{
    if tab.focused {
        lemma_none_focused(panes);
    }
    if panes.len() > 1 && 0 <= i < panes.len() && panes[i].pane_id == pane_id && (forall|j: int|
        0 <= j < i ==> (#[trigger] panes[j]).pane_id != pane_id) {
        lemma_id_at(panes, pane_id, i);
    }
    if forall|j: int| 0 <= j < panes.len() ==> (#[trigger] panes[j]).pane_id != pane_id {
        lemma_none_with_id(panes, pane_id);
    }
}

/// The views of tabs and panes hold their parts.
pub proof fn law_tab_views_hold_their_parts(tab: Tab, pane: Pane)
    ensures
        tab@.tab_id == tab.tab_id@,
        tab@.workspace_id == tab.workspace_id@,
        tab@.label == tab.label@,
        tab@.number == tab.number,
        tab@.display_number == tab.display_number,
        tab@.focused == tab.focused,
        pane@.pane_id == pane.pane_id@,
        pane@.tab_id == pane.tab_id@,
        pane@.focused == pane.focused,
        pane.cwd matches Some(s) ==> pane@.cwd == Some(s@),
        pane.cwd is None ==> pane@.cwd is None,
        pane.foreground_cwd matches Some(s) ==> pane@.foreground_cwd == Some(s@),
        pane.foreground_cwd is None ==> pane@.foreground_cwd is None,
        pane.agent matches Some(s) ==> pane@.agent == Some(s@),
        pane.agent is None ==> pane@.agent is None,
        pane.internal_title matches Some(s) ==> pane@.internal_title == Some(s@),
        pane.internal_title is None ==> pane@.internal_title is None,
{
}

} // verus!
