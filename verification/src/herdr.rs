//! The commands of Herdr that are run, and what is read from its replies.
use crate::directory::views;
use crate::json::{
    array_member, flag_member, json_document, law_members_are_read_by_their_types, lemma_views,
    member, number_member, parse_json, text_member, views_of, Json, JsonView,
};
use crate::process::{
    ForegroundProcess, PaneProcessInfo, ProcessInfoView, ProcessView,
};
use crate::tab::{pane_views, tab_views, Pane, PaneView, Tab, TabView};
use crate::text::{same_text, text_of};
use crate::text_map::{law_later_pairs_count, map_of, TextMap};
use vstd::prelude::*;

verus! {

// ----------------------------------------------------------------------- requests

/// A command of Herdr.
#[derive(Debug, PartialEq, Eq)]
pub enum Request {
    /// All tabs.
    ListTabs,
    /// All panes.
    ListPanes,
    /// All workspaces.
    ListWorkspaces,
    /// The layout of the tab that a pane belongs to.
    Layout { pane_id: String },
    /// The processes of a pane.
    Processes { pane_id: String },
    /// Gives a tab a label.
    Rename { tab_id: String, label: String },
    /// Sets the title of the terminal's window.
    SetTitle { title: String },
}

/// `Request`, with its strings as sequences.
pub enum RequestView {
    ListTabs,
    ListPanes,
    ListWorkspaces,
    Layout { pane_id: Seq<char> },
    Processes { pane_id: Seq<char> },
    Rename { tab_id: Seq<char>, label: Seq<char> },
    SetTitle { title: Seq<char> },
}

impl View for Request {
    type V = RequestView;

    open spec fn view(&self) -> RequestView {
        match self {
            Request::ListTabs => RequestView::ListTabs,
            Request::ListPanes => RequestView::ListPanes,
            Request::ListWorkspaces => RequestView::ListWorkspaces,
            Request::Layout { pane_id } => RequestView::Layout { pane_id: pane_id@ },
            Request::Processes { pane_id } => RequestView::Processes { pane_id: pane_id@ },
            Request::Rename { tab_id, label } => RequestView::Rename {
                tab_id: tab_id@,
                label: label@,
            },
            Request::SetTitle { title } => RequestView::SetTitle { title: title@ },
        }
    }
}

/// The arguments that make Herdr run a command.
pub open spec fn arguments(request: RequestView) -> Seq<Seq<char>> {
    match request {
        RequestView::ListTabs => seq!["tab"@, "list"@],
        RequestView::ListPanes => seq!["pane"@, "list"@],
        RequestView::ListWorkspaces => seq!["workspace"@, "list"@],
        RequestView::Layout { pane_id } => seq!["pane"@, "layout"@, "--pane"@, pane_id],
        RequestView::Processes { pane_id } => seq!["pane"@, "process-info"@, "--pane"@, pane_id],
        RequestView::Rename { tab_id, label } => seq!["tab"@, "rename"@, tab_id, label],
        RequestView::SetTitle { title } => seq!["terminal"@, "title"@, "set"@, title],
    }
}

/// Two words.
fn two(a: &str, b: &str) -> (row: Vec<String>)
    ensures
        views(row@) == seq![a@, b@],
{
    let mut row: Vec<String> = Vec::new();
    row.push(a.to_owned());
    row.push(b.to_owned());
    assert(views(row@) =~= seq![a@, b@]);
    row
}

/// Four words.
fn four(a: &str, b: &str, c: &str, d: &str) -> (row: Vec<String>)
    ensures
        views(row@) == seq![a@, b@, c@, d@],
{
    let mut row: Vec<String> = Vec::new();
    row.push(a.to_owned());
    row.push(b.to_owned());
    row.push(c.to_owned());
    row.push(d.to_owned());
    assert(views(row@) =~= seq![a@, b@, c@, d@]);
    row
}

/// The arguments that give a tab a label.
pub fn rename_tab(tab_id: &str, label: &str) -> (row: Vec<String>)
    ensures
        views(row@) == arguments(RequestView::Rename { tab_id: tab_id@, label: label@ }),
{
    four("tab", "rename", tab_id, label)
}

impl Request {
    /// The arguments that make Herdr run this command.
    pub fn arguments(&self) -> (row: Vec<String>)
        ensures
            views(row@) == arguments(self@),
    {
        match self {
            Request::ListTabs => two("tab", "list"),
            Request::ListPanes => two("pane", "list"),
            Request::ListWorkspaces => two("workspace", "list"),
            Request::Layout { pane_id } => four("pane", "layout", "--pane", pane_id.as_str()),
            Request::Processes { pane_id } => four(
                "pane",
                "process-info",
                "--pane",
                pane_id.as_str(),
            ),
            Request::Rename { tab_id, label } => rename_tab(tab_id.as_str(), label.as_str()),
            Request::SetTitle { title } => four("terminal", "title", "set", title.as_str()),
        }
    }
}

// ------------------------------------------------------------------------ replies

/// Why there is no reply to a command.
#[derive(Debug)]
pub enum CommandError {
    /// The command failed.
    Failed,
    /// What it printed is no JSON document.
    Json(serde_json::Error),
    /// The document reports an error.
    Reported,
}

/// `CommandError`, without the error of the JSON reader.
pub enum CommandFault {
    Failed,
    Json,
    Reported,
}

impl View for CommandError {
    type V = CommandFault;

    open spec fn view(&self) -> CommandFault {
        match self {
            CommandError::Failed => CommandFault::Failed,
            CommandError::Json(_) => CommandFault::Json,
            CommandError::Reported => CommandFault::Reported,
        }
    }
}

/// The reply to a command that succeeded or not and printed a document.
pub open spec fn reply_of(success: bool, document: Option<JsonView>) -> Result<
    JsonView,
    CommandFault,
> {
    if !success {
        Err(CommandFault::Failed)
    } else {
        match document {
            None => Err(CommandFault::Json),
            Some(value) => if member(value, "error"@) is Some {
                Err(CommandFault::Reported)
            } else {
                Ok(value)
            },
        }
    }
}

/// Takes a document as a reply, unless it reports an error.
pub fn accept_reply(document: Json) -> (r: Result<Json, CommandError>)
    ensures
        match reply_of(true, Some(document@)) {
            Ok(value) => r matches Ok(json) && json@ == value,
            Err(fault) => r matches Err(e) && e@ == fault,
        },
{
    if document.get("error").is_some() {
        Err(CommandError::Reported)
    } else {
        Ok(document)
    }
}

/// The reply to a command, by whether it succeeded and what it printed.
pub fn herdr_json(success: bool, stdout: &[u8]) -> (r: Result<Json, CommandError>)
    ensures
        match reply_of(success, json_document(stdout@)) {
            Ok(value) => r matches Ok(json) && json@ == value,
            Err(fault) => r matches Err(e) && e@ == fault,
        },
{
    if !success {
        return Err(CommandError::Failed);
    }
    match parse_json(stdout) {
        Ok(document) => accept_reply(document),
        Err(e) => Err(CommandError::Json(e)),
    }
}

/// What a reply lacks.
#[derive(Debug, PartialEq, Eq)]
pub enum ReplyError {
    MissingTabs,
    MissingPanes,
    MissingWorkspaces,
    MissingFocusedPane,
    MissingProcessInfo,
    MissingForegroundProcesses,
    /// A member that holds a string.
    MissingString(&'static str),
    /// A member that holds a natural number.
    MissingInteger(&'static str),
}

/// `ReplyError`, with its strings as sequences.
pub enum ReplyFault {
    MissingTabs,
    MissingPanes,
    MissingWorkspaces,
    MissingFocusedPane,
    MissingProcessInfo,
    MissingForegroundProcesses,
    MissingString(Seq<char>),
    MissingInteger(Seq<char>),
}

impl View for ReplyError {
    type V = ReplyFault;

    open spec fn view(&self) -> ReplyFault {
        match self {
            ReplyError::MissingTabs => ReplyFault::MissingTabs,
            ReplyError::MissingPanes => ReplyFault::MissingPanes,
            ReplyError::MissingWorkspaces => ReplyFault::MissingWorkspaces,
            ReplyError::MissingFocusedPane => ReplyFault::MissingFocusedPane,
            ReplyError::MissingProcessInfo => ReplyFault::MissingProcessInfo,
            ReplyError::MissingForegroundProcesses => ReplyFault::MissingForegroundProcesses,
            ReplyError::MissingString(field) => ReplyFault::MissingString(field@),
            ReplyError::MissingInteger(field) => ReplyFault::MissingInteger(field@),
        }
    }
}

/// The string that a member must hold.
pub open spec fn needed_text(value: JsonView, field: Seq<char>) -> Result<Seq<char>, ReplyFault> {
    match text_member(value, field) {
        Some(text) => Ok(text),
        None => Err(ReplyFault::MissingString(field)),
    }
}

/// The string that a member must hold.
pub fn required_string(value: &Json, field: &'static str) -> (r: Result<String, ReplyError>)
    ensures
        match needed_text(value@, field@) {
            Ok(text) => r matches Ok(s) && s@ == text,
            Err(fault) => r matches Err(e) && e@ == fault,
        },
{
    match value.get_text(field) {
        Some(s) => Ok(s),
        None => Err(ReplyError::MissingString(field)),
    }
}

/// The string that a member may hold.
pub fn optional_string(value: &Json, field: &str) -> (r: Option<String>)
    ensures
        text_of(r) == text_member(value@, field@),
{
    value.get_text(field)
}

/// The natural number that a member must hold.
pub fn required_u64(value: &Json, field: &'static str) -> (r: Result<u64, ReplyError>)
    ensures
        match number_member(value@, field@) {
            Some(n) => r matches Ok(m) && m == n,
            None => r matches Err(e) && e@ == ReplyFault::MissingInteger(field@),
        },
{
    match value.get_number(field) {
        Some(n) => Ok(n),
        None => Err(ReplyError::MissingInteger(field)),
    }
}

/// Whether a member holds `true`.
pub fn optional_bool(value: &Json, field: &str) -> (b: bool)
    ensures
        b == flag_member(value@, field@),
{
    value.get_flag(field)
}

/// Every value of a row as it is read, or the first fault.
pub open spec fn each_read<T>(
    items: Seq<JsonView>,
    read: spec_fn(JsonView) -> Result<T, ReplyFault>,
) -> Result<Seq<T>, ReplyFault>
    decreases items.len(),
{
    if items.len() == 0 {
        Ok(seq![])
    } else {
        match each_read(items.drop_last(), read) {
            Err(fault) => Err(fault),
            Ok(done) => match read(items.last()) {
                Err(fault) => Err(fault),
                Ok(last) => Ok(done.push(last)),
            },
        }
    }
}

/// A fault among the first values of a row is the fault of the row.
proof fn lemma_fault_stays<T>(
    items: Seq<JsonView>,
    n: int,
    read: spec_fn(JsonView) -> Result<T, ReplyFault>,
)
    requires
        0 <= n <= items.len(),
        each_read(items.take(n), read) is Err,
    ensures
        each_read(items, read) == each_read(items.take(n), read),
    decreases items.len() - n,
{
    if n < items.len() {
        assert(items.take(n + 1).drop_last() =~= items.take(n));
        lemma_fault_stays(items, n + 1, read);
    } else {
        assert(items.take(n) =~= items);
    }
}

// --------------------------------------------------------------------------- tabs

/// A tab as it is listed; its display number is not known yet.
pub open spec fn listed_tab(value: JsonView) -> Result<TabView, ReplyFault> {
    match needed_text(value, "tab_id"@) {
        Err(fault) => Err(fault),
        Ok(tab_id) => match needed_text(value, "workspace_id"@) {
            Err(fault) => Err(fault),
            Ok(workspace_id) => match needed_text(value, "label"@) {
                Err(fault) => Err(fault),
                Ok(label) => match number_member(value, "number"@) {
                    None => Err(ReplyFault::MissingInteger("number"@)),
                    Some(number) => Ok(
                        TabView {
                            tab_id,
                            workspace_id,
                            label,
                            number: number as usize,
                            display_number: 0,
                            focused: flag_member(value, "focused"@),
                        },
                    ),
                },
            },
        },
    }
}

/// How many tabs belong to a workspace.
pub open spec fn tabs_in(tabs: Seq<TabView>, workspace_id: Seq<char>) -> nat
    decreases tabs.len(),
{
    if tabs.len() == 0 {
        0
    } else {
        tabs_in(tabs.drop_last(), workspace_id) + if tabs.last().workspace_id == workspace_id {
            1nat
        } else {
            0nat
        }
    }
}

/// The tabs with their display numbers: in each workspace they are counted from one
/// on, in the order in which they are listed.
pub open spec fn counted(tabs: Seq<TabView>) -> Seq<TabView> {
    Seq::new(
        tabs.len(),
        |i: int|
            TabView {
                display_number: tabs_in(tabs.take(i + 1), tabs[i].workspace_id) as usize,
                ..tabs[i]
            },
    )
}

/// The row that the result of a reply holds under a name.
pub open spec fn listed(reply: JsonView, name: Seq<char>) -> Option<Seq<JsonView>> {
    match member(reply, "result"@) {
        Some(result) => array_member(result, name),
        None => None,
    }
}

/// The tabs that a reply lists.
pub open spec fn tabs_of(reply: JsonView) -> Result<Seq<TabView>, ReplyFault> {
    match listed(reply, "tabs"@) {
        None => Err(ReplyFault::MissingTabs),
        Some(items) => match each_read(items, |v: JsonView| listed_tab(v)) {
            Err(fault) => Err(fault),
            Ok(tabs) => Ok(counted(tabs)),
        },
    }
}

/// The row that the result of a reply holds under a name.
fn listed_in<'a>(reply: &'a Json, name: &str) -> (r: Option<&'a Vec<Json>>)
    ensures
        match listed(reply@, name@) {
            Some(items) => r matches Some(row) && views_of(row@) == items,
            None => r is None,
        },
{
    match reply.get("result") {
        Some(result) => result.get_array(name),
        None => None,
    }
}

/// A tab as it is listed.
fn read_tab(value: &Json) -> (r: Result<Tab, ReplyError>)
    ensures
        match listed_tab(value@) {
            Ok(tab) => r matches Ok(t) && t@ == tab,
            Err(fault) => r matches Err(e) && e@ == fault,
        },
{
    let tab_id = required_string(value, "tab_id")?;
    let workspace_id = required_string(value, "workspace_id")?;
    let label = required_string(value, "label")?;
    let number = required_u64(value, "number")?;
    Ok(
        Tab {
            tab_id,
            workspace_id,
            label,
            number: number as usize,
            display_number: 0,
            focused: optional_bool(value, "focused"),
        },
    )
}

/// Gives tabs their display numbers.
fn count_tabs(tabs: Vec<Tab>) -> (r: Vec<Tab>)
    ensures
        tab_views(r@) == counted(tab_views(tabs@)),
{
    let ghost all = tab_views(tabs@);
    let mut done: Vec<Tab> = Vec::new();
    for i in 0..tabs.len()
        invariant
            all == tab_views(tabs@),
            done@.len() == i,
            forall|j: int| 0 <= j < i ==> (#[trigger] done@[j])@ == counted(all)[j],
    {
        let mut count: usize = 0;
        assert(all.take(0) =~= seq![]);
        for k in 0..i + 1
            invariant
                all == tab_views(tabs@),
                i < tabs@.len(),
                count == tabs_in(all.take(k as int), all[i as int].workspace_id),
                count <= k,
        {
            assert(all.take(k + 1).drop_last() =~= all.take(k as int));
            assert(all.take(k + 1).last() == tabs@[k as int]@);
            assert(all[i as int] == tabs@[i as int]@);
            if same_text(tabs[k].workspace_id.as_str(), tabs[i].workspace_id.as_str()) {
                count += 1;
            }
        }
        let mut tab = tabs[i].clone();
        tab.display_number = count;
        assert(all[i as int] == tabs@[i as int]@);
        done.push(tab);
    }
    assert(tab_views(done@) =~= counted(all));
    done
}

/// The tabs that a reply lists.
pub fn list_tabs(reply: &Json) -> (r: Result<Vec<Tab>, ReplyError>)
    ensures
        match tabs_of(reply@) {
            Ok(tabs) => r matches Ok(row) && tab_views(row@) == tabs,
            Err(fault) => r matches Err(e) && e@ == fault,
        },
{
    let items = match listed_in(reply, "tabs") {
        Some(items) => items,
        None => {
            return Err(ReplyError::MissingTabs);
        },
    };
    let ghost values = views_of(items@);
    let ghost read = |v: JsonView| listed_tab(v);
    let mut tabs: Vec<Tab> = Vec::new();
    proof {
        lemma_views(items@);
        assert(values.take(0) =~= seq![]);
        assert(tab_views(tabs@) =~= seq![]);
    }
    for i in 0..items.len()
        invariant
            values == views_of(items@),
            values.len() == items@.len(),
            forall|j: int| 0 <= j < items@.len() ==> #[trigger] values[j] == items@[j]@,
            read == (|v: JsonView| listed_tab(v)),
            tabs_of(reply@) == match each_read(values, read) {
                Err(fault) => Err(fault),
                Ok(tabs) => Ok(counted(tabs)),
            },
            each_read(values.take(i as int), read) == Ok::<Seq<TabView>, ReplyFault>(
                tab_views(tabs@),
            ),
    {
        assert(values.take(i + 1).drop_last() =~= values.take(i as int));
        assert(values.take(i + 1).last() == items@[i as int]@);
        match read_tab(&items[i]) {
            Ok(tab) => {
                let ghost before = tab_views(tabs@);
                tabs.push(tab);
                assert(tab_views(tabs@) =~= before.push(tab@));
            },
            Err(e) => {
                proof {
                    lemma_fault_stays(values, i + 1, read);
                }
                return Err(e);
            },
        }
    }
    assert(values.take(items@.len() as int) =~= values);
    Ok(count_tabs(tabs))
}

// -------------------------------------------------------------------------- panes

/// A pane as it is listed. Its internal title is the one that Herdr has stripped,
/// where it gives one.
pub open spec fn listed_pane(value: JsonView) -> Result<PaneView, ReplyFault> {
    match needed_text(value, "pane_id"@) {
        Err(fault) => Err(fault),
        Ok(pane_id) => match needed_text(value, "tab_id"@) {
            Err(fault) => Err(fault),
            Ok(tab_id) => Ok(
                PaneView {
                    pane_id,
                    tab_id,
                    focused: flag_member(value, "focused"@),
                    cwd: text_member(value, "cwd"@),
                    foreground_cwd: text_member(value, "foreground_cwd"@),
                    agent: text_member(value, "agent"@),
                    internal_title: match text_member(value, "terminal_title_stripped"@) {
                        Some(title) => Some(title),
                        None => text_member(value, "terminal_title"@),
                    },
                },
            ),
        },
    }
}

/// The panes that a reply lists.
pub open spec fn panes_in(reply: JsonView) -> Result<Seq<PaneView>, ReplyFault> {
    match listed(reply, "panes"@) {
        None => Err(ReplyFault::MissingPanes),
        Some(items) => each_read(items, |v: JsonView| listed_pane(v)),
    }
}

/// A pane as it is listed.
fn read_pane(value: &Json) -> (r: Result<Pane, ReplyError>)
    ensures
        match listed_pane(value@) {
            Ok(pane) => r matches Ok(p) && p@ == pane,
            Err(fault) => r matches Err(e) && e@ == fault,
        },
{
    let pane_id = required_string(value, "pane_id")?;
    let tab_id = required_string(value, "tab_id")?;
    let internal_title = match optional_string(value, "terminal_title_stripped") {
        Some(title) => Some(title),
        None => optional_string(value, "terminal_title"),
    };
    Ok(
        Pane {
            pane_id,
            tab_id,
            focused: optional_bool(value, "focused"),
            cwd: optional_string(value, "cwd"),
            foreground_cwd: optional_string(value, "foreground_cwd"),
            agent: optional_string(value, "agent"),
            internal_title,
        },
    )
}

/// The panes that a reply lists.
pub fn list_panes(reply: &Json) -> (r: Result<Vec<Pane>, ReplyError>)
    ensures
        match panes_in(reply@) {
            Ok(panes) => r matches Ok(row) && pane_views(row@) == panes,
            Err(fault) => r matches Err(e) && e@ == fault,
        },
{
    let items = match listed_in(reply, "panes") {
        Some(items) => items,
        None => {
            return Err(ReplyError::MissingPanes);
        },
    };
    let ghost values = views_of(items@);
    let ghost read = |v: JsonView| listed_pane(v);
    let mut panes: Vec<Pane> = Vec::new();
    proof {
        lemma_views(items@);
        assert(values.take(0) =~= seq![]);
        assert(pane_views(panes@) =~= seq![]);
    }
    for i in 0..items.len()
        invariant
            values == views_of(items@),
            values.len() == items@.len(),
            forall|j: int| 0 <= j < items@.len() ==> #[trigger] values[j] == items@[j]@,
            read == (|v: JsonView| listed_pane(v)),
            panes_in(reply@) == each_read(values, read),
            each_read(values.take(i as int), read) == Ok::<Seq<PaneView>, ReplyFault>(
                pane_views(panes@),
            ),
    {
        assert(values.take(i + 1).drop_last() =~= values.take(i as int));
        assert(values.take(i + 1).last() == items@[i as int]@);
        match read_pane(&items[i]) {
            Ok(pane) => {
                let ghost before = pane_views(panes@);
                panes.push(pane);
                assert(pane_views(panes@) =~= before.push(pane@));
            },
            Err(e) => {
                proof {
                    lemma_fault_stays(values, i + 1, read);
                }
                return Err(e);
            },
        }
    }
    assert(values.take(items@.len() as int) =~= values);
    Ok(panes)
}

// --------------------------------------------------------------------- workspaces

/// A workspace as it is listed: its id and its label.
pub open spec fn listed_workspace(value: JsonView) -> Result<(Seq<char>, Seq<char>), ReplyFault> {
    match needed_text(value, "workspace_id"@) {
        Err(fault) => Err(fault),
        Ok(workspace_id) => match needed_text(value, "label"@) {
            Err(fault) => Err(fault),
            Ok(label) => Ok((workspace_id, label)),
        },
    }
}

/// The labels of the workspaces that a reply lists, by their ids.
pub open spec fn workspaces_of(reply: JsonView) -> Result<Map<Seq<char>, Seq<char>>, ReplyFault> {
    match listed(reply, "workspaces"@) {
        None => Err(ReplyFault::MissingWorkspaces),
        Some(items) => match each_read(items, |v: JsonView| listed_workspace(v)) {
            Err(fault) => Err(fault),
            Ok(pairs) => Ok(map_of(pairs)),
        },
    }
}

/// The labels of the workspaces that a reply lists, by their ids.
pub fn list_workspaces(reply: &Json) -> (r: Result<TextMap, ReplyError>)
    ensures
        match workspaces_of(reply@) {
            Ok(labels) => r matches Ok(m) && m@ == labels,
            Err(fault) => r matches Err(e) && e@ == fault,
        },
{
    let items = match listed_in(reply, "workspaces") {
        Some(items) => items,
        None => {
            return Err(ReplyError::MissingWorkspaces);
        },
    };
    let ghost values = views_of(items@);
    let ghost read = |v: JsonView| listed_workspace(v);
    let ghost mut pairs: Seq<(Seq<char>, Seq<char>)> = seq![];
    let mut labels = TextMap::new();
    proof {
        lemma_views(items@);
        assert(values.take(0) =~= seq![]);
    }
    for i in 0..items.len()
        invariant
            values == views_of(items@),
            values.len() == items@.len(),
            forall|j: int| 0 <= j < items@.len() ==> #[trigger] values[j] == items@[j]@,
            read == (|v: JsonView| listed_workspace(v)),
            workspaces_of(reply@) == match each_read(values, read) {
                Err(fault) => Err(fault),
                Ok(pairs) => Ok(map_of(pairs)),
            },
            each_read(values.take(i as int), read) == Ok::<
                Seq<(Seq<char>, Seq<char>)>,
                ReplyFault,
            >(pairs),
            labels@ == map_of(pairs),
    {
        assert(values.take(i + 1).drop_last() =~= values.take(i as int));
        assert(values.take(i + 1).last() == items@[i as int]@);
        let workspace_id = match required_string(&items[i], "workspace_id") {
            Ok(workspace_id) => workspace_id,
            Err(e) => {
                proof {
                    lemma_fault_stays(values, i + 1, read);
                }
                return Err(e);
            },
        };
        let label = match required_string(&items[i], "label") {
            Ok(label) => label,
            Err(e) => {
                proof {
                    lemma_fault_stays(values, i + 1, read);
                }
                return Err(e);
            },
        };
        proof {
            let before = pairs;
            pairs = pairs.push((workspace_id@, label@));
            assert(pairs.drop_last() =~= before);
        }
        labels.insert(workspace_id, label);
    }
    assert(values.take(items@.len() as int) =~= values);
    Ok(labels)
}

// ------------------------------------------------------------------------- layout

/// The pane with the focus that the layout in a reply names.
pub open spec fn focused_pane_of(reply: JsonView) -> Option<Seq<char>> {
    match member(reply, "result"@) {
        Some(result) => match member(result, "layout"@) {
            Some(layout) => text_member(layout, "focused_pane_id"@),
            None => None,
        },
        None => None,
    }
}

/// The pane with the focus that the layout in a reply names.
pub fn layout_focused_pane(reply: &Json) -> (r: Result<String, ReplyError>)
    ensures
        match focused_pane_of(reply@) {
            Some(pane_id) => r matches Ok(s) && s@ == pane_id,
            None => r == Err::<String, ReplyError>(ReplyError::MissingFocusedPane),
        },
{
    let found = match reply.get("result") {
        Some(result) => match result.get("layout") {
            Some(layout) => layout.get_text("focused_pane_id"),
            None => None,
        },
        None => None,
    };
    match found {
        Some(pane_id) => Ok(pane_id),
        None => Err(ReplyError::MissingFocusedPane),
    }
}

// ---------------------------------------------------------------------- processes

/// The strings of a row, in order; other values are passed over.
pub open spec fn texts_of(items: Seq<JsonView>) -> Seq<Seq<char>>
    decreases items.len(),
{
    if items.len() == 0 {
        seq![]
    } else {
        match items.last() {
            JsonView::Text(s) => texts_of(items.drop_last()).push(s),
            _ => texts_of(items.drop_last()),
        }
    }
}

/// A process as it is listed.
pub open spec fn listed_process(value: JsonView) -> Result<ProcessView, ReplyFault> {
    match needed_text(value, "name"@) {
        Err(fault) => Err(fault),
        Ok(name) => Ok(
            ProcessView {
                name,
                argv0: text_member(value, "argv0"@),
                argv: match array_member(value, "argv"@) {
                    Some(items) => texts_of(items),
                    None => seq![],
                },
                cmdline: text_member(value, "cmdline"@),
            },
        ),
    }
}

/// The number of a process, where it fits 32 bits.
pub open spec fn pid_of(n: Option<u64>) -> Option<u32> {
    match n {
        Some(n) => if n <= u32::MAX {
            Some(n as u32)
        } else {
            None
        },
        None => None,
    }
}

/// The processes of a pane that a reply gives.
pub open spec fn process_info_of(reply: JsonView) -> Result<ProcessInfoView, ReplyFault> {
    let info = match member(reply, "result"@) {
        Some(result) => member(result, "process_info"@),
        None => None,
    };
    match info {
        None => Err(ReplyFault::MissingProcessInfo),
        Some(info) => match array_member(info, "foreground_processes"@) {
            None => Err(ReplyFault::MissingForegroundProcesses),
            Some(items) => match each_read(items, |v: JsonView| listed_process(v)) {
                Err(fault) => Err(fault),
                Ok(processes) => Ok(
                    ProcessInfoView {
                        shell_pid: pid_of(number_member(info, "shell_pid"@)),
                        processes,
                    },
                ),
            },
        },
    }
}

/// The strings of a row, in order.
fn collect_texts(items: &Vec<Json>) -> (texts: Vec<String>)
    ensures
        views(texts@) == texts_of(views_of(items@)),
{
    let ghost values = views_of(items@);
    let mut texts: Vec<String> = Vec::new();
    proof {
        lemma_views(items@);
        assert(values.take(0) =~= seq![]);
        assert(views(texts@) =~= seq![]);
    }
    for i in 0..items.len()
        invariant
            values == views_of(items@),
            values.len() == items@.len(),
            forall|j: int| 0 <= j < items@.len() ==> #[trigger] values[j] == items@[j]@,
            views(texts@) == texts_of(values.take(i as int)),
    {
        assert(values.take(i + 1).drop_last() =~= values.take(i as int));
        assert(values.take(i + 1).last() == items@[i as int]@);
        if let Json::Text(s) = &items[i] {
            let ghost before = views(texts@);
            texts.push(s.clone());
            assert(views(texts@) =~= before.push(s@));
        }
    }
    assert(values.take(items@.len() as int) =~= values);
    texts
}

/// A process as it is listed.
fn read_process(value: &Json) -> (r: Result<ForegroundProcess, ReplyError>)
    ensures
        match listed_process(value@) {
            Ok(process) => r matches Ok(p) && p@ == process,
            Err(fault) => r matches Err(e) && e@ == fault,
        },
{
    let name = required_string(value, "name")?;
    let argv: Vec<String> = match value.get_array("argv") {
        Some(items) => collect_texts(items),
        None => {
            let none: Vec<String> = Vec::new();
            assert(views(none@) =~= seq![]);
            none
        },
    };
    Ok(
        ForegroundProcess {
            name,
            argv0: optional_string(value, "argv0"),
            argv,
            cmdline: optional_string(value, "cmdline"),
        },
    )
}

/// The processes of a pane that a reply gives.
pub fn pane_process_info(reply: &Json) -> (r: Result<PaneProcessInfo, ReplyError>)
    ensures
        match process_info_of(reply@) {
            Ok(info) => r matches Ok(i) && i@ == info,
            Err(fault) => r matches Err(e) && e@ == fault,
        },
{
    let info = match reply.get("result") {
        Some(result) => result.get("process_info"),
        None => None,
    };
    let info = match info {
        Some(info) => info,
        None => {
            return Err(ReplyError::MissingProcessInfo);
        },
    };
    let items = match info.get_array("foreground_processes") {
        Some(items) => items,
        None => {
            return Err(ReplyError::MissingForegroundProcesses);
        },
    };
    let shell_pid: Option<u32> = match info.get_number("shell_pid") {
        Some(n) => if n <= u32::MAX as u64 {
            Some(n as u32)
        } else {
            None
        },
        None => None,
    };
    let ghost values = views_of(items@);
    let ghost read = |v: JsonView| listed_process(v);
    let ghost shown = |p: ForegroundProcess| p@;
    let mut processes: Vec<ForegroundProcess> = Vec::new();
    proof {
        lemma_views(items@);
        assert(values.take(0) =~= seq![]);
        assert(processes@.map_values(shown) =~= seq![]);
    }
    for i in 0..items.len()
        invariant
            values == views_of(items@),
            values.len() == items@.len(),
            forall|j: int| 0 <= j < items@.len() ==> #[trigger] values[j] == items@[j]@,
            read == (|v: JsonView| listed_process(v)),
            shown == (|p: ForegroundProcess| p@),
            process_info_of(reply@) == match each_read(values, read) {
                Err(fault) => Err(fault),
                Ok(processes) => Ok(ProcessInfoView { shell_pid, processes }),
            },
            each_read(values.take(i as int), read) == Ok::<Seq<ProcessView>, ReplyFault>(
                processes@.map_values(shown),
            ),
    {
        assert(values.take(i + 1).drop_last() =~= values.take(i as int));
        assert(values.take(i + 1).last() == items@[i as int]@);
        match read_process(&items[i]) {
            Ok(process) => {
                let ghost before = processes@.map_values(shown);
                processes.push(process);
                assert(processes@.map_values(shown) =~= before.push(process@));
            },
            Err(e) => {
                proof {
                    lemma_fault_stays(values, i + 1, read);
                }
                return Err(e);
            },
        }
    }
    assert(values.take(items@.len() as int) =~= values);
    Ok(PaneProcessInfo { shell_pid, processes })
}

// ------------------------------------------------------------------ window titles

/// The reply to a new window title says that there was a terminal to show it.
pub open spec fn title_shown(reply: JsonView) -> bool {
    match member(reply, "result"@) {
        Some(result) => text_member(result, "reason"@) != Some("no_foreground_client"@),
        None => true,
    }
}

/// Whether a window title reached a terminal, by the reply.
pub fn title_reached_a_client(reply: &Json) -> (b: bool)
    ensures
        b == title_shown(reply@),
{
    match reply.get("result") {
        Some(result) => match result.get_text("reason") {
            Some(reason) => !same_text(reason.as_str(), "no_foreground_client"),
            None => true,
        },
        None => true,
    }
}

// -------------------------------------------------------------------------- laws

proof fn lemma_tabs_in_grows(tabs: Seq<TabView>, m: int, n: int, workspace_id: Seq<char>)
    requires
        0 <= m <= n <= tabs.len(),
    ensures
        tabs_in(tabs.take(m), workspace_id) <= tabs_in(tabs.take(n), workspace_id) <= n,
    decreases n,
{
    if n > 0 {
        assert(tabs.take(n).drop_last() =~= tabs.take(n - 1));
        if m < n {
            lemma_tabs_in_grows(tabs, m, n - 1, workspace_id);
        } else {
            lemma_tabs_in_grows(tabs, n - 1, n - 1, workspace_id);
        }
    }
}

/// Display numbers change nothing else of the tabs. They start at one in each
/// workspace and grow from one of its tabs to the next, so that no two tabs of a
/// workspace have the same.
pub proof fn law_display_numbers_count_each_workspace(tabs: Seq<TabView>, i: int, j: int)
    requires
        tabs.len() <= usize::MAX,
        0 <= i < j < tabs.len(),
    ensures
        counted(tabs).len() == tabs.len(),
        counted(tabs)[i] == (TabView {
            display_number: counted(tabs)[i].display_number,
            ..tabs[i]
        }),
        1 <= counted(tabs)[i].display_number <= tabs_in(tabs, tabs[i].workspace_id),
        tabs[i].workspace_id == tabs[j].workspace_id ==> counted(tabs)[i].display_number < counted(
            tabs,
        )[j].display_number,
{
    let own = tabs[i].workspace_id;
    assert(tabs.take(i + 1).drop_last() =~= tabs.take(i));
    assert(tabs.take(j + 1).drop_last() =~= tabs.take(j));
    assert(tabs.take(tabs.len() as int) =~= tabs);
    lemma_tabs_in_grows(tabs, i + 1, tabs.len() as int, own);
    lemma_tabs_in_grows(tabs, i + 1, j, own);
    lemma_tabs_in_grows(tabs, j + 1, tabs.len() as int, own);
}

/// Every number from one up to the number of tabs of a workspace is the display
/// number of one of them.
pub proof fn law_every_display_number_is_used(tabs: Seq<TabView>, workspace_id: Seq<char>, n: nat)
    requires
        tabs.len() <= usize::MAX,
        1 <= n <= tabs_in(tabs, workspace_id),
    ensures
        exists|i: int|
            0 <= i < tabs.len() && (#[trigger] counted(tabs)[i]).workspace_id == workspace_id
                && counted(tabs)[i].display_number == n,
{
    assert(tabs.take(tabs.len() as int) =~= tabs);
    let i = lemma_number_is_used(tabs, tabs.len() as int, workspace_id, n);
    lemma_tabs_in_grows(tabs, i + 1, tabs.len() as int, workspace_id);
    assert(counted(tabs)[i].workspace_id == workspace_id);
}

proof fn lemma_number_is_used(tabs: Seq<TabView>, m: int, workspace_id: Seq<char>, n: nat) -> (i: int)
    requires
        0 <= m <= tabs.len(),
        1 <= n <= tabs_in(tabs.take(m), workspace_id),
    ensures
        0 <= i < m,
        tabs[i].workspace_id == workspace_id,
        tabs_in(tabs.take(i + 1), workspace_id) == n,
    decreases m,
{
    if m == 0 {
        assert(tabs.take(0) =~= seq![]);
        0
    } else {
        assert(tabs.take(m).drop_last() =~= tabs.take(m - 1));
        if n <= tabs_in(tabs.take(m - 1), workspace_id) {
            lemma_number_is_used(tabs, m - 1, workspace_id, n)
        } else {
            m - 1
        }
    }
}

/// Herdr is asked in its own words: lists of tabs, panes and workspaces, what is known
/// of a pane, a new label for a tab, and a new title.
pub proof fn law_herdr_is_asked_in_its_words(
    pane_id: Seq<char>,
    tab_id: Seq<char>,
    label: Seq<char>,
    title: Seq<char>,
)
    ensures
        arguments(RequestView::ListTabs) == seq!["tab"@, "list"@],
        arguments(RequestView::ListPanes) == seq!["pane"@, "list"@],
        arguments(RequestView::ListWorkspaces) == seq!["workspace"@, "list"@],
        arguments(RequestView::Layout { pane_id }) == seq!["pane"@, "layout"@, "--pane"@, pane_id],
        arguments(RequestView::Processes { pane_id }) == seq![
            "pane"@,
            "process-info"@,
            "--pane"@,
            pane_id,
        ],
        arguments(RequestView::Rename { tab_id, label }) == seq!["tab"@, "rename"@, tab_id, label],
        arguments(RequestView::SetTitle { title }) == seq!["terminal"@, "title"@, "set"@, title],
{
}

/// A reply counts where the command succeeded and printed a document that reports no
/// error; it is that document.
pub proof fn law_replies_count_without_errors(success: bool, document: Option<JsonView>)
    ensures
        reply_of(success, document) is Ok <==> success && (document matches Some(value) && member(
            value,
            "error"@,
        ) is None),
        reply_of(success, document) matches Ok(value) ==> document == Some(value),
        !success ==> reply_of(success, document) == Err::<JsonView, CommandFault>(
            CommandFault::Failed,
        ),
        success && document is None ==> reply_of(success, document) == Err::<
            JsonView,
            CommandFault,
        >(CommandFault::Json),
        success && (document matches Some(value) && member(value, "error"@) is Some) ==> reply_of(
            success,
            document,
        ) == Err::<JsonView, CommandFault>(CommandFault::Reported),
{
}

/// A tab has what its entry holds under the names of its parts, and is focused only
/// where the entry says so. An entry without one of the parts that a tab must have is
/// refused, for the first that is missing.
pub proof fn law_tabs_are_read_from_their_entries(value: JsonView)
    ensures
        listed_tab(value) matches Ok(tab) ==> {
            &&& member(value, "tab_id"@) == Some(JsonView::Text(tab.tab_id))
            &&& member(value, "workspace_id"@) == Some(JsonView::Text(tab.workspace_id))
            &&& member(value, "label"@) == Some(JsonView::Text(tab.label))
            &&& member(value, "number"@) matches Some(JsonView::Number(Some(n))) && tab.number
                == n as usize
            &&& tab.focused <==> member(value, "focused"@) == Some(JsonView::Bool(true))
        },
        listed_tab(value) is Ok <==> {
            &&& member(value, "tab_id"@) matches Some(JsonView::Text(_))
            &&& member(value, "workspace_id"@) matches Some(JsonView::Text(_))
            &&& member(value, "label"@) matches Some(JsonView::Text(_))
            &&& member(value, "number"@) matches Some(JsonView::Number(Some(_)))
        },
        listed_tab(value) matches Err(fault) ==> fault == if !(member(value, "tab_id"@) matches Some(
            JsonView::Text(_),
        )) {
            ReplyFault::MissingString("tab_id"@)
        } else if !(member(value, "workspace_id"@) matches Some(JsonView::Text(_))) {
            ReplyFault::MissingString("workspace_id"@)
        } else if !(member(value, "label"@) matches Some(JsonView::Text(_))) {
            ReplyFault::MissingString("label"@)
        } else {
            ReplyFault::MissingInteger("number"@)
        },
{
    law_members_are_read_by_their_types(value, "tab_id"@);
    law_members_are_read_by_their_types(value, "workspace_id"@);
    law_members_are_read_by_their_types(value, "label"@);
    law_members_are_read_by_their_types(value, "number"@);
    law_members_are_read_by_their_types(value, "focused"@);
}

/// What an entry holds under a name, where that is a text.
pub open spec fn text_under(value: JsonView, name: Seq<char>) -> Option<Seq<char>> {
    match member(value, name) {
        Some(JsonView::Text(s)) => Some(s),
        _ => None,
    }
}

/// A pane has what its entry holds under the names of its parts. Its title is the one
/// that Herdr has stripped, else the one of the terminal.
pub proof fn law_panes_are_read_from_their_entries(value: JsonView)
    ensures
        listed_pane(value) matches Ok(pane) ==> {
            &&& text_under(value, "pane_id"@) == Some(pane.pane_id)
            &&& text_under(value, "tab_id"@) == Some(pane.tab_id)
            &&& pane.focused <==> member(value, "focused"@) == Some(JsonView::Bool(true))
            &&& pane.cwd == text_under(value, "cwd"@)
            &&& pane.foreground_cwd == text_under(value, "foreground_cwd"@)
            &&& pane.agent == text_under(value, "agent"@)
            &&& text_under(value, "terminal_title_stripped"@) is Some ==> pane.internal_title
                == text_under(value, "terminal_title_stripped"@)
            &&& text_under(value, "terminal_title_stripped"@) is None ==> pane.internal_title
                == text_under(value, "terminal_title"@)
        },
        listed_pane(value) is Ok <==> text_under(value, "pane_id"@) is Some && text_under(
            value,
            "tab_id"@,
        ) is Some,
        listed_pane(value) matches Err(fault) ==> fault == ReplyFault::MissingString(
            if text_under(value, "pane_id"@) is None {
                "pane_id"@
            } else {
                "tab_id"@
            },
        ),
{
    law_members_are_read_by_their_types(value, "pane_id"@);
    law_members_are_read_by_their_types(value, "tab_id"@);
    law_members_are_read_by_their_types(value, "focused"@);
}

/// A workspace has the id and the label of its entry, and must have both.
pub proof fn law_workspaces_are_read_from_their_entries(value: JsonView)
    ensures
        listed_workspace(value) matches Ok(pair) ==> text_under(value, "workspace_id"@) == Some(
            pair.0,
        ) && text_under(value, "label"@) == Some(pair.1),
        listed_workspace(value) is Ok <==> text_under(value, "workspace_id"@) is Some && text_under(
            value,
            "label"@,
        ) is Some,
        listed_workspace(value) matches Err(fault) ==> fault == ReplyFault::MissingString(
            if text_under(value, "workspace_id"@) is None {
                "workspace_id"@
            } else {
                "label"@
            },
        ),
{
}

/// A process has what its entry holds under the names of its parts; its arguments are
/// the texts of the row, in their order.
pub proof fn law_processes_are_read_from_their_entries(value: JsonView)
    ensures
        listed_process(value) matches Ok(process) ==> {
            &&& text_under(value, "name"@) == Some(process.name)
            &&& process.argv0 == text_under(value, "argv0"@)
            &&& process.cmdline == text_under(value, "cmdline"@)
            &&& member(value, "argv"@) matches Some(JsonView::Array(items)) ==> process.argv
                == texts_of(items)
            &&& !(member(value, "argv"@) matches Some(JsonView::Array(_))) ==> process.argv
                == Seq::<Seq<char>>::empty()
        },
        listed_process(value) is Ok <==> text_under(value, "name"@) is Some,
        listed_process(value) matches Err(fault) ==> fault == ReplyFault::MissingString("name"@),
{
}

/// The texts of a row are kept in their order, and nothing else is.
pub proof fn law_texts_of_a_row_are_kept(items: Seq<JsonView>, next: JsonView)
    ensures
        texts_of(seq![]) == Seq::<Seq<char>>::empty(),
        texts_of(items.push(next)) == match next {
            JsonView::Text(s) => texts_of(items).push(s),
            _ => texts_of(items),
        },
{
    assert(items.push(next).drop_last() =~= items);
}

/// A row is read entry by entry, in its order, and none is left out. It is refused for
/// the first entry that is.
pub proof fn law_rows_are_read_entry_by_entry<T>(
    items: Seq<JsonView>,
    read: spec_fn(JsonView) -> Result<T, ReplyFault>,
)
    ensures
        each_read(items, read) matches Ok(row) ==> row.len() == items.len() && forall|i: int|
            0 <= i < items.len() ==> read(#[trigger] items[i]) == Ok::<T, ReplyFault>(row[i]),
        each_read(items, read) matches Err(fault) ==> exists|i: int|
            0 <= i < items.len() && read(#[trigger] items[i]) == Err::<T, ReplyFault>(fault)
                && forall|j: int| 0 <= j < i ==> read(#[trigger] items[j]) is Ok,
    decreases items.len(),
{
    if items.len() > 0 {
        let shorter = items.drop_last();
        law_rows_are_read_entry_by_entry(shorter, read);
        match each_read(shorter, read) {
            Ok(done) => {
                assert forall|j: int| 0 <= j < shorter.len() implies read(#[trigger] items[j])
                    == Ok::<T, ReplyFault>(done[j]) by {
                    assert(items[j] == shorter[j]);
                }
                assert(items[items.len() - 1] == items.last());
            },
            Err(fault) => {
                let i = choose|i: int|
                    0 <= i < shorter.len() && read(#[trigger] shorter[i]) == Err::<T, ReplyFault>(
                        fault,
                    ) && forall|j: int| 0 <= j < i ==> read(#[trigger] shorter[j]) is Ok;
                assert(items[i] == shorter[i]);
                assert forall|j: int| 0 <= j < i implies read(#[trigger] items[j]) is Ok by {
                    assert(items[j] == shorter[j]);
                }
            },
        }
    }
}

/// What the result of a reply holds under a name.
pub open spec fn result_under(reply: JsonView, name: Seq<char>) -> Option<JsonView> {
    match member(reply, "result"@) {
        Some(result) => member(result, name),
        None => None,
    }
}

/// The lists of a reply stand in its result, under their names: every entry is read,
/// in its order. A reply without the list is refused.
pub proof fn law_lists_are_read_from_replies(reply: JsonView)
    ensures
        match result_under(reply, "tabs"@) {
            Some(JsonView::Array(items)) => match tabs_of(reply) {
                Ok(tabs) => tabs.len() == items.len() && forall|i: int|
                    0 <= i < items.len() ==> listed_tab(#[trigger] items[i]) == Ok::<
                        TabView,
                        ReplyFault,
                    >(TabView { display_number: 0, ..tabs[i] }),
                Err(_) => exists|i: int| 0 <= i < items.len() && listed_tab(#[trigger] items[i]) is Err,
            },
            _ => tabs_of(reply) == Err::<Seq<TabView>, ReplyFault>(ReplyFault::MissingTabs),
        },
        match result_under(reply, "panes"@) {
            Some(JsonView::Array(items)) => match panes_in(reply) {
                Ok(panes) => panes.len() == items.len() && forall|i: int|
                    0 <= i < items.len() ==> listed_pane(#[trigger] items[i]) == Ok::<
                        PaneView,
                        ReplyFault,
                    >(panes[i]),
                Err(_) => exists|i: int|
                    0 <= i < items.len() && listed_pane(#[trigger] items[i]) is Err,
            },
            _ => panes_in(reply) == Err::<Seq<PaneView>, ReplyFault>(ReplyFault::MissingPanes),
        },
{
    if let Some(JsonView::Array(items)) = result_under(reply, "tabs"@) {
        let read = |v: JsonView| listed_tab(v);
        law_rows_are_read_entry_by_entry(items, read);
        if let Ok(tabs) = each_read(items, read) {
            assert forall|i: int| 0 <= i < items.len() implies listed_tab(#[trigger] items[i])
                == Ok::<TabView, ReplyFault>(
                TabView { display_number: 0, ..counted(tabs)[i] },
            ) by {
                assert(read(items[i]) == Ok::<TabView, ReplyFault>(tabs[i]));
            }
        } else {
            let i = choose|i: int| 0 <= i < items.len() && read(#[trigger] items[i]) is Err;
            assert(listed_tab(items[i]) is Err);
        }
    }
    if let Some(JsonView::Array(items)) = result_under(reply, "panes"@) {
        let read = |v: JsonView| listed_pane(v);
        law_rows_are_read_entry_by_entry(items, read);
        if let Ok(panes) = each_read(items, read) {
            assert forall|i: int| 0 <= i < items.len() implies listed_pane(#[trigger] items[i])
                == Ok::<PaneView, ReplyFault>(panes[i]) by {
                assert(read(items[i]) == Ok::<PaneView, ReplyFault>(panes[i]));
            }
        } else {
            let i = choose|i: int| 0 <= i < items.len() && read(#[trigger] items[i]) is Err;
            assert(listed_pane(items[i]) is Err);
        }
    }
}

/// The display number of a tab is one more than there are tabs of its workspace before
/// it.
pub proof fn law_display_numbers_count_the_tabs_before(tabs: Seq<TabView>, i: int)
    requires
        tabs.len() < usize::MAX,
        0 <= i < tabs.len(),
    ensures
        counted(tabs)[i].display_number == tabs_in(tabs.take(i), tabs[i].workspace_id) + 1,
        tabs_in(seq![], tabs[i].workspace_id) == 0,
{
    let next = tabs.take(i + 1);
    assert(next.drop_last() =~= tabs.take(i));
    assert(next.last() == tabs[i]);
    lemma_tabs_in_bound(tabs.take(i), tabs[i].workspace_id);
}

proof fn lemma_tabs_in_bound(tabs: Seq<TabView>, workspace_id: Seq<char>)
    ensures
        tabs_in(tabs, workspace_id) <= tabs.len(),
    decreases tabs.len(),
{
    if tabs.len() > 0 {
        lemma_tabs_in_bound(tabs.drop_last(), workspace_id);
    }
}

/// The pane with the focus is named by the layout in the result of a reply, and the
/// processes of a pane stand in the result with the number of its shell, where that
/// fits.
pub proof fn law_pane_replies_are_read(reply: JsonView)
    ensures
        focused_pane_of(reply) == match result_under(reply, "layout"@) {
            Some(layout) => text_under(layout, "focused_pane_id"@),
            None => None,
        },
        match result_under(reply, "process_info"@) {
            None => process_info_of(reply) == Err::<ProcessInfoView, ReplyFault>(
                ReplyFault::MissingProcessInfo,
            ),
            Some(info) => match member(info, "foreground_processes"@) {
                Some(JsonView::Array(items)) => match process_info_of(reply) {
                    Ok(known) => {
                        &&& known.processes.len() == items.len()
                        &&& forall|i: int|
                            0 <= i < items.len() ==> listed_process(#[trigger] items[i]) == Ok::<
                                ProcessView,
                                ReplyFault,
                            >(known.processes[i])
                        &&& known.shell_pid matches Some(pid) ==> member(info, "shell_pid"@) == Some(
                            JsonView::Number(Some(pid as u64)),
                        )
                        &&& known.shell_pid is None ==> !(member(info, "shell_pid"@) matches Some(
                            JsonView::Number(Some(n)),
                        ) && n <= u32::MAX)
                    },
                    Err(_) => exists|i: int|
                        0 <= i < items.len() && listed_process(#[trigger] items[i]) is Err,
                },
                _ => process_info_of(reply) == Err::<ProcessInfoView, ReplyFault>(
                    ReplyFault::MissingForegroundProcesses,
                ),
            },
        },
{
    if let Some(info) = result_under(reply, "process_info"@) {
        if let Some(JsonView::Array(items)) = member(info, "foreground_processes"@) {
            let read = |v: JsonView| listed_process(v);
            law_rows_are_read_entry_by_entry(items, read);
            law_members_are_read_by_their_types(info, "shell_pid"@);
            if let Ok(processes) = each_read(items, read) {
                assert forall|i: int| 0 <= i < items.len() implies listed_process(
                    #[trigger] items[i],
                ) == Ok::<ProcessView, ReplyFault>(processes[i]) by {
                    assert(read(items[i]) == Ok::<ProcessView, ReplyFault>(processes[i]));
                }
            } else {
                let i = choose|i: int| 0 <= i < items.len() && read(#[trigger] items[i]) is Err;
                assert(listed_process(items[i]) is Err);
            }
        }
    }
}

/// A window title did not reach a terminal exactly where the result of the reply gives
/// that reason.
pub proof fn law_undelivered_titles_are_noticed(reply: JsonView)
    ensures
        !title_shown(reply) <==> result_under(reply, "reason"@) == Some(
            JsonView::Text("no_foreground_client"@),
        ),
{
}

/// The labels of the workspaces stand in the result of a reply: every listed workspace
/// has its label, the last one where an id is listed twice, and no other has one.
pub proof fn law_workspaces_are_read_from_replies(reply: JsonView, id: Seq<char>, i: int)
    ensures
        match result_under(reply, "workspaces"@) {
            Some(JsonView::Array(items)) => workspaces_of(reply) matches Ok(labels) ==> {
                &&& labels.dom().contains(id) <==> exists|j: int|
                    0 <= j < items.len() && text_under(#[trigger] items[j], "workspace_id"@)
                        == Some(id)
                &&& 0 <= i < items.len() && text_under(items[i], "workspace_id"@) == Some(id) && (
                forall|j: int|
                    i < j < items.len() ==> text_under(#[trigger] items[j], "workspace_id"@)
                        != Some(id)) ==> text_under(items[i], "label"@) == Some(labels[id])
            },
            _ => workspaces_of(reply) == Err::<Map<Seq<char>, Seq<char>>, ReplyFault>(
                ReplyFault::MissingWorkspaces,
            ),
        },
{
    if let Some(JsonView::Array(items)) = result_under(reply, "workspaces"@) {
        let read = |v: JsonView| listed_workspace(v);
        law_rows_are_read_entry_by_entry(items, read);
        if let Ok(pairs) = each_read(items, read) {
            assert forall|j: int| 0 <= j < items.len() implies text_under(
                #[trigger] items[j],
                "workspace_id"@,
            ) == Some(pairs[j].0) && text_under(items[j], "label"@) == Some(pairs[j].1) by {
                assert(read(items[j]) == Ok::<(Seq<char>, Seq<char>), ReplyFault>(pairs[j]));
                law_workspaces_are_read_from_their_entries(items[j]);
            }
            law_later_pairs_count(pairs, id, i);
            if map_of(pairs).dom().contains(id) {
                let j = choose|j: int| 0 <= j < pairs.len() && (#[trigger] pairs[j]).0 == id;
                assert(text_under(items[j], "workspace_id"@) == Some(id));
            }
            if exists|j: int|
                0 <= j < items.len() && text_under(#[trigger] items[j], "workspace_id"@) == Some(
                    id,
                ) {
                let j = choose|j: int|
                    0 <= j < items.len() && text_under(#[trigger] items[j], "workspace_id"@)
                        == Some(id);
                assert(pairs[j].0 == id);
            }
            if 0 <= i < items.len() && text_under(items[i], "workspace_id"@) == Some(id) && (
            forall|j: int|
                i < j < items.len() ==> text_under(#[trigger] items[j], "workspace_id"@) != Some(
                    id,
                )) {
                assert forall|j: int| i < j < pairs.len() implies (#[trigger] pairs[j]).0 != id by {
                    assert(text_under(items[j], "workspace_id"@) != Some(id));
                }
            }
        }
    }
}

} // verus!
