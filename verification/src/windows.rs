//! The process tree of Windows, where Herdr may know of a pane's shell only: the
//! program in the foreground is looked for among the descendants of the shell.
use crate::directory::{components, is_name, law_paths_are_cut_at_separators};
use crate::number::{decimal, lemma_decimal_denotes, lemma_decimal_is_read_back, parse, parse_u32};
use crate::process::{
    bare_name, basename, basename_or, exe_readable, exe_suffix_is_readable,
    is_internal_helper_process, is_shell_process, labels_helper, labels_shell, lemma_shells,
    shells, without_exe, ForegroundProcess,
};
use crate::text::{
    ascii_only, has_suffix, is_digit, is_space, law_ends_are_stripped,
    law_splitting_cuts_at_the_separators, law_trimming_takes_white_space_off, lower, lower_all,
    lowercase, same_text, split, split_by, strip_back, strip_front, stripped, to_ascii_lowercase,
    trim, trimmed,
};
use std::collections::HashSet;
use vstd::prelude::*;
use vstd::string::StrSliceExecFns;
use vstd::utf8::{decode_utf8, valid_utf8};

verus! {

broadcast use vstd::std_specs::hash::group_hash_axioms;

/// A process of the whole machine.
#[derive(Debug, Clone, PartialEq, Eq)]
pub struct WindowsProcessEntry {
    pub pid: u32,
    pub parent_pid: u32,
    pub name: String,
}

/// The processes of the machine at one time; none where the platform offers no
/// such list.
#[derive(Debug, PartialEq, Eq)]
pub struct PlatformProcessSnapshot {
    pub entries: Vec<WindowsProcessEntry>,
}

impl Default for PlatformProcessSnapshot {
    fn default() -> (s: Self)
        ensures
            s.entries@.len() == 0,
    {
        PlatformProcessSnapshot { entries: Vec::new() }
    }
}

/// `s` without `suffix`, if it ends with it.
pub open spec fn cut(s: Seq<char>, suffix: Seq<char>) -> Seq<char> {
    s.take(s.len() - suffix.len())
}

/// The name by which programs are told apart: the name of the file in small
/// letters, without one of the suffixes of executables.
pub open spec fn normal_name(name: Seq<char>) -> Seq<char> {
    let small = lower_all(trim(basename_or(name, name)));
    if ".exe"@.is_suffix_of(small) {
        cut(small, ".exe"@)
    } else if ".cmd"@.is_suffix_of(small) {
        cut(small, ".cmd"@)
    } else if ".bat"@.is_suffix_of(small) {
        cut(small, ".bat"@)
    } else {
        small
    }
}

/// A process that is passed through: a shell, a helper or a wrapper that only
/// starts another program.
pub open spec fn is_transparent(name: Seq<char>) -> bool {
    let label = without_exe(basename_or(name, name), true);
    ||| labels_shell(label)
    ||| labels_helper(label)
    ||| normal_name(name) == "conhost"@
    ||| normal_name(name) == "openconsole"@
    ||| normal_name(name) == "winpty"@
    ||| normal_name(name) == "winpty-agent"@
    ||| normal_name(name) == "env"@
}

/// The name of a process can be read.
pub open spec fn name_readable(name: Seq<char>) -> bool {
    exe_readable(basename_or(name, name), true)
}

/// How far the search for programs has come.
pub struct Walk {
    /// The processes whose children are still to be looked at, the next one last.
    pub pending: Seq<u32>,
    /// The processes that were met.
    pub visited: Set<u32>,
    /// The places of the programs that were found, in the order of finding.
    pub found: Seq<int>,
    /// Every name that was looked at could be read.
    pub readable: bool,
}

/// The search after the entry at place `i` was met as a child.
pub open spec fn meet(entries: Seq<WindowsProcessEntry>, i: int, w: Walk) -> Walk {
    let entry = entries[i];
    if w.visited.contains(entry.pid) {
        w
    } else if is_transparent(entry.name@) {
        Walk {
            pending: w.pending.push(entry.pid),
            visited: w.visited.insert(entry.pid),
            readable: w.readable && name_readable(entry.name@),
            ..w
        }
    } else {
        Walk {
            found: w.found.push(i),
            visited: w.visited.insert(entry.pid),
            readable: w.readable && name_readable(entry.name@),
            ..w
        }
    }
}

/// The search after the children of `parent` among the first `n` entries were
/// met.
pub open spec fn meet_children(
    entries: Seq<WindowsProcessEntry>,
    parent: u32,
    n: nat,
    w: Walk,
) -> Walk
    decreases n,
{
    if n == 0 {
        w
    } else {
        let before = meet_children(entries, parent, (n - 1) as nat, w);
        if entries[n - 1].parent_pid == parent {
            meet(entries, n - 1, before)
        } else {
            before
        }
    }
}

/// The search after the next process was taken and its children were met.
pub open spec fn advance(entries: Seq<WindowsProcessEntry>, w: Walk) -> Walk {
    meet_children(
        entries,
        w.pending.last(),
        entries.len(),
        Walk { pending: w.pending.drop_last(), ..w },
    )
}

/// How many entries were not met.
pub open spec fn unmet(entries: Seq<WindowsProcessEntry>, visited: Set<u32>) -> nat
    decreases entries.len(),
{
    if entries.len() == 0 {
        0
    } else {
        unmet(entries.drop_last(), visited) + if visited.contains(entries.last().pid) {
            0nat
        } else {
            1nat
        }
    }
}

/// The search to its end.
pub open spec fn walk(entries: Seq<WindowsProcessEntry>, w: Walk) -> Walk
    decreases unmet(entries, w.visited) + w.pending.len(),
{
    if w.pending.len() == 0 {
        w
    } else {
        proof {
            lemma_children_shrink(
                entries,
                w.pending.last(),
                entries.len(),
                Walk { pending: w.pending.drop_last(), ..w },
            );
        }
        walk(entries, advance(entries, w))
    }
}

/// The search as it starts: at the shell.
pub open spec fn start(shell_pid: u32) -> Walk {
    Walk {
        pending: seq![shell_pid],
        visited: set![shell_pid],
        found: seq![],
        readable: true,
    }
}

/// A process of that number is running.
pub open spec fn is_running(entries: Seq<WindowsProcessEntry>, pid: u32) -> bool {
    exists|i: int| 0 <= i < entries.len() && (#[trigger] entries[i]).pid == pid
}

/// The places of the programs that are found from a shell on.
pub open spec fn programs(entries: Seq<WindowsProcessEntry>, shell_pid: u32) -> Seq<int> {
    walk(entries, start(shell_pid)).found
}

/// Every name that the search looks at can be read.
pub open spec fn tree_readable(entries: Seq<WindowsProcessEntry>, shell_pid: u32) -> bool {
    is_running(entries, shell_pid) ==> walk(entries, start(shell_pid)).readable
}

/// The place of the program in the foreground of a shell: the first that is
/// found, where all that are found are the same program.
pub open spec fn candidate(entries: Seq<WindowsProcessEntry>, shell_pid: u32) -> Option<int> {
    let found = programs(entries, shell_pid);
    if is_running(entries, shell_pid) && found.len() > 0 && forall|k: int|
        0 <= k < found.len() ==> normal_name(entries[#[trigger] found[k]].name@) == normal_name(
            entries[found[0]].name@,
        ) {
        Some(found[0])
    } else {
        None
    }
}

proof fn lemma_unmet_insert(entries: Seq<WindowsProcessEntry>, visited: Set<u32>, pid: u32)
    ensures
        unmet(entries, visited.insert(pid)) <= unmet(entries, visited),
        !visited.contains(pid) && is_running(entries, pid) ==> unmet(entries, visited.insert(pid))
            < unmet(entries, visited),
    decreases entries.len(),
{
    if entries.len() > 0 {
        let shorter = entries.drop_last();
        lemma_unmet_insert(shorter, visited, pid);
        if is_running(entries, pid) && entries.last().pid != pid {
            let i = choose|i: int| 0 <= i < entries.len() && (#[trigger] entries[i]).pid == pid;
            assert(shorter[i] == entries[i]);
            assert(is_running(shorter, pid));
        }
    }
}

/// Each process that is put aside for later was not met before.
pub proof fn lemma_children_shrink(
    entries: Seq<WindowsProcessEntry>,
    parent: u32,
    n: nat,
    w: Walk,
)
    requires
        n <= entries.len(),
    ensures
        ({
            let after = meet_children(entries, parent, n, w);
            unmet(entries, after.visited) + after.pending.len() <= unmet(entries, w.visited)
                + w.pending.len()
        }),
    decreases n,
{
    if n > 0 {
        lemma_children_shrink(entries, parent, (n - 1) as nat, w);
        let before = meet_children(entries, parent, (n - 1) as nat, w);
        let pid = entries[n - 1].pid;
        assert(is_running(entries, pid));
        lemma_unmet_insert(entries, before.visited, pid);
    }
}

/// The name by which programs are told apart.
pub fn normalized_windows_process_name(name: &str) -> (n: String)
    ensures
        n@ == normal_name(name@),
{
    let file = basename(name, name);
    let small = to_ascii_lowercase(trimmed(file.as_str()));
    if has_suffix(small.as_str(), ".exe") {
        without_suffix(small.as_str(), ".exe")
    } else if has_suffix(small.as_str(), ".cmd") {
        without_suffix(small.as_str(), ".cmd")
    } else if has_suffix(small.as_str(), ".bat") {
        without_suffix(small.as_str(), ".bat")
    } else {
        small
    }
}

/// `s` without the suffix that it ends with.
fn without_suffix(s: &str, suffix: &str) -> (r: String)
    requires
        suffix@.is_suffix_of(s@),
    ensures
        r@ == cut(s@, suffix@),
{
    let end: usize = s.unicode_len() - suffix.unicode_len();
    let kept = s.substring_char(0, end);
    assert(kept@ =~= s@.take(end as int));
    kept.to_owned()
}

/// Whether a process is passed through in the search for a program.
pub fn is_transparent_windows_process(name: &str) -> (b: bool)
    requires
        name_readable(name@),
    ensures
        b == is_transparent(name@),
        ({
            let bare = bare_name(without_exe(basename_or(name@, name@), true));
            ascii_only(bare) && shells().contains(lower_all(bare)) ==> b
        }),
{
    let process = ForegroundProcess {
        name: name.to_owned(),
        argv0: Some(name.to_owned()),
        argv: Vec::new(),
        cmdline: None,
    };
    if is_shell_process(&process, true) || is_internal_helper_process(&process, true) {
        return true;
    }
    let normal = normalized_windows_process_name(name);
    same_text(normal.as_str(), "conhost") || same_text(normal.as_str(), "openconsole") || same_text(
        normal.as_str(),
        "winpty",
    ) || same_text(normal.as_str(), "winpty-agent") || same_text(normal.as_str(), "env")
}

/// Whether the name of a process can be read.
fn name_is_readable(name: &str) -> (b: bool)
    ensures
        b == name_readable(name@),
{
    let file = basename(name, name);
    exe_suffix_is_readable(file.as_str(), true)
}

/// Whether a process of that number is running.
fn has_pid(entries: &[WindowsProcessEntry], pid: u32) -> (b: bool)
    ensures
        b == is_running(entries@, pid),
{
    for i in 0..entries.len()
        invariant
            forall|j: int| 0 <= j < i ==> (#[trigger] entries@[j]).pid != pid,
    {
        if entries[i].pid == pid {
            assert(entries@[i as int].pid == pid);
            return true;
        }
    }
    false
}

/// The places of the programs that are found from a shell on; `None` where the
/// search comes to a name that cannot be read.
fn find_programs(entries: &[WindowsProcessEntry], shell_pid: u32) -> (r: Option<Vec<usize>>)
    ensures
        r is Some == walk(entries@, start(shell_pid)).readable,
        r matches Some(found) ==> places(found@) == programs(entries@, shell_pid) && forall|k: int|
            0 <= k < found@.len() ==> #[trigger] found@[k] < entries.len(),
{
    let mut pending: Vec<u32> = Vec::new();
    pending.push(shell_pid);
    let mut visited: HashSet<u32> = HashSet::new();
    visited.insert(shell_pid);
    let mut found: Vec<usize> = Vec::new();
    let ghost mut w = start(shell_pid);
    assert(pending@ =~= w.pending);
    assert(visited@ =~= w.visited);
    assert(places(found@) =~= w.found);
    while pending.len() > 0
        invariant
            pending@ == w.pending,
            visited@ == w.visited,
            places(found@) == w.found,
            w.readable,
            forall|k: int| 0 <= k < found@.len() ==> #[trigger] found@[k] < entries.len(),
            walk(entries@, w) == walk(entries@, start(shell_pid)),
        decreases unmet(entries@, w.visited) + w.pending.len(),
    {
        let ghost taken = Walk { pending: w.pending.drop_last(), ..w };
        let parent = pending[pending.len() - 1];
        pending.pop();
        let ghost mut step = taken;
        for i in 0..entries.len()
            invariant
                w.pending.len() > 0,
                parent == w.pending.last(),
                taken == (Walk { pending: w.pending.drop_last(), ..w }),
                step == meet_children(entries@, parent, i as nat, taken),
                pending@ == step.pending,
                visited@ == step.visited,
                places(found@) == step.found,
                step.readable,
                forall|k: int| 0 <= k < found@.len() ==> #[trigger] found@[k] < entries.len(),
                walk(entries@, w) == walk(entries@, start(shell_pid)),
        {
            let ghost before = step;
            proof {
                step = meet_children(entries@, parent, (i + 1) as nat, taken);
            }
            let entry = &entries[i];
            if entry.parent_pid == parent && visited.insert(entry.pid) {
                if !name_is_readable(entry.name.as_str()) {
                    proof {
                        lemma_unreadable_children(entries@, parent, (i + 1) as nat, taken);
                        lemma_unreadable_walk(entries@, advance(entries@, w));
                    }
                    return None;
                }
                if is_transparent_windows_process(entry.name.as_str()) {
                    pending.push(entry.pid);
                } else {
                    let ghost old_found = found@;
                    found.push(i);
                    assert(places(found@) =~= places(old_found).push(i as int));
                }
            }
            assert(visited@ =~= step.visited);
        }
        proof {
            lemma_children_shrink(entries@, parent, entries@.len(), taken);
            w = advance(entries@, w);
        }
    }
    Some(found)
}

/// Places as integers.
pub open spec fn places(found: Seq<usize>) -> Seq<int> {
    found.map_values(|i: usize| i as int)
}

/// What could not be read stays so while the children of a process are met.
proof fn lemma_unreadable_children(
    entries: Seq<WindowsProcessEntry>,
    parent: u32,
    n: nat,
    w: Walk,
)
    requires
        n <= entries.len(),
    ensures
        !meet_children(entries, parent, n, w).readable ==> !meet_children(
            entries,
            parent,
            entries.len(),
            w,
        ).readable,
    decreases entries.len() - n,
{
    if n < entries.len() {
        lemma_unreadable_children(entries, parent, n + 1, w);
    }
}

/// What could not be read stays so to the end of the search.
proof fn lemma_unreadable_walk(entries: Seq<WindowsProcessEntry>, w: Walk)
    requires
        !w.readable,
    ensures
        !walk(entries, w).readable,
    decreases unmet(entries, w.visited) + w.pending.len(),
{
    if w.pending.len() > 0 {
        let taken = Walk { pending: w.pending.drop_last(), ..w };
        lemma_children_shrink(entries, w.pending.last(), entries.len(), taken);
        lemma_unreadable_children(entries, w.pending.last(), 0, taken);
        lemma_unreadable_walk(entries, advance(entries, w));
    }
}

/// The names of the programs that were found so far can be read, where all that was
/// looked at can be.
spec fn found_are_readable(entries: Seq<WindowsProcessEntry>, w: Walk) -> bool {
    w.readable ==> forall|k: int|
        0 <= k < w.found.len() ==> name_readable(entries[#[trigger] w.found[k]].name@)
}

proof fn lemma_children_are_readable(
    entries: Seq<WindowsProcessEntry>,
    parent: u32,
    n: nat,
    w: Walk,
)
    requires
        found_are_readable(entries, w),
    ensures
        found_are_readable(entries, meet_children(entries, parent, n, w)),
    decreases n,
{
    if n > 0 {
        lemma_children_are_readable(entries, parent, (n - 1) as nat, w);
    }
}

proof fn lemma_walk_is_readable(entries: Seq<WindowsProcessEntry>, w: Walk)
    requires
        found_are_readable(entries, w),
    ensures
        found_are_readable(entries, walk(entries, w)),
    decreases unmet(entries, w.visited) + w.pending.len(),
{
    if w.pending.len() > 0 {
        let taken = Walk { pending: w.pending.drop_last(), ..w };
        lemma_children_shrink(entries, w.pending.last(), entries.len(), taken);
        lemma_children_are_readable(entries, w.pending.last(), entries.len(), taken);
        lemma_walk_is_readable(entries, advance(entries, w));
    }
}

/// The name of the program that is found can be read.
pub proof fn lemma_candidate_is_readable(entries: Seq<WindowsProcessEntry>, shell_pid: u32)
    requires
        tree_readable(entries, shell_pid),
    ensures
        candidate(entries, shell_pid) matches Some(i) ==> name_readable(entries[i].name@),
{
    lemma_walk_is_readable(entries, start(shell_pid));
}

/// The program in the foreground of a shell, by the processes of the machine.
pub fn select_windows_process_candidate(shell_pid: u32, entries: &[WindowsProcessEntry]) -> (r:
    Option<&WindowsProcessEntry>)
    requires
        tree_readable(entries@, shell_pid),
    ensures
        match candidate(entries@, shell_pid) {
            Some(i) => r == Some(&entries@[i]),
            None => r is None,
        },
{
    if !has_pid(entries, shell_pid) {
        return None;
    }
    let found = match find_programs(entries, shell_pid) {
        Some(found) => found,
        None => {
            return None;
        },
    };
    if found.len() == 0 {
        return None;
    }
    let ghost all = programs(entries@, shell_pid);
    let first = normalized_windows_process_name(entries[found[0]].name.as_str());
    assert(all[0] == found@[0]);
    for k in 0..found.len()
        invariant
            is_running(entries@, shell_pid),
            all == programs(entries@, shell_pid),
            places(found@) == all,
            found@.len() > 0,
            first@ == normal_name(entries@[all[0]].name@),
            forall|j: int| 0 <= j < found@.len() ==> #[trigger] found@[j] < entries.len(),
            forall|j: int|
                0 <= j < k ==> normal_name(entries@[#[trigger] all[j]].name@) == normal_name(
                    entries@[all[0]].name@,
                ),
    {
        assert(all[k as int] == found@[k as int]);
        let name = normalized_windows_process_name(entries[found[k]].name.as_str());
        if !same_text(name.as_str(), first.as_str()) {
            return None;
        }
    }
    Some(&entries[found[0]])
}

/// Whether every name that the search from a shell looks at can be read.
pub fn tree_is_readable(entries: &[WindowsProcessEntry], shell_pid: u32) -> (b: bool)
    ensures
        b == tree_readable(entries@, shell_pid),
{
    if !has_pid(entries, shell_pid) {
        return true;
    }
    match find_programs(entries, shell_pid) {
        Some(_) => true,
        None => false,
    }
}

/// The program that the process tree shows in the foreground of a shell.
pub fn platform_foreground_process(
    shell_pid: Option<u32>,
    snapshot: &PlatformProcessSnapshot,
) -> (r: Option<ForegroundProcess>)
    requires
        shell_pid matches Some(pid) ==> tree_readable(snapshot.entries@, pid),
    ensures
        match tree_program(shell_pid, snapshot.entries@) {
            Some(name) => r matches Some(p) && p.name@ == name && p.argv0 is Some && p.argv0->0@
                == name && p.argv@.len() == 1 && p.argv@[0]@ == name && p.cmdline is None,
            None => r is None,
        },
{
    match shell_pid {
        None => None,
        Some(pid) => match select_windows_process_candidate(pid, &snapshot.entries) {
            None => None,
            Some(entry) => {
                let mut argv: Vec<String> = Vec::new();
                argv.push(entry.name.clone());
                Some(
                    ForegroundProcess {
                        name: entry.name.clone(),
                        argv0: Some(entry.name.clone()),
                        argv: argv,
                        cmdline: None,
                    },
                )
            },
        },
    }
}

/// The name of the program that the process tree shows in the foreground of a
/// shell.
pub open spec fn tree_program(
    shell_pid: Option<u32>,
    entries: Seq<WindowsProcessEntry>,
) -> Option<Seq<char>> {
    match shell_pid {
        None => None,
        Some(pid) => match candidate(entries, pid) {
            Some(i) => Some(entries[i].name@),
            None => None,
        },
    }
}

// ------------------------------------------------- what Windows tells of itself

/// What `String::from_utf8_lossy` makes of bytes.
pub uninterp spec fn utf8_lossy(bytes: Seq<u8>) -> Seq<char>;

/// `String::from_utf8_lossy`: the text of UTF-8 bytes, with replacement characters
/// for what is no UTF-8, which is named `utf8_lossy` here. Of valid UTF-8 it is also
/// claimed that it is decoded as it stands.
#[verifier::external_body]
fn decode_utf8_lossy(bytes: &[u8]) -> (text: String)
    ensures
        text@ == utf8_lossy(bytes@),
        valid_utf8(bytes@) ==> text@ == decode_utf8(bytes@),
{
    String::from_utf8_lossy(bytes).into_owned()
}

/// `char::from_u32`: the character of a code point, `None` for a number that is the
/// code point of no character.
pub assume_specification[ char::from_u32 ](i: u32) -> (c: Option<char>)
    ensures
        c == if i < 0xd800 || 0xdfff < i <= 0x10_ffff {
            Some(i as char)
        } else {
            None
        },
;

/// One process of the list that Windows gives: the name of its file is a row of
/// UTF-16 units that a zero ends.
#[derive(Debug, PartialEq, Eq)]
pub struct ProcessRecord {
    pub pid: u32,
    pub parent_pid: u32,
    pub exe_file: Vec<u16>,
}

/// The first half of a character outside the basic plane.
pub open spec fn is_high(unit: u16) -> bool {
    0xd800 <= unit <= 0xdbff
}

/// The second half of a character outside the basic plane.
pub open spec fn is_low(unit: u16) -> bool {
    0xdc00 <= unit <= 0xdfff
}

/// The text of UTF-16 units, with a replacement character for each half that has
/// no other half beside it.
pub open spec fn decode_utf16(units: Seq<u16>) -> Seq<char>
    decreases units.len(),
{
    if units.len() == 0 {
        seq![]
    } else if !is_high(units[0]) && !is_low(units[0]) {
        seq![units[0] as char] + decode_utf16(units.skip(1))
    } else if is_high(units[0]) && units.len() > 1 && is_low(units[1]) {
        seq![(0x1_0000 + (units[0] - 0xd800) * 0x400 + (units[1] - 0xdc00)) as char]
            + decode_utf16(units.skip(2))
    } else {
        seq!['\u{fffd}'] + decode_utf16(units.skip(1))
    }
}

/// The units before the first zero.
pub open spec fn before_zero(units: Seq<u16>) -> Seq<u16>
    decreases units.len(),
{
    if units.len() == 0 || units[0] == 0 {
        seq![]
    } else {
        seq![units[0]] + before_zero(units.skip(1))
    }
}

/// The text of UTF-16 units up to the first zero.
fn utf16_text(units: &Vec<u16>) -> (text: String)
    ensures
        text@ == decode_utf16(before_zero(units@)),
{
    let mut end: usize = 0;
    assert(units@.skip(0) =~= units@);
    assert(units@.take(0) + before_zero(units@) =~= before_zero(units@));
    while end < units.len() && units[end] != 0
        invariant
            end <= units.len(),
            before_zero(units@) == units@.take(end as int) + before_zero(units@.skip(end as int)),
        decreases units.len() - end,
    {
        assert(units@.skip(end as int).skip(1) =~= units@.skip(end + 1));
        assert(units@.take(end as int) + (seq![units@[end as int]] + before_zero(
            units@.skip(end + 1),
        )) =~= units@.take(end + 1) + before_zero(units@.skip(end + 1)));
        end += 1;
    }
    let ghost name = before_zero(units@);
    assert(name =~= units@.take(end as int));
    let mut text = String::new();
    let mut i: usize = 0;
    assert(name.skip(0) =~= name);
    assert(text@ + decode_utf16(name) =~= decode_utf16(name));
    while i < end
        invariant
            i <= end <= units.len(),
            name == units@.take(end as int),
            decode_utf16(name) == text@ + decode_utf16(name.skip(i as int)),
        decreases end - i,
    {
        let unit: u16 = units[i];
        let ghost before = text@;
        let ghost rest = name.skip(i as int);
        assert(rest[0] == unit);
        assert(rest.skip(1) =~= name.skip(i + 1));
        if unit < 0xd800 || unit > 0xdfff {
            let c = char::from_u32(unit as u32).unwrap();
            text.push(c);
            assert(c == rest[0] as char);
            assert(before + (seq![c] + decode_utf16(name.skip(i + 1))) =~= text@ + decode_utf16(
                name.skip(i + 1),
            ));
            i += 1;
        } else if unit <= 0xdbff && i + 1 < end && units[i + 1] >= 0xdc00 && units[i + 1]
            <= 0xdfff {
            let high: u32 = (unit - 0xd800) as u32;
            let low: u32 = (units[i + 1] - 0xdc00) as u32;
            let c = char::from_u32(0x1_0000 + high * 0x400 + low).unwrap();
            text.push(c);
            assert(rest[1] == units@[i + 1]);
            assert(c == (0x1_0000 + (rest[0] - 0xd800) * 0x400 + (rest[1] - 0xdc00)) as char);
            assert(rest.skip(2) =~= name.skip(i + 2));
            assert(before + (seq![c] + decode_utf16(name.skip(i + 2))) =~= text@ + decode_utf16(
                name.skip(i + 2),
            ));
            i += 2;
        } else {
            text.push('\u{fffd}');
            assert(before + (seq!['\u{fffd}'] + decode_utf16(name.skip(i + 1))) =~= text@
                + decode_utf16(name.skip(i + 1)));
            i += 1;
        }
    }
    assert(text@ + decode_utf16(name.skip(end as int)) =~= text@);
    text
}

/// The list of processes, with their names as text.
pub fn platform_process_snapshot(records: &[ProcessRecord]) -> (snapshot: PlatformProcessSnapshot)
    ensures
        snapshot.entries@.len() == records@.len(),
        forall|i: int|
            0 <= i < records@.len() ==> {
                let entry = #[trigger] snapshot.entries@[i];
                &&& entry.pid == records@[i].pid
                &&& entry.parent_pid == records@[i].parent_pid
                &&& entry.name@ == decode_utf16(before_zero(records@[i].exe_file@))
            },
{
    let mut entries: Vec<WindowsProcessEntry> = Vec::new();
    for i in 0..records.len()
        invariant
            entries@.len() == i,
            forall|j: int|
                0 <= j < i ==> {
                    let entry = #[trigger] entries@[j];
                    &&& entry.pid == records@[j].pid
                    &&& entry.parent_pid == records@[j].parent_pid
                    &&& entry.name@ == decode_utf16(before_zero(records@[j].exe_file@))
                },
    {
        entries.push(
            WindowsProcessEntry {
                pid: records[i].pid,
                parent_pid: records[i].parent_pid,
                name: utf16_text(&records[i].exe_file),
            },
        );
    }
    PlatformProcessSnapshot { entries }
}

/// The process number in a line of the task list: its second field, with or
/// without quotes around it.
pub open spec fn listed_pid(line: Seq<char>) -> Option<nat> {
    let fields = split(line, ',');
    if fields.len() > 1 {
        parse(strip_back(strip_front(trim(fields[1]), '"'), '"'), u32::MAX as nat)
    } else {
        None
    }
}

/// Some line of the task list is about the process.
pub open spec fn lists_pid(text: Seq<char>, pid: u32) -> bool {
    exists|k: int|
        0 <= k < split(text, '\n').len() && listed_pid(#[trigger] split(text, '\n')[k]) == Some(
            pid as nat,
        )
}

/// Whether some line of the task list is about the process. A line may end in a
/// carriage return, which is white space like any other.
pub fn tasklist_text_contains_pid(text: &str, pid: u32) -> (b: bool)
    ensures
        b == lists_pid(text@, pid),
{
    let lines = split_by(text, '\n');
    let ghost all = split(text@, '\n');
    for k in 0..lines.len()
        invariant
            all == split(text@, '\n'),
            lines@.map_values(|p: String| p@) == all,
            forall|j: int| 0 <= j < k ==> listed_pid(#[trigger] all[j]) != Some(pid as nat),
    {
        assert(all[k as int] == lines@[k as int]@);
        let fields = split_by(lines[k].as_str(), ',');
        assert(split(all[k as int], ',').len() == fields.len());
        if fields.len() > 1 {
            assert(split(all[k as int], ',')[1] == fields@[1]@);
            let value = stripped(trimmed(fields[1].as_str()), '"');
            match parse_u32(value) {
                Some(n) => {
                    if n == pid {
                        return true;
                    }
                },
                None => {},
            }
        }
    }
    false
}

/// Whether the output of the task list is about the process.
pub fn tasklist_contains_pid(output: &[u8], pid: u32) -> (b: bool)
    ensures
        b == lists_pid(utf8_lossy(output@), pid),
{
    let text = decode_utf8_lossy(output);
    tasklist_text_contains_pid(text.as_str(), pid)
}

// ---------------------------------------------------------------------- laws

/// `pid` is the shell, or a process that is passed through and whose parent is so
/// too, in `n` steps at most.
pub open spec fn passed_in(
    entries: Seq<WindowsProcessEntry>,
    shell_pid: u32,
    pid: u32,
    n: nat,
) -> bool
    decreases n,
{
    pid == shell_pid || (n > 0 && exists|i: int|
        0 <= i < entries.len() && (#[trigger] entries[i]).pid == pid && is_transparent(
            entries[i].name@,
        ) && passed_in(entries, shell_pid, entries[i].parent_pid, (n - 1) as nat))
}

/// `pid` is the shell, or a descendant of it with nothing but processes that are
/// passed through on the way, itself one of them.
pub open spec fn passed(entries: Seq<WindowsProcessEntry>, shell_pid: u32, pid: u32) -> bool {
    exists|n: nat| passed_in(entries, shell_pid, pid, n)
}

/// The entry at place `i` is the first program on its branch below the shell.
pub open spec fn is_first_program(
    entries: Seq<WindowsProcessEntry>,
    shell_pid: u32,
    i: int,
) -> bool {
    &&& 0 <= i < entries.len()
    &&& entries[i].pid != shell_pid
    &&& !is_transparent(entries[i].name@)
    &&& passed(entries, shell_pid, entries[i].parent_pid)
}

/// No two processes have the same number.
pub open spec fn distinct_pids(entries: Seq<WindowsProcessEntry>) -> bool {
    forall|i: int, j: int|
        0 <= i < entries.len() && 0 <= j < entries.len() && i != j ==> (#[trigger] entries[i]).pid
            != (#[trigger] entries[j]).pid
}

spec fn sound(entries: Seq<WindowsProcessEntry>, shell_pid: u32, w: Walk) -> bool {
    &&& w.visited.contains(shell_pid)
    &&& forall|k: int|
        0 <= k < w.pending.len() ==> passed(entries, shell_pid, #[trigger] w.pending[k])
    &&& forall|k: int|
        0 <= k < w.found.len() ==> is_first_program(entries, shell_pid, #[trigger] w.found[k])
}

proof fn lemma_children_sound(
    entries: Seq<WindowsProcessEntry>,
    shell_pid: u32,
    parent: u32,
    n: nat,
    w: Walk,
)
    requires
        n <= entries.len(),
        sound(entries, shell_pid, w),
        passed(entries, shell_pid, parent),
    ensures
        sound(entries, shell_pid, meet_children(entries, parent, n, w)),
    decreases n,
{
    if n > 0 {
        lemma_children_sound(entries, shell_pid, parent, (n - 1) as nat, w);
        let entry = entries[n - 1];
        if entry.parent_pid == parent && is_transparent(entry.name@) {
            let m = choose|m: nat| passed_in(entries, shell_pid, parent, m);
            assert(passed_in(entries, shell_pid, entry.pid, m + 1));
        }
    }
}

proof fn lemma_walk_sound(entries: Seq<WindowsProcessEntry>, shell_pid: u32, w: Walk)
    requires
        sound(entries, shell_pid, w),
    ensures
        sound(entries, shell_pid, walk(entries, w)),
    decreases unmet(entries, w.visited) + w.pending.len(),
{
    if w.pending.len() > 0 {
        let taken = Walk { pending: w.pending.drop_last(), ..w };
        assert(passed(entries, shell_pid, w.pending[w.pending.len() - 1]));
        assert forall|k: int| 0 <= k < taken.pending.len() implies passed(
            entries,
            shell_pid,
            #[trigger] taken.pending[k],
        ) by {
            assert(taken.pending[k] == w.pending[k]);
        }
        lemma_children_sound(entries, shell_pid, w.pending.last(), entries.len(), taken);
        lemma_children_shrink(entries, w.pending.last(), entries.len(), taken);
        lemma_walk_sound(entries, shell_pid, advance(entries, w));
    }
}

/// Children of `pid` are looked for.
spec fn opens(entries: Seq<WindowsProcessEntry>, shell_pid: u32, pid: u32) -> bool {
    pid == shell_pid || exists|i: int|
        0 <= i < entries.len() && (#[trigger] entries[i]).pid == pid && is_transparent(
            entries[i].name@,
        )
}

/// The first `n` entries that are children of `pid` were met.
spec fn closed_to(entries: Seq<WindowsProcessEntry>, pid: u32, visited: Set<u32>, n: nat) -> bool {
    forall|j: int|
        0 <= j < n && (#[trigger] entries[j]).parent_pid == pid ==> visited.contains(entries[j].pid)
}

/// Nothing was missed but what is pending, and but for the children of `parent`
/// behind the first `n` entries.
spec fn complete(
    entries: Seq<WindowsProcessEntry>,
    shell_pid: u32,
    parent: Option<u32>,
    n: nat,
    w: Walk,
) -> bool {
    &&& w.visited.contains(shell_pid)
    &&& forall|i: int|
        0 <= i < entries.len() && w.visited.contains((#[trigger] entries[i]).pid) && entries[i].pid
            != shell_pid && !is_transparent(entries[i].name@) ==> w.found.contains(i)
    &&& forall|v: u32| #[trigger]
        w.visited.contains(v) && opens(entries, shell_pid, v) ==> w.pending.contains(v)
            || closed_to(entries, v, w.visited, entries.len()) || Some(v) == parent
    &&& parent matches Some(p) ==> closed_to(entries, p, w.visited, n)
}

proof fn lemma_meet_complete(
    entries: Seq<WindowsProcessEntry>,
    shell_pid: u32,
    parent: u32,
    n: nat,
    w: Walk,
)
    requires
        n < entries.len(),
        distinct_pids(entries),
        complete(entries, shell_pid, Some(parent), n, w),
        entries[n as int].parent_pid == parent,
    ensures
        complete(entries, shell_pid, Some(parent), n + 1, meet(entries, n as int, w)),
{
    let entry = entries[n as int];
    let after = meet(entries, n as int, w);
    if !w.visited.contains(entry.pid) {
        assert forall|i: int|
            0 <= i < entries.len() && after.visited.contains((#[trigger] entries[i]).pid)
                && entries[i].pid != shell_pid && !is_transparent(
                entries[i].name@,
            ) implies after.found.contains(i) by {
            if i == n {
                assert(after.found[after.found.len() - 1] == n);
            } else {
                assert(entries[i].pid != entry.pid);
                assert(w.found.contains(i));
                let k = choose|k: int| 0 <= k < w.found.len() && w.found[k] == i;
                assert(after.found[k] == i);
            }
        }
        assert forall|v: u32| #[trigger]
            after.visited.contains(v) && opens(entries, shell_pid, v) implies
            after.pending.contains(v) || closed_to(entries, v, after.visited, entries.len())
            || Some(v) == Some(parent) by {
            if v == entry.pid {
                if is_transparent(entry.name@) {
                    assert(after.pending[after.pending.len() - 1] == v);
                } else {
                    assert(v != shell_pid);
                    let i = choose|i: int|
                        0 <= i < entries.len() && (#[trigger] entries[i]).pid == v
                            && is_transparent(entries[i].name@);
                    assert(entries[i].pid == entries[n as int].pid);
                }
            } else {
                assert(w.visited.contains(v));
                if w.pending.contains(v) {
                    let k = choose|k: int| 0 <= k < w.pending.len() && w.pending[k] == v;
                    assert(after.pending[k] == v);
                }
            }
        }
    }
}

proof fn lemma_children_complete(
    entries: Seq<WindowsProcessEntry>,
    shell_pid: u32,
    parent: u32,
    n: nat,
    w: Walk,
)
    requires
        n <= entries.len(),
        distinct_pids(entries),
        complete(entries, shell_pid, Some(parent), 0, w),
    ensures
        complete(entries, shell_pid, Some(parent), n, meet_children(entries, parent, n, w)),
    decreases n,
{
    if n > 0 {
        lemma_children_complete(entries, shell_pid, parent, (n - 1) as nat, w);
        if entries[n - 1].parent_pid == parent {
            lemma_meet_complete(
                entries,
                shell_pid,
                parent,
                (n - 1) as nat,
                meet_children(entries, parent, (n - 1) as nat, w),
            );
        }
    }
}

proof fn lemma_walk_complete(entries: Seq<WindowsProcessEntry>, shell_pid: u32, w: Walk)
    requires
        distinct_pids(entries),
        complete(entries, shell_pid, None, 0, w),
    ensures
        complete(entries, shell_pid, None, 0, walk(entries, w)),
        walk(entries, w).pending.len() == 0,
    decreases unmet(entries, w.visited) + w.pending.len(),
{
    if w.pending.len() > 0 {
        let parent = w.pending.last();
        let taken = Walk { pending: w.pending.drop_last(), ..w };
        assert forall|v: u32| #[trigger]
            taken.visited.contains(v) && opens(entries, shell_pid, v) implies
            taken.pending.contains(v) || closed_to(entries, v, taken.visited, entries.len())
            || Some(v) == Some(parent) by {
            assert(w.visited.contains(v));
            if w.pending.contains(v) && v != parent {
                let k = choose|k: int| 0 <= k < w.pending.len() && w.pending[k] == v;
                assert(taken.pending[k] == v);
            }
        }
        lemma_children_complete(entries, shell_pid, parent, entries.len(), taken);
        lemma_children_shrink(entries, parent, entries.len(), taken);
        lemma_walk_complete(entries, shell_pid, advance(entries, w));
    }
}

proof fn lemma_passed_is_met(
    entries: Seq<WindowsProcessEntry>,
    shell_pid: u32,
    pid: u32,
    n: nat,
    w: Walk,
)
    requires
        complete(entries, shell_pid, None, 0, w),
        w.pending.len() == 0,
        passed_in(entries, shell_pid, pid, n),
    ensures
        w.visited.contains(pid),
        opens(entries, shell_pid, pid),
    decreases n,
{
    if pid != shell_pid {
        let i = choose|i: int|
            0 <= i < entries.len() && (#[trigger] entries[i]).pid == pid && is_transparent(
                entries[i].name@,
            ) && passed_in(entries, shell_pid, entries[i].parent_pid, (n - 1) as nat);
        lemma_passed_is_met(entries, shell_pid, entries[i].parent_pid, (n - 1) as nat, w);
        assert(closed_to(entries, entries[i].parent_pid, w.visited, entries.len()));
    }
}

/// Every program that is found is the first program on its branch below the
/// shell: a descendant that is reached through shells and wrappers only.
pub proof fn law_found_programs_are_first(entries: Seq<WindowsProcessEntry>, shell_pid: u32)
    ensures
        forall|k: int|
            0 <= k < programs(entries, shell_pid).len() ==> is_first_program(
                entries,
                shell_pid,
                #[trigger] programs(entries, shell_pid)[k],
            ),
{
    assert(passed_in(entries, shell_pid, shell_pid, 0));
    lemma_walk_sound(entries, shell_pid, start(shell_pid));
}

/// Where no two processes have the same number, the first program of every branch
/// below the shell is found.
pub proof fn law_first_programs_are_found(
    entries: Seq<WindowsProcessEntry>,
    shell_pid: u32,
    i: int,
)
    requires
        distinct_pids(entries),
        is_first_program(entries, shell_pid, i),
    ensures
        programs(entries, shell_pid).contains(i),
{
    let w = start(shell_pid);
    assert(w.pending[0] == shell_pid);
    assert(complete(entries, shell_pid, None, 0, w));
    lemma_walk_complete(entries, shell_pid, w);
    let end = walk(entries, w);
    let parent = entries[i].parent_pid;
    let n = choose|n: nat| passed_in(entries, shell_pid, parent, n);
    lemma_passed_is_met(entries, shell_pid, parent, n, end);
    assert(closed_to(entries, parent, end.visited, entries.len()));
}

/// Where no two processes have the same number, a program is chosen if and only if
/// the shell is running, some branch below it leads to a program, and the first
/// programs of all branches are the same one; and it is the first of a branch.
pub proof fn law_candidate_is_the_only_program(
    entries: Seq<WindowsProcessEntry>,
    shell_pid: u32,
)
    requires
        distinct_pids(entries),
    ensures
        candidate(entries, shell_pid) is Some <==> {
            &&& is_running(entries, shell_pid)
            &&& exists|i: int| is_first_program(entries, shell_pid, i)
            &&& forall|i: int, j: int|
                #![trigger is_first_program(entries, shell_pid, i), is_first_program(entries, shell_pid, j)]
                is_first_program(entries, shell_pid, i) && is_first_program(entries, shell_pid, j)
                    ==> normal_name(entries[i].name@) == normal_name(entries[j].name@)
        },
        candidate(entries, shell_pid) matches Some(i) ==> is_first_program(entries, shell_pid, i),
{
    let found = programs(entries, shell_pid);
    law_found_programs_are_first(entries, shell_pid);
    if candidate(entries, shell_pid) is Some {
        assert(is_first_program(entries, shell_pid, found[0]));
        assert forall|i: int, j: int|
            #![trigger is_first_program(entries, shell_pid, i), is_first_program(entries, shell_pid, j)]
            is_first_program(entries, shell_pid, i) && is_first_program(
                entries,
                shell_pid,
                j,
            ) implies normal_name(entries[i].name@) == normal_name(entries[j].name@) by {
            law_first_programs_are_found(entries, shell_pid, i);
            law_first_programs_are_found(entries, shell_pid, j);
        }
    } else if is_running(entries, shell_pid) && (exists|i: int|
        is_first_program(entries, shell_pid, i)) {
        let i = choose|i: int| is_first_program(entries, shell_pid, i);
        law_first_programs_are_found(entries, shell_pid, i);
        let k = choose|k: int|
            0 <= k < found.len() && normal_name(entries[#[trigger] found[k]].name@) != normal_name(
                entries[found[0]].name@,
            );
        assert(is_first_program(entries, shell_pid, found[k]));
        assert(is_first_program(entries, shell_pid, found[0]));
    }
}

/// The processes that are passed through are the shells, the bridge that runs beside
/// programs, and the five wrappers that only start others.
pub proof fn law_wrappers_are_known_by_name(name: Seq<char>)
    ensures
        ({
            let label = without_exe(basename_or(name, name), true);
            let program = lowercase(bare_name(label));
            let wrappers = seq![
                "conhost"@,
                "openconsole"@,
                "winpty"@,
                "winpty-agent"@,
                "env"@,
            ];
            is_transparent(name) <==> shells().contains(program) || program == "exec_bridge"@
                || wrappers.contains(normal_name(name))
        }),
{
    let label = without_exe(basename_or(name, name), true);
    lemma_shells(lowercase(bare_name(label)));
    let wrappers = seq!["conhost"@, "openconsole"@, "winpty"@, "winpty-agent"@, "env"@];
    assert(wrappers[0] == "conhost"@);
    assert(wrappers[1] == "openconsole"@);
    assert(wrappers[2] == "winpty"@);
    assert(wrappers[3] == "winpty-agent"@);
    assert(wrappers[4] == "env"@);
    if wrappers.contains(normal_name(name)) {
        let i = choose|i: int| 0 <= i < wrappers.len() && wrappers[i] == normal_name(name);
        assert(wrappers[i] == normal_name(name));
    }
}

/// Programs are told apart by the names of their files, without directories, case and
/// one suffix of an executable.
pub proof fn law_programs_are_told_apart_by_their_files(
    directory: Seq<char>,
    separator: char,
    name: Seq<char>,
    suffix: Seq<char>,
)
    requires
        separator == '/' || separator == '\\',
        is_name(name),
        is_name(suffix),
        !is_space(name[0]),
        !is_space(name.last()),
        lower_all(suffix) == ".exe"@ || lower_all(suffix) == ".cmd"@ || lower_all(suffix)
            == ".bat"@,
        !".exe"@.is_suffix_of(lower_all(name)),
        !".cmd"@.is_suffix_of(lower_all(name)),
        !".bat"@.is_suffix_of(lower_all(name)),
    ensures
        normal_name(name) == lower_all(name),
        normal_name(directory.push(separator) + name) == lower_all(name),
        normal_name(name + suffix) == lower_all(name),
        normal_name(directory.push(separator) + (name + suffix)) == lower_all(name),
{
    reveal_strlit(".exe");
    reveal_strlit(".cmd");
    reveal_strlit(".bat");
    let whole = name + suffix;
    let small = lower_all(name);
    assert(lower_all(suffix).len() == suffix.len());
    assert(is_name(whole)) by {
        assert forall|i: int| 0 <= i < whole.len() implies #[trigger] whole[i] != '/' && whole[i]
            != '\\' by {
            if i < name.len() {
                assert(whole[i] == name[i]);
            } else {
                assert(whole[i] == suffix[i - name.len()]);
            }
        }
    }
    law_paths_are_cut_at_separators(directory, separator, name);
    law_paths_are_cut_at_separators(directory, separator, whole);
    assert(components(directory).push(name).last() == name);
    assert(components(directory).push(whole).last() == whole);
    assert(seq![name].last() == name);
    assert(seq![whole].last() == whole);
    let none = Seq::<char>::empty();
    assert(none + name + none =~= name);
    assert(none + whole + none =~= whole);
    law_trimming_takes_white_space_off(none, name, none);
    assert(!is_space(whole[0]));
    assert(!is_space(whole.last())) by {
        assert(whole.last() == suffix[3]);
        assert(lower_all(suffix)[3] == lower(suffix[3]));
        assert(is_space(suffix[3]) ==> lower(suffix[3]) == suffix[3]);
    }
    law_trimming_takes_white_space_off(none, whole, none);
    assert(lower_all(whole) =~= small + lower_all(suffix));
    lemma_ends(small, lower_all(suffix), ".exe"@);
    lemma_ends(small, lower_all(suffix), ".cmd"@);
    lemma_ends(small, lower_all(suffix), ".bat"@);
    assert((small + lower_all(suffix)).take(small.len() as int) =~= small);
}

proof fn lemma_ends(front: Seq<char>, end: Seq<char>, suffix: Seq<char>)
    requires
        end.len() == suffix.len(),
    ensures
        suffix.is_suffix_of(front + end) <==> suffix == end,
{
    let whole = front + end;
    assert(whole.skip(whole.len() - suffix.len()) =~= end);
    assert(whole.subrange(whole.len() - suffix.len(), whole.len() as int) =~= end);
}

/// The UTF-16 units of a character.
pub open spec fn units_of(c: char) -> Seq<u16> {
    let n = c as u32;
    if n < 0x1_0000 {
        seq![n as u16]
    } else {
        let rest = n - 0x1_0000;
        seq![(0xd800 + rest / 0x400) as u16, (0xdc00 + rest % 0x400) as u16]
    }
}

/// The characters of a name are read from their UTF-16 units, one after the other.
pub proof fn law_names_are_read_from_their_units(c: char, rest: Seq<u16>)
    ensures
        decode_utf16(seq![]) == Seq::<char>::empty(),
        decode_utf16(units_of(c) + rest) == seq![c] + decode_utf16(rest),
{
    let n = c as u32;
    let units = units_of(c) + rest;
    if n < 0x1_0000 {
        assert(units.skip(1) =~= rest);
        assert(units[0] == n as u16);
        assert(units[0] as char == c);
    } else {
        assert(units.skip(2) =~= rest);
        let more = n - 0x1_0000;
        assert(more / 0x400 < 0x400);
        assert(more == (more / 0x400) * 0x400 + more % 0x400);
        assert(units[0] == 0xd800 + more / 0x400);
        assert(units[1] == 0xdc00 + more % 0x400);
        assert((0x1_0000 + (units[0] - 0xd800) * 0x400 + (units[1] - 0xdc00)) == n);
    }
}

/// Half a character alone is shown as a replacement character.
pub proof fn law_half_characters_are_replaced(unit: u16, rest: Seq<u16>)
    requires
        0xd800 <= unit <= 0xdfff,
        unit >= 0xdc00 || rest.len() == 0 || !(0xdc00 <= rest[0] <= 0xdfff),
    ensures
        decode_utf16(seq![unit] + rest) == seq!['\u{fffd}'] + decode_utf16(rest),
{
    let units = seq![unit] + rest;
    assert(units.skip(1) =~= rest);
    if rest.len() > 0 {
        assert(units[1] == rest[0]);
    }
}

/// A name ends before the first zero.
pub proof fn law_names_end_before_the_first_zero(name: Seq<u16>, rest: Seq<u16>)
    requires
        forall|i: int| 0 <= i < name.len() ==> #[trigger] name[i] != 0,
    ensures
        before_zero(name) == name,
        before_zero(name.push(0) + rest) == name,
    decreases name.len(),
{
    let whole = name.push(0) + rest;
    if name.len() == 0 {
        assert(whole[0] == 0);
        assert(before_zero(name) =~= name);
        assert(before_zero(whole) =~= name);
    } else {
        let shorter = name.skip(1);
        assert(name[0] != 0);
        assert(whole[0] == name[0]);
        assert forall|i: int| 0 <= i < shorter.len() implies #[trigger] shorter[i] != 0 by {
            assert(name[i + 1] != 0);
        }
        law_names_end_before_the_first_zero(shorter, rest);
        assert(whole.skip(1) =~= shorter.push(0) + rest);
        assert(seq![name[0]] + shorter =~= name);
    }
}

proof fn lemma_split_goes_on(s: Seq<char>, separator: char, rest: Seq<char>)
    ensures
        split(s, separator).len() >= 1,
        split(s.push(separator) + rest, separator).len() > split(s, separator).len(),
        split(s.push(separator) + rest, separator).take(split(s, separator).len() as int) == split(
            s,
            separator,
        ),
    decreases rest.len(),
{
    lemma_split_has_parts(s, separator);
    let whole = s.push(separator) + rest;
    let n = split(s, separator).len() as int;
    if rest.len() == 0 {
        assert(whole =~= s.push(separator));
        assert(whole.drop_last() =~= s);
        assert(split(whole, separator).take(n) =~= split(s, separator));
    } else {
        let shorter = rest.drop_last();
        lemma_split_goes_on(s, separator, shorter);
        assert(whole.drop_last() =~= s.push(separator) + shorter);
        let before = split(s.push(separator) + shorter, separator);
        assert(split(whole, separator).take(n) =~= before.take(n));
    }
}

proof fn lemma_split_has_parts(s: Seq<char>, separator: char)
    ensures
        split(s, separator).len() >= 1,
    decreases s.len(),
{
    if s.len() > 0 {
        lemma_split_has_parts(s.drop_last(), separator);
    }
}

/// A line of the task list is about the process whose number is its second field, with
/// quotes around it or without; a line of one field is about none.
pub proof fn law_task_lines_name_their_processes(image: Seq<char>, pid: u32, rest: Seq<char>)
    requires
        forall|i: int| 0 <= i < image.len() ==> #[trigger] image[i] != ',',
    ensures
        listed_pid(image) is None,
        ({
            let number = decimal(pid as nat);
            let quoted = seq!['"'] + number + seq!['"'];
            &&& listed_pid(image.push(',') + number) == Some(pid as nat)
            &&& listed_pid(image.push(',') + quoted) == Some(pid as nat)
            &&& listed_pid((image.push(',') + quoted).push(',') + rest) == Some(pid as nat)
        }),
{
    let number = decimal(pid as nat);
    let quoted = seq!['"'] + number + seq!['"'];
    lemma_decimal_denotes(pid as nat);
    lemma_decimal_is_read_back(pid as nat, u32::MAX as nat);
    assert forall|i: int| 0 <= i < number.len() implies #[trigger] number[i] != ',' && number[i]
        != '"' && !is_space(number[i]) by {
        assert(is_digit(number[i]));
    }
    assert forall|i: int| 0 <= i < quoted.len() implies #[trigger] quoted[i] != ',' by {
        if 0 < i < quoted.len() - 1 {
            assert(quoted[i] == number[i - 1]);
        }
    }
    law_splitting_cuts_at_the_separators(image, image, ',');
    law_splitting_cuts_at_the_separators(image, number, ',');
    law_splitting_cuts_at_the_separators(image, quoted, ',');
    assert(split(image, ',') == seq![image]);
    let fields = seq![image].push(quoted);
    assert(fields[1] == quoted);
    assert(seq![image].push(number)[1] == number);
    lemma_split_goes_on(image.push(',') + quoted, ',', rest);
    let more = split((image.push(',') + quoted).push(',') + rest, ',');
    assert(more.take(2)[1] == more[1]);
    let none = Seq::<char>::empty();
    assert(none + number + none =~= number);
    assert(none + quoted + none =~= quoted);
    assert(number.last() == number[number.len() - 1]);
    law_trimming_takes_white_space_off(none, number, none);
    law_trimming_takes_white_space_off(none, quoted, none);
    assert(number[0] != '"');
    law_ends_are_stripped(number, '"');
    let end = number.push('"');
    assert(quoted =~= seq!['"'] + end);
    law_ends_are_stripped(end, '"');
    assert(end[0] == number[0]);
    assert(strip_front(quoted, '"') == end);
    assert(strip_back(end, '"') == number);
}

/// The task list is about a process where one of its lines is, whichever.
pub proof fn law_task_list_is_read_line_by_line(before: Seq<char>, line: Seq<char>, pid: u32)
    requires
        forall|i: int| 0 <= i < line.len() ==> #[trigger] line[i] != '\n',
    ensures
        lists_pid(line, pid) <==> listed_pid(line) == Some(pid as nat),
        lists_pid(before.push('\n') + line, pid) <==> lists_pid(before, pid) || listed_pid(line)
            == Some(pid as nat),
{
    law_splitting_cuts_at_the_separators(before, line, '\n');
    let alone = split(line, '\n');
    assert(alone[0] == line);
    let lines = split(before, '\n');
    let more = split(before.push('\n') + line, '\n');
    assert(more == lines.push(line));
    if lists_pid(before, pid) {
        let k = choose|k: int|
            0 <= k < lines.len() && listed_pid(#[trigger] lines[k]) == Some(pid as nat);
        assert(more[k] == lines[k]);
    }
    assert(more[lines.len() as int] == line);
    if lists_pid(before.push('\n') + line, pid) {
        let k = choose|k: int|
            0 <= k < more.len() && listed_pid(#[trigger] more[k]) == Some(pid as nat);
        if k < lines.len() {
            assert(more[k] == lines[k]);
        }
    }
}

/// The entry at place `i` is a program that the shell itself has started.
pub open spec fn is_child_program(
    entries: Seq<WindowsProcessEntry>,
    shell_pid: u32,
    i: int,
) -> bool {
    &&& 0 <= i < entries.len()
    &&& entries[i].parent_pid == shell_pid
    &&& entries[i].pid != shell_pid
    &&& !is_transparent(entries[i].name@)
}

proof fn lemma_first_found_stays(entries: Seq<WindowsProcessEntry>, parent: u32, n: nat, w: Walk)
    requires
        n <= entries.len(),
    ensures
        ({
            let r = meet_children(entries, parent, n, w);
            r.found.len() >= w.found.len() && (w.found.len() > 0 ==> r.found[0] == w.found[0])
        }),
    decreases n,
{
    if n > 0 {
        lemma_first_found_stays(entries, parent, (n - 1) as nat, w);
    }
}

proof fn lemma_first_found_stays_to_the_end(entries: Seq<WindowsProcessEntry>, w: Walk)
    requires
        w.found.len() > 0,
    ensures
        walk(entries, w).found.len() > 0,
        walk(entries, w).found[0] == w.found[0],
    decreases unmet(entries, w.visited) + w.pending.len(),
{
    if w.pending.len() > 0 {
        let popped = Walk { pending: w.pending.drop_last(), ..w };
        lemma_children_shrink(entries, w.pending.last(), entries.len(), popped);
        lemma_first_found_stays(entries, w.pending.last(), entries.len(), popped);
        lemma_first_found_stays_to_the_end(entries, advance(entries, w));
    }
}

proof fn lemma_first_child_is_found_first(
    entries: Seq<WindowsProcessEntry>,
    shell_pid: u32,
    n: nat,
    w: Walk,
)
    requires
        distinct_pids(entries),
        n <= entries.len(),
        w.found.len() == 0,
        w.visited == set![shell_pid],
    ensures
        ({
            let r = meet_children(entries, shell_pid, n, w);
            &&& r.visited.contains(shell_pid)
            &&& forall|pid: u32| #[trigger]
                r.visited.contains(pid) ==> pid == shell_pid || exists|j: int|
                    0 <= j < n && (#[trigger] entries[j]).pid == pid
            &&& r.found.len() == 0 ==> forall|i: int|
                0 <= i < n ==> !#[trigger] is_child_program(entries, shell_pid, i)
            &&& r.found.len() > 0 ==> is_child_program(entries, shell_pid, r.found[0])
                && r.found[0] < n && forall|i: int|
                0 <= i < n && #[trigger] is_child_program(entries, shell_pid, i) ==> r.found[0] <= i
        }),
    decreases n,
{
    if n > 0 {
        let m = (n - 1) as nat;
        lemma_first_child_is_found_first(entries, shell_pid, m, w);
        let before = meet_children(entries, shell_pid, m, w);
        let r = meet_children(entries, shell_pid, n, w);
        let entry = entries[n - 1];
        if before.visited.contains(entry.pid) && entry.pid != shell_pid {
            let j = choose|j: int| 0 <= j < m && (#[trigger] entries[j]).pid == entry.pid;
            assert(entries[j].pid != entries[n - 1].pid);
        }
        assert forall|pid: u32| #[trigger] r.visited.contains(pid) implies pid == shell_pid
            || exists|j: int| 0 <= j < n && (#[trigger] entries[j]).pid == pid by {
            if before.visited.contains(pid) {
                if pid != shell_pid {
                    let j = choose|j: int| 0 <= j < m && (#[trigger] entries[j]).pid == pid;
                    assert(entries[j].pid == pid);
                }
            } else {
                assert(entries[n - 1].pid == pid);
            }
        }
        let child = is_child_program(entries, shell_pid, n - 1);
        assert(child ==> r.found == before.found.push(n - 1));
        assert(!child ==> r.found == before.found);
        if r.found.len() > 0 {
            assert forall|i: int|
                0 <= i < n && #[trigger] is_child_program(entries, shell_pid, i) implies r.found[0]
                <= i by {
                if before.found.len() == 0 {
                    assert(r.found[0] == n - 1);
                    assert(i < m ==> !is_child_program(entries, shell_pid, i));
                } else {
                    assert(r.found[0] == before.found[0]);
                    assert(before.found[0] < m);
                }
            }
        }
    }
}

/// Where the shell itself has started programs, and they are the same, the one that is
/// listed first is the program in the foreground.
pub proof fn law_first_child_of_the_shell_is_chosen(
    entries: Seq<WindowsProcessEntry>,
    shell_pid: u32,
    i: int,
)
    requires
        distinct_pids(entries),
        is_child_program(entries, shell_pid, i),
    ensures
        candidate(entries, shell_pid) matches Some(k) ==> k <= i && is_child_program(
            entries,
            shell_pid,
            k,
        ),
{
    let first = start(shell_pid);
    let popped = Walk { pending: first.pending.drop_last(), ..first };
    assert(first.pending.last() == shell_pid);
    lemma_first_child_is_found_first(entries, shell_pid, entries.len(), popped);
    let next = advance(entries, first);
    assert(next.found.len() > 0);
    lemma_first_found_stays_to_the_end(entries, next);
    lemma_children_shrink(entries, first.pending.last(), entries.len(), popped);
    assert(walk(entries, first) == walk(entries, next));
}

} // verus!
