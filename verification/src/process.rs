//! Processes in the foreground of a pane: their labels, which of them are shells,
//! and which one gives its name to the tab.
use crate::directory::{
    components, is_name, law_paths_are_cut_at_separators, path_components, views,
};
use crate::text::{
    ascii_only, char_width, code, is_blank_text, is_space, law_suffixes_are_stripped,
    law_trimming_takes_white_space_off, lower_all, lowercase, same_text, splits_before, str_of,
    strip_all, stripped_of, text_of, to_ascii_lowercase, to_chars, to_lowercase, trim, trimmed,
};
use vstd::prelude::*;
use vstd::string::StrSliceExecFns;

verus! {

/// A process in the foreground of a pane.
#[derive(Debug, Clone, PartialEq, Eq)]
pub struct ForegroundProcess {
    pub name: String,
    pub argv0: Option<String>,
    pub argv: Vec<String>,
    pub cmdline: Option<String>,
}

/// What is known of the processes of a pane.
#[derive(Debug, Clone, PartialEq, Eq)]
pub struct PaneProcessInfo {
    pub shell_pid: Option<u32>,
    pub processes: Vec<ForegroundProcess>,
}

/// `ForegroundProcess`, with its strings as sequences.
#[verifier::ext_equal]
pub struct ProcessView {
    pub name: Seq<char>,
    pub argv0: Option<Seq<char>>,
    pub argv: Seq<Seq<char>>,
    pub cmdline: Option<Seq<char>>,
}

impl View for ForegroundProcess {
    type V = ProcessView;

    open spec fn view(&self) -> ProcessView {
        ProcessView {
            name: self.name@,
            argv0: text_of(self.argv0),
            argv: views(self.argv@),
            cmdline: text_of(self.cmdline),
        }
    }
}

/// `PaneProcessInfo`, with its strings as sequences.
#[verifier::ext_equal]
pub struct ProcessInfoView {
    pub shell_pid: Option<u32>,
    pub processes: Seq<ProcessView>,
}

impl View for PaneProcessInfo {
    type V = ProcessInfoView;

    open spec fn view(&self) -> ProcessInfoView {
        ProcessInfoView {
            shell_pid: self.shell_pid,
            processes: self.processes@.map_values(|p: ForegroundProcess| p@),
        }
    }
}

/// What a process was started as.
pub open spec fn executable(process: ForegroundProcess) -> Seq<char> {
    match process.argv0 {
        Some(argv0) => argv0@,
        None => if process.argv@.len() > 0 {
            process.argv@[0]@
        } else {
            process.name@
        },
    }
}

/// The last component of a path, or `other` where it has none.
pub open spec fn basename_or(path: Seq<char>, other: Seq<char>) -> Seq<char> {
    if components(path).len() > 0 {
        components(path).last()
    } else {
        other
    }
}

/// `label` without the suffix of executable files, on Windows and in any case.
pub open spec fn without_exe(label: Seq<char>, is_windows: bool) -> Seq<char> {
    if is_windows && label.len() >= 4 && lower_all(label.skip(label.len() - 4)) == ".exe"@ {
        label.take(label.len() - 4)
    } else {
        label
    }
}

/// The last four bytes of `label` can be looked at, where that is done: they do
/// not start in the middle of a character.
pub open spec fn exe_readable(label: Seq<char>, is_windows: bool) -> bool {
    is_windows ==> splits_before(label, 4)
}

/// The name of the file that a process runs.
pub open spec fn file_name(process: ForegroundProcess) -> Seq<char> {
    basename_or(executable(process), process.name@)
}

/// The label of a process.
pub open spec fn label(process: ForegroundProcess, is_windows: bool) -> Seq<char> {
    without_exe(file_name(process), is_windows)
}

/// The label of a process can be read.
pub open spec fn readable(process: ForegroundProcess, is_windows: bool) -> bool {
    exe_readable(file_name(process), is_windows)
}

/// The labels of all processes can be read.
pub open spec fn all_readable(processes: Seq<ForegroundProcess>, is_windows: bool) -> bool {
    forall|i: int| 0 <= i < processes.len() ==> readable(#[trigger] processes[i], is_windows)
}

/// The name of a program by its label, without the suffixes of executables.
pub open spec fn bare_name(label: Seq<char>) -> Seq<char> {
    strip_all(strip_all(strip_all(trim(label), ".exe"@), ".cmd"@), ".bat"@)
}

/// The names of the shells.
pub open spec fn names_shell(name: Seq<char>) -> bool {
    ||| name == "sh"@
    ||| name == "bash"@
    ||| name == "zsh"@
    ||| name == "fish"@
    ||| name == "dash"@
    ||| name == "ksh"@
    ||| name == "mksh"@
    ||| name == "nu"@
    ||| name == "elvish"@
    ||| name == "xonsh"@
    ||| name == "pwsh"@
    ||| name == "powershell"@
    ||| name == "cmd"@
}

/// The names of helpers that run beside a program.
pub open spec fn names_helper(name: Seq<char>) -> bool {
    name == "exec_bridge"@
}

/// The label of a shell.
pub open spec fn labels_shell(label: Seq<char>) -> bool {
    names_shell(lowercase(bare_name(label)))
}

/// The label of a helper.
pub open spec fn labels_helper(label: Seq<char>) -> bool {
    names_helper(lowercase(bare_name(label)))
}

/// A shell.
pub open spec fn is_shell(process: ForegroundProcess, is_windows: bool) -> bool {
    labels_shell(label(process, is_windows))
}

/// A helper that runs beside a program.
pub open spec fn is_helper(process: ForegroundProcess, is_windows: bool) -> bool {
    labels_helper(label(process, is_windows))
}

/// How well a process stands for its pane: better if it was started under another
/// name than its own.
pub open spec fn score(process: ForegroundProcess, is_windows: bool) -> u8 {
    if lowercase(label(process, is_windows)) == lowercase(process.name@) {
        2
    } else {
        3
    }
}

/// The two kinds of processes that are looked for.
pub enum Kind {
    /// A program: neither a shell nor a helper.
    Program,
    /// A shell.
    Shell,
}

/// A process of the given kind.
pub open spec fn is_kind(process: ForegroundProcess, kind: Kind, is_windows: bool) -> bool {
    match kind {
        Kind::Program => !is_shell(process, is_windows) && !is_helper(process, is_windows),
        Kind::Shell => is_shell(process, is_windows),
    }
}

/// The place of the process of the given kind with the highest score, the last
/// one where several have it.
pub open spec fn best(processes: Seq<ForegroundProcess>, kind: Kind, is_windows: bool) -> Option<
    int,
>
    decreases processes.len(),
{
    if processes.len() == 0 {
        None
    } else {
        let last = processes.last();
        match best(processes.drop_last(), kind, is_windows) {
            None => if is_kind(last, kind, is_windows) {
                Some(processes.len() - 1)
            } else {
                None
            },
            Some(i) => if is_kind(last, kind, is_windows) && score(last, is_windows) >= score(
                processes[i],
                is_windows,
            ) {
                Some(processes.len() - 1)
            } else {
                Some(i)
            },
        }
    }
}

/// The name of a pane's agent, `None` where it is blank.
pub open spec fn agent_name(agent: Option<Seq<char>>) -> Option<Seq<char>> {
    match agent {
        Some(a) => if trim(a).len() > 0 {
            Some(trim(a))
        } else {
            None
        },
        None => None,
    }
}

/// `label` without the suffix of executable files, on Windows and in any case.
/// The label is cut before its last four bytes, so that place has to lie between
/// two characters.
pub fn strip_windows_exe_suffix(label: &str, is_windows: bool) -> (r: &str)
    requires
        exe_readable(label@, is_windows),
    ensures
        r@ == without_exe(label@, is_windows),
{
    let len: usize = label.unicode_len();
    if is_windows && len >= 4 {
        let end = label.substring_char(len - 4, len);
        assert(end@ =~= label@.skip(len - 4));
        let small = to_ascii_lowercase(end);
        if same_text(small.as_str(), ".exe") {
            let kept = label.substring_char(0, len - 4);
            assert(kept@ =~= label@.take(len - 4));
            return kept;
        }
    }
    label
}

/// Whether the last four bytes of `label` start between two characters.
pub fn exe_suffix_is_readable(label: &str, is_windows: bool) -> (b: bool)
    ensures
        b == exe_readable(label@, is_windows),
{
    if !is_windows {
        return true;
    }
    let chars = to_chars(label);
    let mut end: usize = chars.len();
    let mut left: usize = 4;
    assert(chars@.take(end as int) =~= chars@);
    while end > 0 && left > 0
        invariant
            is_windows,
            chars@ == label@,
            end <= chars.len(),
            left <= 4,
            splits_before(label@, 4) == splits_before(chars@.take(end as int), left as int),
        decreases end,
    {
        let w: usize = char_width(chars[end - 1]);
        assert(chars@.take(end as int).last() == chars@[end - 1]);
        assert(chars@.take(end as int).drop_last() =~= chars@.take(end - 1));
        if w > left {
            return false;
        }
        left = left - w;
        end -= 1;
    }
    true
}

/// The last component of a path, or `other` where it has none.
pub fn basename(path: &str, other: &str) -> (name: String)
    ensures
        name@ == basename_or(path@, other@),
{
    let parts = path_components(path);
    assert(views(parts@).len() == parts@.len());
    if parts.len() > 0 {
        assert(views(parts@).last() == parts@.last()@);
        parts[parts.len() - 1].clone()
    } else {
        other.to_owned()
    }
}

/// The name of the file that a process runs.
fn process_file_name(process: &ForegroundProcess) -> (name: String)
    ensures
        name@ == file_name(*process),
{
    match &process.argv0 {
        Some(argv0) => basename(argv0.as_str(), process.name.as_str()),
        None => if process.argv.len() > 0 {
            basename(process.argv[0].as_str(), process.name.as_str())
        } else {
            basename(process.name.as_str(), process.name.as_str())
        },
    }
}

/// The label of a process: the name of the file it runs.
pub fn process_label(process: &ForegroundProcess, is_windows: bool) -> (l: String)
    requires
        readable(*process, is_windows),
    ensures
        l@ == label(*process, is_windows),
{
    let name = process_file_name(process);
    strip_windows_exe_suffix(name.as_str(), is_windows).to_owned()
}

/// Whether the label of a process can be read.
pub fn process_is_readable(process: &ForegroundProcess, is_windows: bool) -> (b: bool)
    ensures
        b == readable(*process, is_windows),
{
    let name = process_file_name(process);
    exe_suffix_is_readable(name.as_str(), is_windows)
}

/// Whether the labels of all processes can be read.
pub fn processes_are_readable(processes: &[ForegroundProcess], is_windows: bool) -> (b: bool)
    ensures
        b == all_readable(processes@, is_windows),
{
    for i in 0..processes.len()
        invariant
            forall|j: int| 0 <= j < i ==> readable(#[trigger] processes@[j], is_windows),
    {
        if !process_is_readable(&processes[i], is_windows) {
            return false;
        }
    }
    true
}

/// The lowercase name of the program that a label stands for.
fn program_name(label: &str) -> (name: String)
    ensures
        name@ == lowercase(bare_name(label@)),
        ascii_only(bare_name(label@)) ==> name@ == lower_all(bare_name(label@)),
{
    let name = stripped_of(trimmed(label), ".exe");
    let name = stripped_of(name, ".cmd");
    let name = stripped_of(name, ".bat");
    to_lowercase(name)
}

/// Whether a program of this name, in lowercase, is a shell.
pub fn is_shell_name(name: &str) -> (b: bool)
    ensures
        b == names_shell(name@),
        b == shells().contains(name@),
{
    proof {
        lemma_shells(name@);
    }
    same_text(name, "sh") || same_text(name, "bash") || same_text(name, "zsh") || same_text(
        name,
        "fish",
    ) || same_text(name, "dash") || same_text(name, "ksh") || same_text(name, "mksh") || same_text(
        name,
        "nu",
    ) || same_text(name, "elvish") || same_text(name, "xonsh") || same_text(name, "pwsh")
        || same_text(name, "powershell") || same_text(name, "cmd")
}

/// Whether a program of this name, in lowercase, is a helper.
pub fn is_helper_name(name: &str) -> (b: bool)
    ensures
        b == names_helper(name@),
{
    same_text(name, "exec_bridge")
}

/// Whether a process is a shell.
pub fn is_shell_process(process: &ForegroundProcess, is_windows: bool) -> (b: bool)
    requires
        readable(*process, is_windows),
    ensures
        b == is_shell(*process, is_windows),
        ascii_only(bare_name(label(*process, is_windows))) ==> b == shells().contains(
            lower_all(bare_name(label(*process, is_windows))),
        ),
{
    let l = process_label(process, is_windows);
    let name = program_name(l.as_str());
    proof {
        lemma_shells(name@);
    }
    is_shell_name(name.as_str())
}

/// Whether a process is a helper that runs beside a program.
pub fn is_internal_helper_process(process: &ForegroundProcess, is_windows: bool) -> (b: bool)
    requires
        readable(*process, is_windows),
    ensures
        b == is_helper(*process, is_windows),
        ascii_only(bare_name(label(*process, is_windows))) ==> b == (lower_all(
            bare_name(label(*process, is_windows)),
        ) == "exec_bridge"@),
{
    let l = process_label(process, is_windows);
    let name = program_name(l.as_str());
    is_helper_name(name.as_str())
}

/// The score of a process whose label and name have the given lowercase forms.
pub fn score_of_names(lower_label: &str, lower_name: &str) -> (s: u8)
    ensures
        s == if lower_label@ == lower_name@ {
            2u8
        } else {
            3u8
        },
{
    if same_text(lower_label, lower_name) {
        2
    } else {
        3
    }
}

/// How well a process stands for its pane.
pub fn process_score(process: &ForegroundProcess, is_windows: bool) -> (s: u8)
    requires
        readable(*process, is_windows),
    ensures
        s == score(*process, is_windows),
{
    let l = process_label(process, is_windows);
    let lower_label = to_lowercase(l.as_str());
    let lower_name = to_lowercase(process.name.as_str());
    score_of_names(lower_label.as_str(), lower_name.as_str())
}

/// A process that is called like a shell, in ASCII letters of whatever case.
pub open spec fn is_called_shell(process: ForegroundProcess, is_windows: bool) -> bool {
    let name = bare_name(label(process, is_windows));
    ascii_only(name) && shells().contains(lower_all(name))
}

/// The place of the best process of a kind.
fn best_index(processes: &[ForegroundProcess], kind: Kind, is_windows: bool) -> (r: Option<usize>)
    requires
        all_readable(processes@, is_windows),
    ensures
        r is Some == best(processes@, kind, is_windows) is Some,
        r matches Some(i) ==> i < processes.len() && best(processes@, kind, is_windows) == Some(
            i as int,
        ),
        forall|j: int|
            0 <= j < processes@.len() && is_called_shell(#[trigger] processes@[j], is_windows)
                ==> is_shell(processes@[j], is_windows),
{
    let mut found: Option<usize> = None;
    for i in 0..processes.len()
        invariant
            all_readable(processes@, is_windows),
            forall|j: int|
                0 <= j < i && is_called_shell(#[trigger] processes@[j], is_windows) ==> is_shell(
                    processes@[j],
                    is_windows,
                ),
            found is Some == best(processes@.take(i as int), kind, is_windows) is Some,
            found matches Some(k) ==> k < i && best(processes@.take(i as int), kind, is_windows)
                == Some(k as int),
    {
        let ghost next = processes@.take(i + 1);
        assert(next.drop_last() =~= processes@.take(i as int));
        assert(next.last() == processes@[i as int]);
        let process = &processes[i];
        let fits: bool = match kind {
            Kind::Program => !is_shell_process(process, is_windows) && !is_internal_helper_process(
                process,
                is_windows,
            ),
            Kind::Shell => is_shell_process(process, is_windows),
        };
        if fits {
            match found {
                None => {
                    found = Some(i);
                },
                Some(k) => {
                    assert(next[k as int] == processes@[k as int]);
                    if process_score(process, is_windows) >= process_score(
                        &processes[k],
                        is_windows,
                    ) {
                        found = Some(i);
                    }
                },
            }
        }
    }
    assert(processes@.take(processes.len() as int) =~= processes@);
    found
}

/// The process that gives its name to the pane: neither a shell nor a helper.
pub fn select_foreground_process(processes: &[ForegroundProcess], is_windows: bool) -> (r: Option<
    &ForegroundProcess,
>)
    requires
        all_readable(processes@, is_windows),
    ensures
        match best(processes@, Kind::Program, is_windows) {
            Some(i) => 0 <= i < processes@.len() && r == Some(&processes@[i]),
            None => r is None,
        },
        r matches Some(process) ==> !is_called_shell(*process, is_windows),
{
    proof {
        law_best_process_is_best(processes@, Kind::Program, is_windows);
    }
    match best_index(processes, Kind::Program, is_windows) {
        Some(i) => Some(&processes[i]),
        None => None,
    }
}

/// The shell of a pane in which nothing else runs.
pub fn select_idle_shell_process(processes: &[ForegroundProcess], is_windows: bool) -> (r: Option<
    &ForegroundProcess,
>)
    requires
        all_readable(processes@, is_windows),
    ensures
        match best(processes@, Kind::Shell, is_windows) {
            Some(i) => 0 <= i < processes@.len() && r == Some(&processes@[i]),
            None => r is None,
        },
        r is None ==> forall|j: int|
            0 <= j < processes@.len() ==> !is_called_shell(#[trigger] processes@[j], is_windows),
{
    proof {
        law_best_process_is_best(processes@, Kind::Shell, is_windows);
    }
    match best_index(processes, Kind::Shell, is_windows) {
        Some(i) => Some(&processes[i]),
        None => None,
    }
}

/// The name of a pane's agent, `None` where it is blank.
pub fn agent_label(agent: Option<&str>) -> (r: Option<&str>)
    ensures
        match agent_name(
            str_of(agent),
        ) {
            Some(name) => r matches Some(s) && s@ == name,
            None => r is None,
        },
{
    match agent {
        Some(a) => {
            let name = trimmed(a);
            if name.is_empty() {
                None
            } else {
                Some(name)
            }
        },
        None => None,
    }
}

/// The process that is chosen is of the kind that was looked for, no other of
/// that kind has a higher score, and none after it has the same; one is chosen
/// wherever there is one. So a foreground process is never a shell or a helper.
pub proof fn law_best_process_is_best(
    processes: Seq<ForegroundProcess>,
    kind: Kind,
    is_windows: bool,
)
    ensures
        match best(processes, kind, is_windows) {
            Some(i) => {
                &&& 0 <= i < processes.len()
                &&& is_kind(processes[i], kind, is_windows)
                &&& forall|j: int|
                    0 <= j < processes.len() && is_kind(#[trigger] processes[j], kind, is_windows)
                        ==> score(processes[j], is_windows) < score(processes[i], is_windows) || (
                    score(processes[j], is_windows) == score(processes[i], is_windows) && j <= i)
            },
            None => forall|j: int|
                0 <= j < processes.len() ==> !is_kind(#[trigger] processes[j], kind, is_windows),
        },
    decreases processes.len(),
{
    if processes.len() > 0 {
        let shorter = processes.drop_last();
        law_best_process_is_best(shorter, kind, is_windows);
        assert forall|j: int| 0 <= j < shorter.len() implies shorter[j] == #[trigger] processes[j] by {}
        assert(processes.last() == processes[processes.len() - 1]);
        assert forall|j: int| 0 <= j < processes.len() - 1 implies is_kind(
            #[trigger] processes[j],
            kind,
            is_windows,
        ) == is_kind(shorter[j], kind, is_windows) by {}
    }
}

/// The names of the shells.
pub open spec fn shells() -> Seq<Seq<char>> {
    seq![
        "sh"@,
        "bash"@,
        "zsh"@,
        "fish"@,
        "dash"@,
        "ksh"@,
        "mksh"@,
        "nu"@,
        "elvish"@,
        "xonsh"@,
        "pwsh"@,
        "powershell"@,
        "cmd"@,
    ]
}

/// The shells are the processes whose name, in small letters and without the suffix
/// of an executable, is one of the thirteen, and no others. A shell is never taken
/// for a program. The only other process that is no program is the bridge that runs
/// beside one.
pub proof fn law_shells_are_known_by_name(process: ForegroundProcess, is_windows: bool)
    ensures
        ({
            let name = lowercase(bare_name(label(process, is_windows)));
            &&& is_kind(process, Kind::Shell, is_windows) <==> shells().contains(name)
            &&& is_kind(process, Kind::Program, is_windows) <==> !shells().contains(name) && name
                != "exec_bridge"@
            &&& !(is_kind(process, Kind::Shell, is_windows) && is_kind(
                process,
                Kind::Program,
                is_windows,
            ))
        }),
{
    let name = lowercase(bare_name(label(process, is_windows)));
    lemma_shells(name);
}

pub proof fn lemma_shells(name: Seq<char>)
    ensures
        names_shell(name) <==> shells().contains(name),
{
    let all = shells();
    assert(all[0] == "sh"@);
    assert(all[1] == "bash"@);
    assert(all[2] == "zsh"@);
    assert(all[3] == "fish"@);
    assert(all[4] == "dash"@);
    assert(all[5] == "ksh"@);
    assert(all[6] == "mksh"@);
    assert(all[7] == "nu"@);
    assert(all[8] == "elvish"@);
    assert(all[9] == "xonsh"@);
    assert(all[10] == "pwsh"@);
    assert(all[11] == "powershell"@);
    assert(all[12] == "cmd"@);
    if all.contains(name) {
        let i = choose|i: int| 0 <= i < all.len() && all[i] == name;
        assert(all[i] == name);
    }
}

/// A process is known by what it was started as, without the directories before it:
/// that is its `argv0`, else the first of its arguments, else its own name. On Windows
/// the suffix of an executable does not count, in whatever case it is written;
/// elsewhere it belongs to the name.
pub proof fn law_processes_are_known_by_their_files(
    process: ForegroundProcess,
    directory: Seq<char>,
    separator: char,
    name: Seq<char>,
    suffix: Seq<char>,
)
    requires
        separator == '/' || separator == '\\',
        is_name(name),
        is_name(suffix),
        lower_all(suffix) == ".exe"@,
    ensures
        ({
            let started = match process.argv0 {
                Some(argv0) => argv0@,
                None => if process.argv@.len() > 0 {
                    process.argv@[0]@
                } else {
                    process.name@
                },
            };
            &&& started == directory.push(separator) + name || started == name ==> label(
                process,
                false,
            ) == name
            &&& started == directory.push(separator) + (name + suffix) || started == name + suffix
                ==> label(process, false) == name + suffix && label(process, true) == name
            &&& components(started).len() == 0 ==> label(process, false) == process.name@
        }),
{
    let whole = name + suffix;
    assert(is_name(whole)) by {
        assert forall|i: int| 0 <= i < whole.len() implies #[trigger] whole[i] != '/' && whole[i]
            != '\\' by {
            if i < name.len() {
                assert(whole[i] == name[i]);
            } else {
                assert(whole[i] == suffix[i - name.len()]);
            }
        }
    }
    reveal_strlit(".exe");
    assert(lower_all(suffix).len() == suffix.len());
    law_paths_are_cut_at_separators(directory, separator, name);
    law_paths_are_cut_at_separators(directory, separator, whole);
    assert(components(directory).push(name).last() == name);
    assert(components(directory).push(whole).last() == whole);
    assert(whole.skip(whole.len() - 4) =~= suffix);
    assert(whole.take(whole.len() - 4) =~= name);
}

/// On Windows a name without the suffix of an executable stays as it is.
pub proof fn law_other_names_stay(name: Seq<char>)
    ensures
        name.len() < 4 || lower_all(name.skip(name.len() - 4)) != ".exe"@ ==> without_exe(
            name,
            true,
        ) == name,
        without_exe(name, false) == name,
{
}

/// A name is held against those of the shells without white space around it and
/// without the suffixes of executables.
pub proof fn law_suffixes_of_executables_do_not_count(
    front: Seq<char>,
    name: Seq<char>,
    back: Seq<char>,
)
    requires
        is_blank_text(front),
        is_blank_text(back),
        name.len() > 0,
        !is_space(name[0]),
        !is_space(name.last()),
        !".exe"@.is_suffix_of(name),
        !".cmd"@.is_suffix_of(name),
        !".bat"@.is_suffix_of(name),
    ensures
        bare_name(front + name + back) == name,
        bare_name(front + (name + ".exe"@) + back) == name,
        bare_name(front + (name + ".cmd"@) + back) == name,
        bare_name(front + (name + ".bat"@) + back) == name,
{
    reveal_strlit(".exe");
    reveal_strlit(".cmd");
    reveal_strlit(".bat");
    law_trimming_takes_white_space_off(front, name, back);
    law_trimming_takes_white_space_off(front, name + ".exe"@, back);
    law_trimming_takes_white_space_off(front, name + ".cmd"@, back);
    law_trimming_takes_white_space_off(front, name + ".bat"@, back);
    law_suffixes_are_stripped(name, ".exe"@);
    law_suffixes_are_stripped(name, ".cmd"@);
    law_suffixes_are_stripped(name, ".bat"@);
    lemma_other_suffix(name, ".cmd"@, ".exe"@);
    lemma_other_suffix(name, ".bat"@, ".exe"@);
    lemma_other_suffix(name, ".bat"@, ".cmd"@);
    law_suffixes_are_stripped(name + ".cmd"@, ".exe"@);
    law_suffixes_are_stripped(name + ".bat"@, ".exe"@);
    law_suffixes_are_stripped(name + ".bat"@, ".cmd"@);
}

proof fn lemma_other_suffix(name: Seq<char>, one: Seq<char>, other: Seq<char>)
    requires
        one.len() == other.len(),
        one.len() > 0,
        one.last() != other.last(),
    ensures
        !other.is_suffix_of(name + one),
{
    let whole = name + one;
    if other.is_suffix_of(whole) {
        assert(whole.skip(whole.len() - other.len()) =~= other);
        assert(whole.last() == one.last());
        assert(whole.skip(whole.len() - other.len()).last() == whole.last());
    }
}

/// A process that was started under another name than its own stands for its pane
/// before one that was not; of two that are alike, the later one does.
pub proof fn law_renamed_process_comes_first(
    a: ForegroundProcess,
    b: ForegroundProcess,
    is_windows: bool,
)
    ensures
        ({
            let own = |p: ForegroundProcess|
                lowercase(label(p, is_windows)) == lowercase(p.name@);
            &&& score(a, is_windows) > score(b, is_windows) <==> !own(a) && own(b)
            &&& is_kind(a, Kind::Program, is_windows) && is_kind(b, Kind::Program, is_windows)
                ==> best(seq![a, b], Kind::Program, is_windows) == Some(
                if !own(a) && own(b) {
                    0int
                } else {
                    1int
                },
            )
        }),
{
    let pair = seq![a, b];
    assert(pair.drop_last() =~= seq![a]);
    assert(seq![a].drop_last() =~= Seq::<ForegroundProcess>::empty());
    assert(best(Seq::<ForegroundProcess>::empty(), Kind::Program, is_windows) is None);
    assert(best(seq![a], Kind::Program, is_windows) == if is_kind(a, Kind::Program, is_windows) {
        Some(0int)
    } else {
        None
    });
}

/// The agent of a pane is known by its name without white space around it; a blank
/// name is none.
pub proof fn law_agents_are_known_by_their_names(
    front: Seq<char>,
    name: Seq<char>,
    back: Seq<char>,
)
    requires
        is_blank_text(front),
        is_blank_text(back),
        name.len() > 0 ==> !is_space(name[0]) && !is_space(name.last()),
    ensures
        agent_name(Some(front + name + back)) == if name.len() > 0 {
            Some(name)
        } else {
            None
        },
        agent_name(None) is None,
{
    law_trimming_takes_white_space_off(front, name, back);
}

proof fn lemma_ascii_splits(s: Seq<char>, n: int)
    requires
        ascii_only(s),
        n >= 0,
    ensures
        splits_before(s, n),
    decreases s.len(),
{
    if s.len() > 0 && n > 0 {
        assert(code(s[s.len() - 1]) < 0x80);
        assert forall|i: int| 0 <= i < s.drop_last().len() implies code(#[trigger] s.drop_last()[i])
            < 0x80 by {
            assert(code(s[i]) < 0x80);
        }
        lemma_ascii_splits(s.drop_last(), n - 1);
    }
}

/// Names of ASCII characters can be read on Windows, and away from it all names can.
pub proof fn law_ascii_names_are_readable(process: ForegroundProcess)
    ensures
        readable(process, false),
        ascii_only(file_name(process)) ==> readable(process, true),
        readable(process, true) <==> splits_before(file_name(process), 4),
{
    if ascii_only(file_name(process)) {
        lemma_ascii_splits(file_name(process), 4);
    }
}

/// What is known of a process and of a pane is what was read of it.
pub proof fn law_process_views_hold_their_parts(
    process: ForegroundProcess,
    info: PaneProcessInfo,
    i: int,
)
    ensures
        process@.name == process.name@,
        process.argv0 matches Some(s) ==> process@.argv0 == Some(s@),
        process.argv0 is None ==> process@.argv0 is None,
        process.cmdline matches Some(s) ==> process@.cmdline == Some(s@),
        process.cmdline is None ==> process@.cmdline is None,
        process@.argv.len() == process.argv@.len(),
        0 <= i < process.argv@.len() ==> process@.argv[i] == process.argv@[i]@,
        info@.shell_pid == info.shell_pid,
        info@.processes.len() == info.processes@.len(),
        0 <= i < info.processes@.len() ==> info@.processes[i] == info.processes@[i]@,
{
}

} // verus!
