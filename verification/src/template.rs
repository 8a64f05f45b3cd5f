//! Templates of the terminal's window title.
use crate::number::{decimal, to_decimal};
use crate::text::{same_text, str_of, to_chars, trim, trimmed};
use vstd::prelude::*;
use vstd::string::{StrSliceExecFns, StringExecFns};

verus! {

/// The template that is used where the settings give none.
pub const DEFAULT_TERMINAL_TITLE_TEMPLATE: &'static str =
    "[{hostname_uppercase} herdr {tab_label}] {internal_title}";

/// The values that stand for the placeholders of a template. One that is missing
/// stands for the empty string.
#[derive(Debug, Clone, Copy)]
pub struct WindowTitleContext<'a> {
    pub hostname: Option<&'a str>,
    pub hostname_lowercase: Option<&'a str>,
    pub hostname_uppercase: Option<&'a str>,
    pub tab_label: &'a str,
    pub internal_title: Option<&'a str>,
    pub tab_number: usize,
    pub workspace: Option<&'a str>,
    pub cwd: Option<&'a str>,
    pub directory: Option<&'a str>,
    pub process: Option<&'a str>,
    pub agent: Option<&'a str>,
}

/// `WindowTitleContext`, with its strings as sequences.
#[verifier::ext_equal]
pub struct TitleValues {
    pub hostname: Option<Seq<char>>,
    pub hostname_lowercase: Option<Seq<char>>,
    pub hostname_uppercase: Option<Seq<char>>,
    pub tab_label: Seq<char>,
    pub internal_title: Option<Seq<char>>,
    pub tab_number: nat,
    pub workspace: Option<Seq<char>>,
    pub cwd: Option<Seq<char>>,
    pub directory: Option<Seq<char>>,
    pub process: Option<Seq<char>>,
    pub agent: Option<Seq<char>>,
}

impl<'a> View for WindowTitleContext<'a> {
    type V = TitleValues;

    open spec fn view(&self) -> TitleValues {
        TitleValues {
            hostname: str_of(self.hostname),
            hostname_lowercase: str_of(self.hostname_lowercase),
            hostname_uppercase: str_of(self.hostname_uppercase),
            tab_label: self.tab_label@,
            internal_title: str_of(self.internal_title),
            tab_number: self.tab_number as nat,
            workspace: str_of(self.workspace),
            cwd: str_of(self.cwd),
            directory: str_of(self.directory),
            process: str_of(self.process),
            agent: str_of(self.agent),
        }
    }
}

/// Why a template is refused.
#[derive(Debug, PartialEq, Eq)]
pub enum TemplateError {
    /// A `{` without a `}` behind it.
    UnmatchedOpen,
    /// A `}` that closes nothing.
    UnmatchedClose,
    /// A placeholder that there is no value for.
    UnknownPlaceholder(String),
}

/// `TemplateError`, with its string as a sequence.
pub enum TemplateFault {
    UnmatchedOpen,
    UnmatchedClose,
    UnknownPlaceholder(Seq<char>),
}

impl View for TemplateError {
    type V = TemplateFault;

    open spec fn view(&self) -> TemplateFault {
        match self {
            TemplateError::UnmatchedOpen => TemplateFault::UnmatchedOpen,
            TemplateError::UnmatchedClose => TemplateFault::UnmatchedClose,
            TemplateError::UnknownPlaceholder(name) => TemplateFault::UnknownPlaceholder(name@),
        }
    }
}

/// The text, or nothing where there is none.
pub open spec fn or_empty(value: Option<Seq<char>>) -> Seq<char> {
    match value {
        Some(s) => s,
        None => seq![],
    }
}

/// The text that a placeholder stands for, `None` for a name that is not known.
pub open spec fn meaning(name: Seq<char>, context: TitleValues) -> Option<Seq<char>> {
    if name == "hostname"@ {
        Some(or_empty(context.hostname))
    } else if name == "hostname_lowercase"@ {
        Some(or_empty(context.hostname_lowercase))
    } else if name == "hostname_uppercase"@ {
        Some(or_empty(context.hostname_uppercase))
    } else if name == "tab_label"@ {
        Some(context.tab_label)
    } else if name == "internal_title"@ {
        Some(or_empty(context.internal_title))
    } else if name == "tab_number"@ {
        Some(decimal(context.tab_number))
    } else if name == "workspace"@ {
        Some(or_empty(context.workspace))
    } else if name == "cwd"@ {
        Some(or_empty(context.cwd))
    } else if name == "directory"@ {
        Some(or_empty(context.directory))
    } else if name == "process"@ {
        Some(or_empty(context.process))
    } else if name == "agent"@ {
        Some(or_empty(context.agent))
    } else {
        None
    }
}

/// Where the first `}` of `s` stands, or the length of `s`.
pub open spec fn first_close(s: Seq<char>) -> nat
    decreases s.len(),
{
    if s.len() == 0 || s[0] == '}' {
        0
    } else {
        1 + first_close(s.skip(1))
    }
}

/// `head` before a text; a fault stays a fault.
pub open spec fn after(head: Seq<char>, rest: Result<Seq<char>, TemplateFault>) -> Result<
    Seq<char>,
    TemplateFault,
> {
    match rest {
        Ok(text) => Ok(head + text),
        Err(fault) => Err(fault),
    }
}

/// A template with its placeholders replaced, or its first fault from the left.
/// `{{` and `}}` are the braces themselves; any other `{` opens a placeholder,
/// which the next `}` closes.
pub open spec fn expanded(t: Seq<char>, context: TitleValues) -> Result<
    Seq<char>,
    TemplateFault,
>
    decreases t.len(),
{
    if t.len() == 0 {
        Ok(seq![])
    } else if t[0] == '{' && t.len() > 1 && t[1] == '{' {
        after(seq!['{'], expanded(t.skip(2), context))
    } else if t[0] == '{' {
        let name_len: int = first_close(t.skip(1)) as int;
        if name_len >= t.len() - 1 {
            Err(TemplateFault::UnmatchedOpen)
        } else {
            let name = t.subrange(1, 1 + name_len);
            match meaning(name, context) {
                None => Err(TemplateFault::UnknownPlaceholder(name)),
                Some(text) => after(text, expanded(t.skip(2 + name_len), context)),
            }
        }
    } else if t[0] == '}' && t.len() > 1 && t[1] == '}' {
        after(seq!['}'], expanded(t.skip(2), context))
    } else if t[0] == '}' {
        Err(TemplateFault::UnmatchedClose)
    } else {
        after(seq![t[0]], expanded(t.skip(1), context))
    }
}

/// The window title that a template gives: the expanded template without the
/// white space at its ends.
pub open spec fn title_of(t: Seq<char>, context: TitleValues) -> Result<
    Seq<char>,
    TemplateFault,
> {
    match expanded(t, context) {
        Ok(text) => Ok(trim(text)),
        Err(fault) => Err(fault),
    }
}

/// A template that gives a title, whatever its placeholders stand for.
pub open spec fn is_template(t: Seq<char>) -> bool {
    expanded(t, blank_context()) is Ok
}

/// A context in which every placeholder but the tab number stands for nothing.
pub open spec fn blank_context() -> TitleValues {
    TitleValues {
        hostname: None,
        hostname_lowercase: None,
        hostname_uppercase: None,
        tab_label: seq![],
        internal_title: None,
        tab_number: 0,
        workspace: None,
        cwd: None,
        directory: None,
        process: None,
        agent: None,
    }
}

/// Appends a value, or nothing where it is missing.
fn append_optional(title: &mut String, value: Option<&str>)
    ensures
        final(title)@ == old(title)@ + or_empty(str_of(value)),
{
    match value {
        Some(s) => title.append(s),
        None => {
            assert(title@ + or_empty(str_of(value)) =~= title@);
        },
    }
}

/// Appends what a placeholder stands for.
pub fn append_window_title_value(
    title: &mut String,
    placeholder: &str,
    context: &WindowTitleContext<'_>,
) -> (r: Result<(), TemplateError>)
    ensures
        match meaning(placeholder@, context@) {
            Some(text) => r is Ok && final(title)@ == old(title)@ + text,
            None => final(title)@ == old(title)@ && (r matches Err(e) && e@
                == TemplateFault::UnknownPlaceholder(placeholder@)),
        },
{
    if same_text(placeholder, "hostname") {
        append_optional(title, context.hostname);
    } else if same_text(placeholder, "hostname_lowercase") {
        append_optional(title, context.hostname_lowercase);
    } else if same_text(placeholder, "hostname_uppercase") {
        append_optional(title, context.hostname_uppercase);
    } else if same_text(placeholder, "tab_label") {
        title.append(context.tab_label);
    } else if same_text(placeholder, "internal_title") {
        append_optional(title, context.internal_title);
    } else if same_text(placeholder, "tab_number") {
        title.append(to_decimal(context.tab_number as u64).as_str());
    } else if same_text(placeholder, "workspace") {
        append_optional(title, context.workspace);
    } else if same_text(placeholder, "cwd") {
        append_optional(title, context.cwd);
    } else if same_text(placeholder, "directory") {
        append_optional(title, context.directory);
    } else if same_text(placeholder, "process") {
        append_optional(title, context.process);
    } else if same_text(placeholder, "agent") {
        append_optional(title, context.agent);
    } else {
        return Err(TemplateError::UnknownPlaceholder(placeholder.to_owned()));
    }
    Ok(())
}

/// How far from `start` the next `}` is, or the end of the template.
fn close_from(chars: &Vec<char>, start: usize) -> (len: usize)
    requires
        start <= chars.len(),
    ensures
        len == first_close(chars@.skip(start as int)),
        len <= chars.len() - start,
{
    let mut len: usize = 0;
    while start + len < chars.len() && chars[start + len] != '}'
        invariant
            start + len <= chars.len(),
            first_close(chars@.skip(start as int)) == len + first_close(chars@.skip(start + len)),
        decreases chars.len() - start - len,
    {
        assert(chars@.skip(start + len).skip(1) =~= chars@.skip(start + len + 1));
        len += 1;
    }
    len
}

/// Replaces the placeholders of a template.
pub fn render_window_title(template: &str, context: &WindowTitleContext<'_>) -> (r: Result<
    String,
    TemplateError,
>)
    ensures
        match title_of(template@, context@) {
            Ok(text) => r matches Ok(title) && title@ == text,
            Err(fault) => r matches Err(e) && e@ == fault,
        },
{
    let chars = to_chars(template);
    let ghost all = expanded(template@, context@);
    let mut title = String::new();
    let mut index: usize = 0;
    assert(template@.skip(0) =~= template@);
    proof {
        lemma_after_nothing(all);
    }
    while index < chars.len()
        invariant
            chars@ == template@,
            index <= chars.len(),
            all == expanded(template@, context@),
            all == after(title@, expanded(template@.skip(index as int), context@)),
        decreases chars.len() - index,
    {
        let ghost before = title@;
        let ghost t = template@.skip(index as int);
        let c = chars[index];
        let doubled: bool = index + 1 < chars.len() && chars[index + 1] == c;
        if c == '{' && !doubled {
            let len = close_from(&chars, index + 1);
            assert(t.skip(1) =~= chars@.skip(index + 1));
            if index + 1 + len == chars.len() {
                return Err(TemplateError::UnmatchedOpen);
            }
            let name = template.substring_char(index + 1, index + 1 + len);
            assert(name@ =~= t.subrange(1, 1 + len));
            append_window_title_value(&mut title, name, context)?;
            assert(t.skip(2 + len) =~= template@.skip(index + 2 + len));
            proof {
                lemma_after_twice(
                    before,
                    meaning(name@, context@)->0,
                    expanded(t.skip(2 + len), context@),
                );
            }
            index = index + 2 + len;
        } else if c == '}' && !doubled {
            return Err(TemplateError::UnmatchedClose);
        } else {
            title.push(c);
            assert(title@ =~= before + seq![c]);
            if c == '{' || c == '}' {
                assert(t.skip(2) =~= template@.skip(index + 2));
                proof {
                    lemma_after_twice(before, seq![c], expanded(t.skip(2), context@));
                }
                index = index + 2;
            } else {
                assert(t.skip(1) =~= template@.skip(index + 1));
                proof {
                    lemma_after_twice(before, seq![c], expanded(t.skip(1), context@));
                }
                index = index + 1;
            }
        }
    }
    assert(title@ + Seq::<char>::empty() =~= title@);
    Ok(trimmed(title.as_str()).to_owned())
}

/// Accepts a template that gives a title, whatever its placeholders stand for.
pub fn validate_window_title_template(template: &str) -> (r: Result<(), TemplateError>)
    ensures
        r is Ok == is_template(template@),
        match expanded(template@, blank_context()) {
            Ok(_) => r is Ok,
            Err(fault) => r matches Err(e) && e@ == fault,
        },
{
    let context = WindowTitleContext {
        hostname: None,
        hostname_lowercase: None,
        hostname_uppercase: None,
        tab_label: "",
        internal_title: None,
        tab_number: 0,
        workspace: None,
        cwd: None,
        directory: None,
        process: None,
        agent: None,
    };
    proof {
        reveal_strlit("");
        assert(""@ =~= seq![]);
    }
    match render_window_title(template, &context) {
        Ok(_) => Ok(()),
        Err(e) => Err(e),
    }
}

proof fn lemma_after_nothing(rest: Result<Seq<char>, TemplateFault>)
    ensures
        after(Seq::empty(), rest) == rest,
{
    if let Ok(text) = rest {
        assert(Seq::<char>::empty() + text =~= text);
    }
}

proof fn lemma_after_twice(a: Seq<char>, b: Seq<char>, rest: Result<Seq<char>, TemplateFault>)
    ensures
        after(a, after(b, rest)) == after(a + b, rest),
{
    if let Ok(text) = rest {
        assert(a + (b + text) =~= (a + b) + text);
    }
}

/// Whether a template gives a title, and which fault it has if not, does not
/// depend on what the placeholders stand for. So a template that was accepted
/// once never fails.
pub proof fn law_accepted_templates_never_fail(t: Seq<char>, context: TitleValues)
    ensures
        is_template(t) == title_of(t, context) is Ok,
        !is_template(t) ==> title_of(t, context) == Err::<Seq<char>, TemplateFault>(
            expanded(t, blank_context())->Err_0,
        ),
{
    lemma_same_fault(t, context, blank_context());
}

proof fn lemma_same_fault(t: Seq<char>, a: TitleValues, b: TitleValues)
    ensures
        expanded(t, a) is Ok == expanded(t, b) is Ok,
        expanded(t, a) is Err ==> expanded(t, a)->Err_0 == expanded(t, b)->Err_0,
    decreases t.len(),
{
    if t.len() > 0 {
        if t[0] == '{' && t.len() > 1 && t[1] == '{' {
            lemma_same_fault(t.skip(2), a, b);
        } else if t[0] == '{' {
            let name_len: int = first_close(t.skip(1)) as int;
            if name_len < t.len() - 1 {
                lemma_same_fault(t.skip(2 + name_len), a, b);
            }
        } else if t[0] == '}' && t.len() > 1 && t[1] == '}' {
            lemma_same_fault(t.skip(2), a, b);
        } else if t[0] != '}' {
            lemma_same_fault(t.skip(1), a, b);
        }
    }
}

/// A placeholder: braces around its name.
pub open spec fn placeholder(name: Seq<char>) -> Seq<char> {
    seq!['{'] + name + seq!['}']
}

/// No brace occurs in the text.
pub open spec fn is_plain(t: Seq<char>) -> bool {
    forall|i: int| 0 <= i < t.len() ==> #[trigger] t[i] != '{' && t[i] != '}'
}

/// Text without braces stays as it is, in whatever template it stands.
pub proof fn law_plain_text_stays(t: Seq<char>, rest: Seq<char>, context: TitleValues)
    requires
        is_plain(t),
    ensures
        expanded(t + rest, context) == after(t, expanded(rest, context)),
        title_of(t, context) == Ok::<Seq<char>, TemplateFault>(trim(t)),
{
    lemma_plain(t, rest, context);
    lemma_plain(t, seq![], context);
    assert(t + Seq::<char>::empty() =~= t);
}

proof fn lemma_plain(t: Seq<char>, rest: Seq<char>, context: TitleValues)
    requires
        is_plain(t),
    ensures
        expanded(t + rest, context) == after(t, expanded(rest, context)),
    decreases t.len(),
{
    if t.len() == 0 {
        assert(t + rest =~= rest);
        assert(t =~= Seq::<char>::empty());
        lemma_after_nothing(expanded(rest, context));
    } else {
        let whole = t + rest;
        assert(whole[0] == t[0] && t[0] != '{' && t[0] != '}');
        assert forall|i: int| 0 <= i < t.skip(1).len() implies #[trigger] t.skip(1)[i] != '{'
            && t.skip(1)[i] != '}' by {
            assert(t.skip(1)[i] == t[i + 1]);
        }
        lemma_plain(t.skip(1), rest, context);
        assert(whole.skip(1) =~= t.skip(1) + rest);
        assert(seq![t[0]] + t.skip(1) =~= t);
        lemma_after_twice(seq![t[0]], t.skip(1), expanded(rest, context));
    }
}

/// A placeholder of a known name is replaced by what it stands for, in whatever
/// template it stands.
pub proof fn law_placeholder_is_replaced(
    name: Seq<char>,
    rest: Seq<char>,
    context: TitleValues,
)
    requires
        is_plain(name),
        meaning(name, context) is Some,
    ensures
        expanded(placeholder(name) + rest, context) == after(
            meaning(name, context)->0,
            expanded(rest, context),
        ),
{
    let t = placeholder(name) + rest;
    lemma_first_close(name, rest);
    assert(t.skip(1) =~= name.push('}') + rest);
    assert(t.subrange(1, 1 + name.len() as int) =~= name);
    assert(t.skip(2 + name.len() as int) =~= rest);
    assert(t[1] != '{') by {
        if name.len() > 0 {
            assert(t[1] == name[0]);
        }
    }
}

/// Doubled braces give the brace, in whatever template they stand.
pub proof fn law_doubled_braces_give_the_brace(rest: Seq<char>, context: TitleValues)
    ensures
        expanded(seq!['{', '{'] + rest, context) == after(seq!['{'], expanded(rest, context)),
        expanded(seq!['}', '}'] + rest, context) == after(seq!['}'], expanded(rest, context)),
{
    assert((seq!['{', '{'] + rest).skip(2) =~= rest);
    assert((seq!['}', '}'] + rest).skip(2) =~= rest);
}

proof fn lemma_first_close(name: Seq<char>, rest: Seq<char>)
    requires
        is_plain(name),
    ensures
        first_close(name.push('}') + rest) == name.len(),
    decreases name.len(),
{
    let t = name.push('}') + rest;
    if name.len() > 0 {
        assert(t[0] == name[0] && name[0] != '}');
        assert forall|i: int| 0 <= i < name.skip(1).len() implies #[trigger] name.skip(1)[i] != '{'
            && name.skip(1)[i] != '}' by {
            assert(name.skip(1)[i] == name[i + 1]);
        }
        lemma_first_close(name.skip(1), rest);
        assert(t.skip(1) =~= name.skip(1).push('}') + rest);
    }
}

/// The default template is a template.
pub proof fn law_default_template_is_accepted()
    ensures
        is_template(DEFAULT_TERMINAL_TITLE_TEMPLATE@),
{
    reveal_strlit("[{hostname_uppercase} herdr {tab_label}] {internal_title}");
    reveal_strlit("hostname_uppercase");
    reveal_strlit("tab_label");
    reveal_strlit("internal_title");
    reveal_strlit(" herdr ");
    reveal_strlit("] ");
    let context = blank_context();
    let end = placeholder("internal_title"@) + Seq::<char>::empty();
    let third = "] "@ + end;
    let second = placeholder("tab_label"@) + third;
    let first = " herdr "@ + second;
    let all = seq!['['] + (placeholder("hostname_uppercase"@) + first);
    assert(DEFAULT_TERMINAL_TITLE_TEMPLATE@ =~= all);
    law_placeholder_is_replaced("internal_title"@, Seq::empty(), context);
    law_plain_text_stays("] "@, end, context);
    law_placeholder_is_replaced("tab_label"@, third, context);
    law_plain_text_stays(" herdr "@, second, context);
    law_placeholder_is_replaced("hostname_uppercase"@, first, context);
    law_plain_text_stays(seq!['['], placeholder("hostname_uppercase"@) + first, context);
}

/// The placeholders of a template, each with what it stands for.
pub open spec fn placeholders(context: TitleValues) -> Seq<(Seq<char>, Option<Seq<char>>)> {
    seq![
        ("hostname"@, context.hostname),
        ("hostname_lowercase"@, context.hostname_lowercase),
        ("hostname_uppercase"@, context.hostname_uppercase),
        ("tab_label"@, Some(context.tab_label)),
        ("internal_title"@, context.internal_title),
        ("tab_number"@, Some(decimal(context.tab_number))),
        ("workspace"@, context.workspace),
        ("cwd"@, context.cwd),
        ("directory"@, context.directory),
        ("process"@, context.process),
        ("agent"@, context.agent),
    ]
}

/// The names of the placeholders hold no braces and differ, in their lengths or in a
/// letter.
proof fn lemma_placeholder_names()
    ensures
        is_plain("hostname"@),
        is_plain("hostname_lowercase"@),
        is_plain("hostname_uppercase"@),
        is_plain("tab_label"@),
        is_plain("internal_title"@),
        is_plain("tab_number"@),
        is_plain("workspace"@),
        is_plain("cwd"@),
        is_plain("directory"@),
        is_plain("process"@),
        is_plain("agent"@),
        "hostname"@.len() == 8,
        "hostname_lowercase"@.len() == 18,
        "hostname_lowercase"@[9] == 'l',
        "hostname_uppercase"@.len() == 18,
        "hostname_uppercase"@[9] == 'u',
        "tab_label"@.len() == 9,
        "tab_label"@[0] == 't',
        "internal_title"@.len() == 14,
        "tab_number"@.len() == 10,
        "workspace"@.len() == 9,
        "workspace"@[0] == 'w',
        "cwd"@.len() == 3,
        "directory"@.len() == 9,
        "directory"@[0] == 'd',
        "process"@.len() == 7,
        "agent"@.len() == 5,
{
    reveal_strlit("hostname");
    reveal_strlit("hostname_lowercase");
    reveal_strlit("hostname_uppercase");
    reveal_strlit("tab_label");
    reveal_strlit("internal_title");
    reveal_strlit("tab_number");
    reveal_strlit("workspace");
    reveal_strlit("cwd");
    reveal_strlit("directory");
    reveal_strlit("process");
    reveal_strlit("agent");
}

/// Every placeholder is replaced by its own value, in whatever template it stands, and
/// one without a value by nothing. Alone it gives its value without white space
/// around it.
pub proof fn law_placeholders_give_their_values(context: TitleValues, rest: Seq<char>, k: int)
    requires
        0 <= k < placeholders(context).len(),
    ensures
        ({
            let (name, value) = placeholders(context)[k];
            let text = match value {
                Some(text) => text,
                None => seq![],
            };
            &&& expanded(rest, context) matches Ok(end) ==> expanded(
                placeholder(name) + rest,
                context,
            ) == Ok::<Seq<char>, TemplateFault>(text + end)
            &&& expanded(rest, context) matches Err(fault) ==> expanded(
                placeholder(name) + rest,
                context,
            ) == Err::<Seq<char>, TemplateFault>(fault)
            &&& title_of(placeholder(name), context) == Ok::<Seq<char>, TemplateFault>(trim(text))
        }),
{
    let (name, value) = placeholders(context)[k];
    let text = match value {
        Some(text) => text,
        None => seq![],
    };
    lemma_placeholder_names();
    assert(is_plain(name));
    assert(meaning(name, context) == Some(text));
    law_placeholder_is_replaced(name, rest, context);
    let none = Seq::<char>::empty();
    law_placeholder_is_replaced(name, none, context);
    assert(placeholder(name) + none =~= placeholder(name));
    assert(text + none =~= text);
}

/// A placeholder of any other name is a fault, and so are a brace that is not closed
/// and one that was not opened.
pub proof fn law_faulty_templates_are_refused(
    context: TitleValues,
    name: Seq<char>,
    rest: Seq<char>,
)
    requires
        is_plain(name),
    ensures
        (forall|k: int|
            0 <= k < placeholders(context).len() ==> (#[trigger] placeholders(context)[k]).0
                != name) ==> expanded(placeholder(name) + rest, context) == Err::<
            Seq<char>,
            TemplateFault,
        >(TemplateFault::UnknownPlaceholder(name)),
        expanded(seq!['{'] + name, context) == Err::<Seq<char>, TemplateFault>(
            TemplateFault::UnmatchedOpen,
        ),
        rest.len() == 0 || rest[0] != '}' ==> expanded(seq!['}'] + rest, context) == Err::<
            Seq<char>,
            TemplateFault,
        >(TemplateFault::UnmatchedClose),
{
    let t = placeholder(name) + rest;
    lemma_first_close(name, rest);
    assert(t.skip(1) =~= name.push('}') + rest);
    assert(t.subrange(1, 1 + name.len() as int) =~= name);
    assert(t[1] != '{') by {
        if name.len() > 0 {
            assert(t[1] == name[0]);
        }
    }
    if forall|k: int|
        0 <= k < placeholders(context).len() ==> (#[trigger] placeholders(context)[k]).0 != name {
        let all = placeholders(context);
        assert(all[0].0 != name && all[1].0 != name && all[2].0 != name && all[3].0 != name
            && all[4].0 != name && all[5].0 != name && all[6].0 != name && all[7].0 != name
            && all[8].0 != name && all[9].0 != name && all[10].0 != name);
    }
    let open = seq!['{'] + name;
    assert(open.skip(1) =~= name);
    if name.len() > 0 {
        assert(open[1] == name[0]);
    }
    lemma_no_close(name);
    let close = seq!['}'] + rest;
    if rest.len() > 0 {
        assert(close[1] == rest[0]);
    }
}

proof fn lemma_no_close(t: Seq<char>)
    requires
        is_plain(t),
    ensures
        first_close(t) == t.len(),
    decreases t.len(),
{
    if t.len() > 0 {
        assert(t[0] != '}');
        assert forall|i: int| 0 <= i < t.skip(1).len() implies #[trigger] t.skip(1)[i] != '{'
            && t.skip(1)[i] != '}' by {
            assert(t.skip(1)[i] == t[i + 1]);
        }
        lemma_no_close(t.skip(1));
    }
}

proof fn lemma_close_within(t: Seq<char>, rest: Seq<char>)
    requires
        first_close(t) < t.len(),
    ensures
        first_close(t + rest) == first_close(t),
    decreases t.len(),
{
    assert((t + rest)[0] == t[0]);
    if t[0] != '}' {
        assert((t + rest).skip(1) =~= t.skip(1) + rest);
        lemma_close_within(t.skip(1), rest);
    }
}

/// Templates are expanded piece by piece: what two of them give one after the other is
/// what each of them gives, and the fault of the second is that of both.
pub proof fn law_templates_are_expanded_piece_by_piece(
    t: Seq<char>,
    rest: Seq<char>,
    context: TitleValues,
)
    ensures
        expanded(t, context) matches Ok(text) ==> {
            &&& expanded(rest, context) matches Ok(end) ==> expanded(t + rest, context) == Ok::<
                Seq<char>,
                TemplateFault,
            >(text + end)
            &&& expanded(rest, context) matches Err(fault) ==> expanded(t + rest, context) == Err::<
                Seq<char>,
                TemplateFault,
            >(fault)
            &&& title_of(t, context) == Ok::<Seq<char>, TemplateFault>(trim(text))
        },
    decreases t.len(),
{
    if t.len() == 0 {
        assert(t + rest =~= rest);
        if let Ok(end) = expanded(rest, context) {
            assert(Seq::<char>::empty() + end =~= end);
        }
    } else if expanded(t, context) is Ok {
        let whole = t + rest;
        assert(whole[0] == t[0]);
        let n: int = if t[0] == '{' && t.len() > 1 && t[1] == '{' {
            2
        } else if t[0] == '{' {
            let name_len: int = first_close(t.skip(1)) as int;
            lemma_close_within(t.skip(1), rest);
            assert(whole.skip(1) =~= t.skip(1) + rest);
            assert(whole.subrange(1, 1 + name_len) =~= t.subrange(1, 1 + name_len));
            2 + name_len
        } else if t[0] == '}' {
            2
        } else {
            1
        };
        if t.len() > 1 {
            assert(whole[1] == t[1]);
        }
        assert(whole.skip(n) =~= t.skip(n) + rest);
        law_templates_are_expanded_piece_by_piece(t.skip(n), rest, context);
        let head = if n == 1 {
            seq![t[0]]
        } else if t[0] == '{' && t[1] != '{' {
            meaning(t.subrange(1, n - 1), context)->0
        } else {
            seq![t[0]]
        };
        let middle = expanded(t.skip(n), context)->Ok_0;
        assert(expanded(t, context)->Ok_0 == head + middle);
        if let Ok(end) = expanded(rest, context) {
            assert((head + middle) + end =~= head + (middle + end));
        }
    }
}

/// Doubled braces give a brace.
pub proof fn law_doubled_braces_are_braces(context: TitleValues)
    ensures
        expanded(seq!['{', '{'], context) == Ok::<Seq<char>, TemplateFault>(seq!['{']),
        expanded(seq!['}', '}'], context) == Ok::<Seq<char>, TemplateFault>(seq!['}']),
        expanded(seq![], context) == Ok::<Seq<char>, TemplateFault>(seq![]),
{
    let none = Seq::<char>::empty();
    law_doubled_braces_give_the_brace(none, context);
    assert(seq!['{', '{'] + none =~= seq!['{', '{']);
    assert(seq!['}', '}'] + none =~= seq!['}', '}']);
    assert(seq!['{'] + none =~= seq!['{']);
    assert(seq!['}'] + none =~= seq!['}']);
}

/// A text without braces gives that text.
pub proof fn law_plain_text_is_its_own_title(t: Seq<char>, context: TitleValues)
    requires
        is_plain(t),
    ensures
        expanded(t, context) == Ok::<Seq<char>, TemplateFault>(t),
{
    let none = Seq::<char>::empty();
    law_plain_text_stays(t, none, context);
    assert(t + none =~= t);
}

} // verus!
