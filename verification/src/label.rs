//! Tab labels: cleaning, the tab number before the text, and the labels of idle
//! shells.
use crate::config::PluginConfig;
use crate::number::{decimal, lemma_decimal_denotes, to_decimal};
use crate::text::{
    char_is_control, char_is_space, digits_only, is_blank_text, is_control, is_digit, is_digits,
    is_space, str_of, to_chars, trim, trim_end, trim_start, trimmed, trimmed_start,
};
use vstd::prelude::*;
use vstd::string::{StrSliceExecFns, StringExecFns};

verus! {

/// The most characters that a label has.
pub const LABEL_LIMIT: usize = 40;

/// What the label of a pane shows whose shell is idle.
#[derive(Debug, Clone, Copy, PartialEq, Eq, Structural)]
pub enum IdleLabelMode {
    /// The directory.
    Directory,
    /// The shell.
    Shell,
    /// The directory and the shell.
    DirectoryShell,
}

/// A character that does not show: white space or a control character.
pub open spec fn is_blank(c: char) -> bool {
    is_space(c) || is_control(c)
}

/// `s` with one space for each longest run of blank characters.
pub open spec fn collapsed(s: Seq<char>) -> Seq<char>
    decreases s.len(),
{
    if s.len() == 0 {
        seq![]
    } else {
        let before = collapsed(s.drop_last());
        if !is_blank(s.last()) {
            before.push(s.last())
        } else if before.len() > 0 && before.last() == ' ' {
            before
        } else {
            before.push(' ')
        }
    }
}

/// `s`, or its beginning and three dots where it is over the limit.
pub open spec fn limited(s: Seq<char>) -> Seq<char> {
    if s.len() > LABEL_LIMIT {
        s.take(LABEL_LIMIT - 3) + seq!['.', '.', '.']
    } else {
        s
    }
}

/// A label as it is shown: on one line, with single spaces between words and none
/// at the ends, and of limited length.
pub open spec fn clean(s: Seq<char>) -> Seq<char> {
    limited(trim(collapsed(s)))
}

/// A label with the number of its tab before it, where numbers are shown.
pub open spec fn numbered(number: nat, base: Seq<char>, show_tab_number: bool) -> Seq<char> {
    if show_tab_number {
        clean(decimal(number).push(':') + base)
    } else {
        base
    }
}

/// Where the first colon of `s` stands, or the length of `s`.
pub open spec fn first_colon(s: Seq<char>) -> nat
    decreases s.len(),
{
    if s.len() == 0 || s[0] == ':' {
        0
    } else {
        1 + first_colon(s.skip(1))
    }
}

/// `label` without a tab number, its colon and the white space after it.
pub open spec fn unnumbered(label: Seq<char>) -> Seq<char> {
    let colon = first_colon(label) as int;
    if colon < label.len() && digits_only(label.take(colon)) {
        trim_start(label.skip(colon + 1))
    } else {
        label
    }
}

/// The text of an idle pane's label.
pub open spec fn idle_text(
    directory: Seq<char>,
    shell: Option<Seq<char>>,
    mode: IdleLabelMode,
    separator: Seq<char>,
) -> Seq<char> {
    match shell {
        None => directory,
        Some(shell) => match mode {
            IdleLabelMode::Directory => directory,
            IdleLabelMode::Shell => shell,
            IdleLabelMode::DirectoryShell => directory + separator + shell,
        },
    }
}

/// The new label of a tab that was named by hand: its text with the tab number
/// before it. `None` where it has that already, or numbers are not shown.
pub open spec fn renumbered(label: Seq<char>, number: nat, show_tab_number: bool) -> Option<
    Seq<char>,
> {
    if show_tab_number && numbered(number, unnumbered(label), true) != label {
        Some(numbered(number, unnumbered(label), true))
    } else {
        None
    }
}

/// Makes a label fit to be shown.
pub fn sanitize_label(label: &str) -> (out: String)
    ensures
        out@ == clean(label@),
{
    let chars = to_chars(label);
    let mut line = String::new();
    let mut after_space: bool = false;
    assert(label@.take(0) =~= Seq::<char>::empty());
    assert(line@ =~= collapsed(label@.take(0)));
    for i in 0..chars.len()
        invariant
            chars@ == label@,
            line@ == collapsed(label@.take(i as int)),
            after_space == (line@.len() > 0 && line@.last() == ' '),
    {
        assert(label@.take(i + 1).drop_last() =~= label@.take(i as int));
        let c = chars[i];
        if char_is_space(c) || char_is_control(c) {
            if !after_space {
                line.push(' ');
            }
            after_space = true;
        } else {
            line.push(c);
            after_space = false;
        }
    }
    assert(label@.take(chars.len() as int) =~= label@);
    let text = trimmed(line.as_str());
    if text.unicode_len() > LABEL_LIMIT {
        let head = text.substring_char(0, LABEL_LIMIT - 3);
        let mut out = head.to_owned();
        out.push('.');
        out.push('.');
        out.push('.');
        assert(out@ =~= text@.take(LABEL_LIMIT - 3) + seq!['.', '.', '.']);
        out
    } else {
        text.to_owned()
    }
}

/// A label with the number of its tab before it, where numbers are shown.
pub fn format_tab_label(display_number: usize, base_label: &str, config: &PluginConfig) -> (label:
    String)
    ensures
        label@ == numbered(display_number as nat, base_label@, config.show_tab_number),
{
    if config.show_tab_number {
        let mut text = to_decimal(display_number as u64);
        text.push(':');
        text.append(base_label);
        sanitize_label(text.as_str())
    } else {
        base_label.to_owned()
    }
}

/// `label` without a tab number, its colon and the white space after it.
pub fn strip_tab_number_prefix(label: &str) -> (rest: &str)
    ensures
        rest@ == unnumbered(label@),
{
    let chars = to_chars(label);
    let mut colon: usize = 0;
    assert(label@.skip(0) =~= label@);
    while colon < chars.len() && chars[colon] != ':'
        invariant
            chars@ == label@,
            colon <= chars.len(),
            first_colon(label@) == colon + first_colon(label@.skip(colon as int)),
        decreases chars.len() - colon,
    {
        assert(label@.skip(colon as int).skip(1) =~= label@.skip(colon + 1));
        colon += 1;
    }
    if colon == chars.len() {
        return label;
    }
    let prefix = label.substring_char(0, colon);
    assert(prefix@ =~= label@.take(colon as int));
    if is_digits(prefix) {
        let rest = label.substring_char(colon + 1, chars.len());
        assert(rest@ =~= label@.skip(colon + 1));
        trimmed_start(rest)
    } else {
        label
    }
}

/// The label of a pane whose shell is idle.
pub fn format_idle_shell_label(
    directory: &str,
    shell: Option<&str>,
    mode: IdleLabelMode,
    separator: &str,
) -> (label: String)
    ensures
        label@ == clean(
            idle_text(
                directory@,
                str_of(shell),
                mode,
                separator@,
            ),
        ),
{
    match shell {
        None => sanitize_label(directory),
        Some(shell) => match mode {
            IdleLabelMode::Directory => sanitize_label(directory),
            IdleLabelMode::Shell => sanitize_label(shell),
            IdleLabelMode::DirectoryShell => {
                let mut text = directory.to_owned();
                text.append(separator);
                text.append(shell);
                sanitize_label(text.as_str())
            },
        },
    }
}

// ---------------------------------------------------------------------- laws

/// Blank characters are single spaces.
pub open spec fn single_spaced(s: Seq<char>) -> bool {
    &&& forall|i: int| 0 <= i < s.len() && is_blank(#[trigger] s[i]) ==> s[i] == ' '
    &&& forall|i: int| 0 < i < s.len() && #[trigger] s[i] == ' ' ==> s[i - 1] != ' '
}

/// The form of a clean label: within the limit, on one line, with single spaces
/// between words and none at the ends.
pub open spec fn is_clean(s: Seq<char>) -> bool {
    &&& s.len() <= LABEL_LIMIT
    &&& single_spaced(s)
    &&& s.len() > 0 ==> s[0] != ' ' && s.last() != ' '
}

proof fn lemma_collapsed(s: Seq<char>)
    ensures
        single_spaced(collapsed(s)),
    decreases s.len(),
{
    if s.len() > 0 {
        lemma_collapsed(s.drop_last());
    }
}

/// Trimming the end keeps a beginning of the string, which ends in no space.
proof fn lemma_trim_end(s: Seq<char>)
    ensures
        trim_end(s).len() <= s.len(),
        trim_end(s) == s.take(trim_end(s).len() as int),
        trim_end(s).len() > 0 ==> !is_space(trim_end(s).last()),
    decreases s.len(),
{
    if s.len() > 0 && is_space(s.last()) {
        lemma_trim_end(s.drop_last());
        assert(s.drop_last().take(trim_end(s).len() as int) =~= s.take(trim_end(s).len() as int));
    } else {
        assert(s.take(s.len() as int) =~= s);
    }
}

/// Trimming the start keeps an end of the string, which starts with no space.
proof fn lemma_trim_start(s: Seq<char>)
    ensures
        trim_start(s).len() <= s.len(),
        trim_start(s) == s.skip(s.len() - trim_start(s).len()),
        trim_start(s).len() > 0 ==> !is_space(trim_start(s)[0]),
    decreases s.len(),
{
    if s.len() > 0 && is_space(s[0]) {
        lemma_trim_start(s.skip(1));
        assert(s.skip(1).skip(s.len() - 1 - trim_start(s).len()) =~= s.skip(
            s.len() - trim_start(s).len(),
        ));
    } else {
        assert(s.skip(0) =~= s);
    }
}

/// A sanitized label is in clean form: it has forty characters at most, no
/// control characters, no white space but single spaces, and none at its ends.
pub proof fn law_sanitized_label_is_clean(s: Seq<char>)
    ensures
        is_clean(clean(s)),
{
    let line = collapsed(s);
    lemma_collapsed(s);
    lemma_trim_start(line);
    let front = trim_start(line);
    lemma_trim_end(front);
    let text = trim(line);
    let offset = line.len() - front.len();
    assert forall|i: int| 0 <= i < text.len() implies text[i] == line[#[trigger] (offset + i)] by {}
    assert(single_spaced(text)) by {
        assert forall|i: int| 0 <= i < text.len() && is_blank(#[trigger] text[i]) implies text[i]
            == ' ' by {
            assert(text[i] == line[offset + i]);
        }
        assert forall|i: int| 0 < i < text.len() && #[trigger] text[i] == ' ' implies text[i - 1]
            != ' ' by {
            assert(text[i] == line[offset + i]);
            assert(text[i - 1] == line[offset + (i - 1)]);
        }
    }
    assert(is_space(' '));
    let out = clean(s);
    if text.len() > LABEL_LIMIT {
        assert forall|i: int| 0 <= i < out.len() && is_blank(#[trigger] out[i]) implies out[i]
            == ' ' by {
            if i < LABEL_LIMIT - 3 {
                assert(out[i] == text[i]);
            }
        }
        assert forall|i: int| 0 < i < out.len() && #[trigger] out[i] == ' ' implies out[i - 1]
            != ' ' by {
            assert(out[i] == text[i]);
            assert(out[i - 1] == text[i - 1]);
        }
    }
}

proof fn lemma_single_spaced_is_kept(s: Seq<char>)
    requires
        single_spaced(s),
    ensures
        collapsed(s) == s,
    decreases s.len(),
{
    if s.len() > 0 {
        let shorter = s.drop_last();
        assert(single_spaced(shorter)) by {
            assert forall|i: int| 0 <= i < shorter.len() && is_blank(
                #[trigger] shorter[i],
            ) implies shorter[i] == ' ' by {
                assert(shorter[i] == s[i]);
            }
            assert forall|i: int| 0 < i < shorter.len() && #[trigger] shorter[i] == ' ' implies
                shorter[i - 1] != ' ' by {
                assert(shorter[i] == s[i]);
            }
        }
        lemma_single_spaced_is_kept(shorter);
        assert(s.last() == s[s.len() - 1]);
        assert(shorter.push(s.last()) =~= s);
    } else {
        assert(collapsed(s) =~= s);
    }
}

/// A label in clean form is left as it is; so sanitizing twice is sanitizing
/// once.
pub proof fn law_sanitizing_is_idempotent(s: Seq<char>)
    ensures
        is_clean(s) ==> clean(s) == s,
        clean(clean(s)) == clean(s),
{
    assert forall|t: Seq<char>| is_clean(t) implies clean(t) == t by {
        lemma_single_spaced_is_kept(t);
        if t.len() > 0 {
            assert(!is_blank(t[0]));
            assert(!is_blank(t[t.len() - 1]));
        }
    }
    law_sanitized_label_is_clean(s);
}

proof fn lemma_collapsed_concat(a: Seq<char>, b: Seq<char>)
    requires
        collapsed(a).len() > 0 ==> collapsed(a).last() != ' ',
    ensures
        collapsed(a + b) == collapsed(a) + collapsed(b),
    decreases b.len(),
{
    if b.len() == 0 {
        assert(a + b =~= a);
        assert(collapsed(a) + collapsed(b) =~= collapsed(a));
    } else {
        lemma_collapsed_concat(a, b.drop_last());
        assert((a + b).drop_last() =~= a + b.drop_last());
        assert((a + b).last() == b.last());
        assert(collapsed(a + b) =~= collapsed(a) + collapsed(b));
    }
}

proof fn lemma_trim_end_concat(a: Seq<char>, b: Seq<char>)
    requires
        a.len() > 0,
        !is_space(a.last()),
    ensures
        trim_end(a + b) == a + trim_end(b),
    decreases b.len(),
{
    if b.len() == 0 {
        assert(a + b =~= a);
        assert(a + trim_end(b) =~= a);
    } else {
        assert((a + b).last() == b.last());
        assert((a + b).drop_last() =~= a + b.drop_last());
        if is_space(b.last()) {
            lemma_trim_end_concat(a, b.drop_last());
        }
    }
}

/// A string that starts with a character that shows keeps it when it is
/// collapsed and trimmed at its end.
proof fn lemma_first_stays(s: Seq<char>)
    requires
        s.len() > 0,
        !is_blank(s[0]),
    ensures
        collapsed(s).len() > 0,
        collapsed(s)[0] == s[0],
        trim_end(collapsed(s)).len() > 0,
        trim_end(collapsed(s))[0] == s[0],
{
    let head = seq![s[0]];
    assert(head.drop_last() =~= Seq::<char>::empty());
    assert(collapsed(Seq::<char>::empty()) =~= seq![]);
    assert(collapsed(head) =~= head);
    assert(is_space(' '));
    lemma_collapsed_concat(head, s.skip(1));
    assert(head + s.skip(1) =~= s);
    lemma_trim_end_concat(head, collapsed(s.skip(1)));
}

/// Ten to the power of `k`.
spec fn pow10(k: nat) -> nat
    decreases k,
{
    if k == 0 {
        1
    } else {
        10 * pow10((k - 1) as nat)
    }
}

proof fn lemma_decimal_length(n: nat, k: nat)
    requires
        k > 0,
        n < pow10(k),
    ensures
        decimal(n).len() <= k,
    decreases k,
{
    if n >= 10 {
        assert(k > 1) by {
            if k == 1 {
                assert(pow10(0) == 1);
            }
        }
        assert(n / 10 < pow10((k - 1) as nat));
        lemma_decimal_length(n / 10, (k - 1) as nat);
    }
}

/// The prefix that a tab number makes: digits and a colon, twenty-one characters
/// at most, which stay when a label is cleaned.
proof fn lemma_prefix(n: nat)
    requires
        n <= u64::MAX,
    ensures
        1 < decimal(n).push(':').len() <= 21,
        digits_only(decimal(n)),
        collapsed(decimal(n).push(':')) == decimal(n).push(':'),
        forall|i: int|
            0 <= i < decimal(n).push(':').len() ==> !is_blank(#[trigger] decimal(n).push(':')[i]),
{
    assert(pow10(20) > u64::MAX) by {
        reveal_with_fuel(pow10, 21);
    }
    lemma_decimal_length(n, 20);
    lemma_decimal_denotes(n);
    let prefix = decimal(n).push(':');
    assert forall|i: int| 0 <= i < prefix.len() implies !is_blank(#[trigger] prefix[i]) by {
        if i < decimal(n).len() {
            assert(is_digit(decimal(n)[i]));
            assert(prefix[i] == decimal(n)[i]);
        }
    }
    assert(single_spaced(prefix)) by {
        assert(is_blank(' '));
    }
    lemma_single_spaced_is_kept(prefix);
}

/// A label that starts with digits and a colon is stripped of exactly these,
/// where no white space follows.
proof fn lemma_unnumbered(digits: Seq<char>, rest: Seq<char>)
    requires
        digits_only(digits),
        rest.len() > 0 ==> !is_space(rest[0]),
    ensures
        unnumbered(digits.push(':') + rest) == rest,
{
    let label = digits.push(':') + rest;
    lemma_first_colon(digits, rest);
    assert(label.take(digits.len() as int) =~= digits);
    assert(label.skip((digits.len() + 1) as int) =~= rest);
}

proof fn lemma_first_colon(digits: Seq<char>, rest: Seq<char>)
    requires
        forall|i: int| 0 <= i < digits.len() ==> is_digit(#[trigger] digits[i]),
    ensures
        first_colon(digits.push(':') + rest) == digits.len(),
    decreases digits.len(),
{
    let label = digits.push(':') + rest;
    if digits.len() > 0 {
        assert(label[0] == digits[0] && is_digit(digits[0]));
        let fewer = digits.skip(1);
        assert forall|i: int| 0 <= i < fewer.len() implies is_digit(#[trigger] fewer[i]) by {
            assert(fewer[i] == digits[i + 1]);
        }
        lemma_first_colon(fewer, rest);
        assert(label.skip(1) =~= fewer.push(':') + rest);
    }
}

/// The text of a label is not changed any more by a second number: it does not start
/// with a blank character, or has no other characters.
pub open spec fn stays_put(base: Seq<char>) -> bool {
    base.len() > 0 && is_blank(base[0]) ==> forall|i: int|
        0 <= i < base.len() ==> is_blank(#[trigger] base[i])
}

proof fn lemma_blank_collapses(s: Seq<char>)
    requires
        forall|i: int| 0 <= i < s.len() ==> is_blank(#[trigger] s[i]),
    ensures
        collapsed(s) == if s.len() == 0 {
            Seq::<char>::empty()
        } else {
            seq![' ']
        },
        trim_end(collapsed(s)) == Seq::<char>::empty(),
    decreases s.len(),
{
    if s.len() > 0 {
        lemma_blank_collapses(s.drop_last());
        assert(is_blank(s[s.len() - 1]));
        assert(collapsed(s) =~= seq![' ']);
        assert(is_space(' '));
        assert(collapsed(s).drop_last() =~= Seq::<char>::empty());
    }
}

/// A numbered label is the number, a colon and a text, which does not start with
/// white space where the base stays put.
proof fn lemma_numbered_shape(n: nat, base: Seq<char>) -> (text: Seq<char>)
    requires
        n <= u64::MAX,
    ensures
        numbered(n, base, true) == decimal(n).push(':') + text,
        stays_put(base) ==> (text.len() > 0 ==> !is_space(text[0])),
{
    let prefix = decimal(n).push(':');
    lemma_prefix(n);
    assert(is_blank(' '));
    assert(prefix[prefix.len() - 1] == ':');
    lemma_collapsed_concat(prefix, base);
    lemma_trim_end_concat(prefix, collapsed(base));
    let line = prefix + collapsed(base);
    assert(line[0] == prefix[0]);
    assert(trim_start(line) == line);
    let whole = trim_end(collapsed(base));
    if base.len() > 0 && !is_blank(base[0]) {
        lemma_first_stays(base);
    } else if stays_put(base) {
        lemma_blank_collapses(base);
    }
    if (prefix + whole).len() > LABEL_LIMIT {
        let text = whole.take(LABEL_LIMIT - 3 - prefix.len()) + seq!['.', '.', '.'];
        assert(limited(prefix + whole) =~= prefix + text);
        text
    } else {
        whole
    }
}

/// A tab that got its number keeps that label: numbering it once more changes
/// nothing. Left out are labels whose text starts with a blank character and has
/// others: theirs loses a space the second time.
pub proof fn law_renumbering_settles(label: Seq<char>, n: nat)
    requires
        n <= usize::MAX,
        stays_put(unnumbered(label)),
    ensures
        renumbered(numbered(n, unnumbered(label), true), n, true) is None,
{
    let base = unnumbered(label);
    let text = lemma_numbered_shape(n, base);
    lemma_prefix(n);
    lemma_unnumbered(decimal(n), text);
    law_sanitizing_is_idempotent(decimal(n).push(':') + base);
}

/// The text of a clean label stays put.
pub proof fn law_clean_text_stays_put(label: Seq<char>)
    requires
        clean(label) == label,
    ensures
        stays_put(unnumbered(label)),
{
    law_sanitized_label_is_clean(label);
    let text = unnumbered(label);
    if text.len() > 0 {
        let colon = first_colon(label) as int;
        if text != label {
            let rest = label.skip(colon + 1);
            lemma_trim_start(rest);
        }
        assert(!is_blank(text[0]));
    }
}

/// A label with a number is not one that Herdr gives to a new tab: it is more than
/// digits.
pub proof fn law_numbered_label_is_not_default(base: Seq<char>, n: nat)
    requires
        n <= usize::MAX,
    ensures
        !digits_only(numbered(n, base, true)),
{
    let text = lemma_numbered_shape(n, base);
    let whole = decimal(n).push(':') + text;
    assert(whole[decimal(n).len() as int] == ':');
    assert(!is_digit(':'));
}

/// A tab that was named by hand keeps its text: where the text is clean and fits
/// with its number, the new label is the number, a colon and the text, and taking
/// the number off again gives the text.
pub proof fn law_manual_text_is_kept(text: Seq<char>, n: nat)
    requires
        n <= usize::MAX,
        is_clean(text),
        decimal(n).len() + 1 + text.len() <= LABEL_LIMIT,
    ensures
        numbered(n, text, true) == decimal(n).push(':') + text,
        unnumbered(numbered(n, text, true)) == text,
{
    let prefix = decimal(n).push(':');
    let whole = prefix + text;
    lemma_prefix(n);
    assert(is_blank(' '));
    if text.len() > 0 {
        assert(!is_blank(text[0]));
    }
    assert(is_clean(whole)) by {
        assert forall|i: int| 0 <= i < whole.len() && is_blank(#[trigger] whole[i]) implies whole[i]
            == ' ' by {
            if i < prefix.len() {
                assert(whole[i] == prefix[i]);
            } else {
                assert(whole[i] == text[i - prefix.len()]);
            }
        }
        assert forall|i: int| 0 < i < whole.len() && #[trigger] whole[i] == ' ' implies whole[i - 1]
            != ' ' by {
            if i < prefix.len() {
                assert(whole[i] == prefix[i]);
            } else {
                assert(whole[i] == text[i - prefix.len()]);
                if i == prefix.len() {
                    assert(whole[i - 1] == prefix[i - 1]);
                } else {
                    assert(whole[i - 1] == text[i - prefix.len() - 1]);
                }
            }
        }
        assert(whole[0] == prefix[0]);
        if text.len() == 0 {
            assert(whole =~= prefix);
            assert(whole.last() == prefix[prefix.len() - 1]);
        } else {
            assert(whole.last() == text.last());
        }
    }
    law_sanitizing_is_idempotent(whole);
    lemma_unnumbered(decimal(n), text);
}

/// What follows a text is collapsed by itself, but for the last character before it.
proof fn lemma_collapsed_alike(p: Seq<char>, q: Seq<char>, b: Seq<char>)
    requires
        collapsed(p) == collapsed(q),
    ensures
        collapsed(p + b) == collapsed(q + b),
    decreases b.len(),
{
    if b.len() == 0 {
        assert(p + b =~= p);
        assert(q + b =~= q);
    } else {
        lemma_collapsed_alike(p, q, b.drop_last());
        assert((p + b).drop_last() =~= p + b.drop_last());
        assert((q + b).drop_last() =~= q + b.drop_last());
        assert((p + b).last() == b.last());
        assert((q + b).last() == b.last());
    }
}

proof fn lemma_collapsed_behind_blank(x: char, b: Seq<char>)
    requires
        is_blank(x),
        b.len() > 0 ==> !is_blank(b[0]),
    ensures
        collapsed(seq![x] + b) == seq![' '] + collapsed(b),
    decreases b.len(),
{
    let whole = seq![x] + b;
    if b.len() == 0 {
        assert(whole =~= seq![x]);
        assert(seq![x].drop_last() =~= Seq::<char>::empty());
        assert(collapsed(Seq::<char>::empty()) =~= Seq::<char>::empty());
        assert(collapsed(b) =~= Seq::<char>::empty());
        assert(collapsed(whole) =~= seq![' ']);
        assert(seq![' '] + collapsed(b) =~= seq![' ']);
    } else {
        let shorter = b.drop_last();
        lemma_collapsed_behind_blank(x, shorter);
        assert(whole.drop_last() =~= seq![x] + shorter);
        assert(whole.last() == b.last());
        if shorter.len() == 0 {
            assert(b.last() == b[0]);
            assert(collapsed(shorter) =~= Seq::<char>::empty());
        } else {
            lemma_first_stays(shorter);
        }
        assert(collapsed(whole) =~= seq![' '] + collapsed(b));
    }
}

proof fn lemma_trim_start_push(s: Seq<char>, c: char)
    requires
        is_space(c),
    ensures
        trim_start(s.push(c)) == if trim_start(s).len() > 0 {
            trim_start(s).push(c)
        } else {
            Seq::<char>::empty()
        },
    decreases s.len(),
{
    if s.len() == 0 {
        assert(s.push(c).skip(1) =~= Seq::<char>::empty());
        assert(trim_start(s.push(c).skip(1)) =~= Seq::<char>::empty());
    } else {
        assert(s.push(c)[0] == s[0]);
        if is_space(s[0]) {
            assert(s.push(c).skip(1) =~= s.skip(1).push(c));
            lemma_trim_start_push(s.skip(1), c);
        }
    }
}

/// Blank characters in a label count as spaces, several of them as one, and those at
/// its ends as nothing.
pub proof fn law_blank_characters_count_as_one_space(
    a: Seq<char>,
    x: char,
    y: char,
    b: Seq<char>,
)
    requires
        is_space(x) || is_control(x),
        is_space(y) || is_control(y),
    ensures
        clean(a.push(x) + b) == clean(a.push(' ') + b),
        clean(a.push(x).push(y) + b) == clean(a.push(x) + b),
        clean(seq![x] + b) == clean(b),
        clean(a.push(x)) == clean(a),
{
    assert(is_blank(' '));
    assert(a.push(x).drop_last() =~= a);
    assert(a.push(' ').drop_last() =~= a);
    assert(a.push(x).push(y).drop_last() =~= a.push(x));
    lemma_collapsed_alike(a.push(x), a.push(' '), b);
    lemma_collapsed_alike(a.push(x).push(y), a.push(x), b);
    let line = collapsed(a);
    if line.len() == 0 || line.last() != ' ' {
        lemma_trim_start_push(line, ' ');
        let front = trim_start(line);
        if front.len() > 0 {
            assert(front.push(' ').drop_last() =~= front);
        } else {
            assert(front =~= Seq::<char>::empty());
        }
    }
    if b.len() > 0 && is_blank(b[0]) {
        let none = Seq::<char>::empty();
        let rest = b.skip(1);
        assert(none.push(x).drop_last() =~= none);
        assert(none.push(b[0]).drop_last() =~= none);
        assert(collapsed(none) =~= none);
        assert(collapsed(none.push(x)) =~= seq![' ']);
        assert(collapsed(none.push(b[0])) =~= seq![' ']);
        assert(none.push(x).push(b[0]).drop_last() =~= none.push(x));
        lemma_collapsed_alike(none.push(x).push(b[0]), none.push(b[0]), rest);
        assert(none.push(x).push(b[0]) + rest =~= seq![x] + b);
        assert(none.push(b[0]) + rest =~= b);
    } else {
        lemma_collapsed_behind_blank(x, b);
        let spaced = seq![' '] + collapsed(b);
        assert(spaced[0] == ' ');
        assert(spaced.skip(1) =~= collapsed(b));
    }
}

/// A label of single-spaced words is shown as it is up to forty characters; of a
/// longer one the first thirty-seven are shown, and three dots.
pub proof fn law_words_are_shown_up_to_the_limit(s: Seq<char>)
    requires
        forall|i: int|
            0 <= i < s.len() && (is_space(#[trigger] s[i]) || is_control(s[i])) ==> s[i] == ' '
                && 0 < i < s.len() - 1 && s[i - 1] != ' ',
    ensures
        clean(s) == if s.len() <= 40 {
            s
        } else {
            s.take(37) + seq!['.', '.', '.']
        },
{
    assert(single_spaced(s)) by {
        assert forall|i: int| 0 <= i < s.len() && is_blank(#[trigger] s[i]) implies s[i] == ' ' by {
            assert(is_space(s[i]) || is_control(s[i]));
        }
        assert forall|i: int| 0 < i < s.len() && #[trigger] s[i] == ' ' implies s[i - 1] != ' ' by {
            assert(is_space(s[i]));
        }
    }
    lemma_single_spaced_is_kept(s);
    if s.len() > 0 {
        assert(!is_space(s[0]));
        assert(!is_space(s[s.len() - 1]));
    }
}

/// A tab number before a label, with its colon and white space, is taken off it.
pub proof fn law_tab_numbers_are_taken_off(digits: Seq<char>, space: Seq<char>, text: Seq<char>)
    requires
        digits_only(digits),
        is_blank_text(space),
        text.len() > 0 ==> !is_space(text[0]),
    ensures
        unnumbered(digits.push(':') + (space + text)) == text,
{
    let rest = space + text;
    let label = digits.push(':') + rest;
    lemma_first_colon(digits, rest);
    assert(label.take(digits.len() as int) =~= digits);
    assert(label.skip((digits.len() + 1) as int) =~= rest);
    lemma_space_is_trimmed(space, text);
}

proof fn lemma_space_is_trimmed(space: Seq<char>, text: Seq<char>)
    requires
        is_blank_text(space),
        text.len() > 0 ==> !is_space(text[0]),
    ensures
        trim_start(space + text) == text,
    decreases space.len(),
{
    if space.len() == 0 {
        assert(space + text =~= text);
    } else {
        assert(is_space(space[0]));
        assert((space + text)[0] == space[0]);
        assert((space + text).skip(1) =~= space.skip(1) + text);
        assert forall|i: int| 0 <= i < space.skip(1).len() implies is_space(
            #[trigger] space.skip(1)[i],
        ) by {
            assert(is_space(space[i + 1]));
        }
        lemma_space_is_trimmed(space.skip(1), text);
    }
}

proof fn lemma_colon_at(front: Seq<char>, rest: Seq<char>)
    requires
        forall|i: int| 0 <= i < front.len() ==> #[trigger] front[i] != ':',
        rest.len() > 0 ==> rest[0] == ':',
    ensures
        first_colon(front + rest) == front.len(),
    decreases front.len(),
{
    if front.len() == 0 {
        assert(front + rest =~= rest);
    } else {
        assert((front + rest)[0] == front[0]);
        assert((front + rest).skip(1) =~= front.skip(1) + rest);
        assert forall|i: int| 0 <= i < front.skip(1).len() implies #[trigger] front.skip(1)[i]
            != ':' by {
            assert(front[i + 1] != ':');
        }
        lemma_colon_at(front.skip(1), rest);
    }
}

/// A label without a tab number stays as it is: one without a colon, and one with
/// anything but digits before its first colon.
pub proof fn law_other_labels_have_no_tab_number(front: Seq<char>, rest: Seq<char>)
    requires
        forall|i: int| 0 <= i < front.len() ==> #[trigger] front[i] != ':',
        rest.len() > 0 ==> rest[0] == ':' && !digits_only(front),
    ensures
        unnumbered(front + rest) == front + rest,
{
    lemma_colon_at(front, rest);
    assert((front + rest).take(front.len() as int) =~= front);
}

/// Where numbers are shown, the number of the tab stands before the label, and a tab
/// that was named by hand gets its own in the place of the one that it has; where
/// they are not shown, no label changes.
pub proof fn law_numbers_are_shown_where_asked_for(
    label: Seq<char>,
    text: Seq<char>,
    n: nat,
    old_number: Seq<char>,
)
    requires
        n <= usize::MAX,
        is_clean(text),
        decimal(n).len() + 1 + text.len() <= 40,
        digits_only(old_number),
    ensures
        numbered(n, label, false) == label,
        renumbered(label, n, false) is None,
        numbered(n, text, true) == decimal(n).push(':') + text,
        renumbered(old_number.push(':') + text, n, true) == if old_number == decimal(n) {
            None
        } else {
            Some(decimal(n).push(':') + text)
        },
        !text.contains(':') ==> renumbered(text, n, true) == Some(decimal(n).push(':') + text),
{
    law_manual_text_is_kept(text, n);
    let none = Seq::<char>::empty();
    assert(none + text =~= text);
    if text.len() > 0 {
        assert(is_blank(' '));
        assert(!is_blank(text[0]));
    }
    law_tab_numbers_are_taken_off(old_number, none, text);
    let new = decimal(n).push(':') + text;
    let had = old_number.push(':') + text;
    if had == new {
        lemma_colons(old_number, decimal(n), text);
    }
    if !text.contains(':') {
        assert forall|i: int| 0 <= i < text.len() implies #[trigger] text[i] != ':' by {
            assert(text.contains(text[i]));
        }
        assert(text + none =~= text);
        law_other_labels_have_no_tab_number(text, none);
        assert(new[decimal(n).len() as int] == ':');
        assert(new.contains(':'));
    }
}

proof fn lemma_colons(a: Seq<char>, b: Seq<char>, text: Seq<char>)
    requires
        a.push(':') + text == b.push(':') + text,
    ensures
        a == b,
{
    let whole = a.push(':') + text;
    assert(whole.len() == a.len() + 1 + text.len());
    assert((b.push(':') + text).len() == b.len() + 1 + text.len());
    assert(whole.take(a.len() as int) =~= a);
    assert((b.push(':') + text).take(b.len() as int) =~= b);
}

/// An idle pane is labeled by its directory, by its shell, or by both with the
/// separator between them; without a shell it is the directory.
pub proof fn law_idle_panes_are_labeled_as_asked_for(
    directory: Seq<char>,
    shell: Seq<char>,
    separator: Seq<char>,
    mode: IdleLabelMode,
)
    ensures
        idle_text(directory, None, mode, separator) == directory,
        mode == IdleLabelMode::Directory ==> idle_text(directory, Some(shell), mode, separator)
            == directory,
        mode == IdleLabelMode::Shell ==> idle_text(directory, Some(shell), mode, separator)
            == shell,
        mode == IdleLabelMode::DirectoryShell ==> idle_text(
            directory,
            Some(shell),
            mode,
            separator,
        ) == directory + separator + shell,
{
}

} // verus!
