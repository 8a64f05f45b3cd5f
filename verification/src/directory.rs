//! Labels made of a directory: its last components, with the home directory
//! shortened to `~` where that is asked for.
use crate::text::{
    ascii_only, byte_len, char_lower, char_width, code, is_separator, lower, lower_all, same_text,
    splits_after, str_of, to_chars,
};
use vstd::prelude::*;
use vstd::string::{StrSliceExecFns, StringExecFns};

verus! {

/// The views of a row of strings.
pub open spec fn views(parts: Seq<String>) -> Seq<Seq<char>> {
    parts.map_values(|p: String| p@)
}

/// The components of a path: the longest runs of characters that are no
/// separators, in order.
pub open spec fn components(path: Seq<char>) -> Seq<Seq<char>>
    decreases path.len(),
{
    if path.len() == 0 {
        seq![]
    } else {
        let before = components(path.drop_last());
        if is_separator(path.last()) {
            before
        } else if path.len() == 1 || is_separator(path[path.len() - 2]) {
            before.push(seq![path.last()])
        } else {
            before.drop_last().push(before.last().push(path.last()))
        }
    }
}

/// Components with a slash between each two.
pub open spec fn join(parts: Seq<Seq<char>>) -> Seq<char>
    decreases parts.len(),
{
    if parts.len() == 0 {
        seq![]
    } else if parts.len() == 1 {
        parts[0]
    } else {
        join(parts.drop_last()).push('/') + parts.last()
    }
}

/// The last `depth` components, all of them where there are fewer, and one at
/// least where there is one.
pub open spec fn tail(parts: Seq<Seq<char>>, depth: nat) -> Seq<Seq<char>> {
    let wanted: nat = if depth == 0 {
        1
    } else {
        depth
    };
    if parts.len() <= wanted {
        parts
    } else {
        parts.skip(parts.len() - wanted)
    }
}

/// The label of a directory: its last components, or `/` where it has none.
pub open spec fn label_of(path: Seq<char>, depth: nat) -> Seq<char> {
    if components(path).len() == 0 {
        seq!['/']
    } else {
        join(tail(components(path), depth))
    }
}

/// `path` with slashes for backslashes.
pub open spec fn slashed(path: Seq<char>) -> Seq<char> {
    path.map_values(|c: char| if c == '\\' { '/' } else { c })
}

/// `path` without slashes at its end, but for one that is all of it.
pub open spec fn unslashed(path: Seq<char>) -> Seq<char>
    decreases path.len(),
{
    if path.len() > 1 && path.last() == '/' {
        unslashed(path.drop_last())
    } else {
        path
    }
}

/// The form in which paths are compared.
pub open spec fn normalized(path: Seq<char>) -> Seq<char> {
    unslashed(slashed(path))
}

/// The same text, or the same but for the case of ASCII letters.
pub open spec fn same(a: Seq<char>, b: Seq<char>, case_insensitive: bool) -> bool {
    if case_insensitive {
        lower_all(a) == lower_all(b)
    } else {
        a == b
    }
}

/// `path` begins with `prefix`.
pub open spec fn begins_with(path: Seq<char>, prefix: Seq<char>, case_insensitive: bool) -> bool {
    prefix.len() <= path.len() && same(path.take(prefix.len() as int), prefix, case_insensitive)
}

/// What every path beneath a home directory begins with.
pub open spec fn home_prefix(home: Seq<char>) -> Seq<char> {
    if normalized(home) == seq!['/'] {
        seq!['/']
    } else {
        normalized(home).push('/')
    }
}

/// The path of `path` relative to `home`, empty for `home` itself; `None` for a
/// path that is not beneath it.
pub open spec fn relative(path: Seq<char>, home: Seq<char>, case_insensitive: bool) -> Option<
    Seq<char>,
> {
    if same(normalized(path), normalized(home), case_insensitive) {
        Some(seq![])
    } else if begins_with(normalized(path), home_prefix(home), case_insensitive) {
        Some(normalized(path).skip(home_prefix(home).len() as int))
    } else {
        None
    }
}

/// The bytes of `path` can be cut where the prefix of `home` would end: the
/// place is not in the middle of a character.
pub open spec fn comparable(path: Seq<char>, home: Seq<char>) -> bool {
    splits_after(normalized(path), byte_len(home_prefix(home)) as int)
}

/// The label of a directory, with the home directory as `~` where one is given.
pub open spec fn label_with_home(
    path: Seq<char>,
    depth: nat,
    home: Option<Seq<char>>,
    case_insensitive: bool,
) -> Seq<char> {
    match home {
        None => label_of(path, depth),
        Some(h) => match relative(path, h, case_insensitive) {
            None => label_of(path, depth),
            Some(rest) => if rest.len() == 0 {
                seq!['~']
            } else {
                seq!['~', '/'] + label_of(rest, depth)
            },
        },
    }
}

/// The components of a path.
pub fn path_components(path: &str) -> (parts: Vec<String>)
    ensures
        views(parts@) == components(path@),
{
    let chars = to_chars(path);
    let mut parts: Vec<String> = Vec::new();
    let mut current = String::new();
    assert(views(parts@) =~= components(path@.take(0)));
    for i in 0..chars.len()
        invariant
            chars@ == path@,
            current@.len() > 0 <==> (i > 0 && !is_separator(path@[i - 1])),
            components(path@.take(i as int)) == if current@.len() > 0 {
                views(parts@).push(current@)
            } else {
                views(parts@)
            },
    {
        let c = chars[i];
        let ghost next = path@.take(i + 1);
        assert(next.drop_last() =~= path@.take(i as int));
        if c == '/' || c == '\\' {
            if !current.as_str().is_empty() {
                let ghost before = parts@;
                parts.push(current);
                assert(views(parts@) =~= views(before).push(current@));
            }
            current = String::new();
        } else {
            let ghost before = current@;
            current.push(c);
            assert(views(parts@).push(before).drop_last() =~= views(parts@));
            assert(before.len() == 0 ==> current@ =~= seq![c]);
        }
    }
    assert(path@.take(chars.len() as int) =~= path@);
    if !current.as_str().is_empty() {
        let ghost before = parts@;
        parts.push(current);
        assert(views(parts@) =~= views(before).push(current@));
    }
    parts
}

/// The components from the one at `start` on, joined by slashes.
fn join_from(parts: &Vec<String>, start: usize) -> (s: String)
    requires
        start < parts.len(),
    ensures
        s@ == join(views(parts@).skip(start as int)),
{
    let mut s = parts[start].clone();
    let ghost all = views(parts@).skip(start as int);
    assert(all.take(1).len() == 1 && all.take(1)[0] == s@);
    let mut i: usize = start + 1;
    while i < parts.len()
        invariant
            start < i <= parts.len(),
            all == views(parts@).skip(start as int),
            s@ == join(all.take(i - start)),
        decreases parts.len() - i,
    {
        let ghost next = all.take(i - start + 1);
        assert(next.drop_last() =~= all.take(i - start));
        assert(next.last() == parts@[i as int]@);
        s.push('/');
        s.append(parts[i].as_str());
        i += 1;
    }
    assert(all.take(parts.len() - start) =~= all);
    s
}

/// The label of a directory: its last `depth` components.
pub fn directory_label(path: &str, depth: usize) -> (label: String)
    ensures
        label@ == label_of(path@, depth as nat),
{
    let parts = path_components(path);
    if parts.len() == 0 {
        let mut label = String::new();
        label.push('/');
        assert(label@ =~= seq!['/']);
        label
    } else {
        let wanted: usize = if depth == 0 {
            1
        } else {
            depth
        };
        let start: usize = if parts.len() <= wanted {
            0
        } else {
            parts.len() - wanted
        };
        assert(views(parts@).skip(0) =~= views(parts@));
        join_from(&parts, start)
    }
}

/// The form in which paths are compared: slashes for backslashes, none at the
/// end.
pub fn normalize_path_for_comparison(path: &str) -> (n: String)
    ensures
        n@ == normalized(path@),
{
    let chars = to_chars(path);
    let mut s = String::new();
    for i in 0..chars.len()
        invariant
            chars@ == path@,
            s@ == slashed(path@).take(i as int),
    {
        let c = chars[i];
        s.push(if c == '\\' { '/' } else { c });
    }
    assert(s@ =~= slashed(path@));
    let all = to_chars(s.as_str());
    let mut end: usize = all.len();
    assert(all@.take(end as int) =~= all@);
    while end > 1 && all[end - 1] == '/'
        invariant
            all@ == slashed(path@),
            end <= all.len(),
            unslashed(all@) == unslashed(all@.take(end as int)),
        decreases end,
    {
        assert(all@.take(end as int).drop_last() =~= all@.take(end - 1));
        end -= 1;
    }
    assert(s@.subrange(0, end as int) =~= all@.take(end as int));
    let kept = s.as_str().substring_char(0, end);
    kept.to_owned()
}

/// Whether two strings are the same, but for the case of ASCII letters where
/// that is not to count.
fn same_path(a: &str, b: &str, case_insensitive: bool) -> (r: bool)
    ensures
        r == same(a@, b@, case_insensitive),
{
    if !case_insensitive {
        return same_text(a, b);
    }
    let xs = to_chars(a);
    let ys = to_chars(b);
    if xs.len() != ys.len() {
        assert(lower_all(a@).len() != lower_all(b@).len());
        return false;
    }
    for i in 0..xs.len()
        invariant
            xs@ == a@,
            ys@ == b@,
            xs.len() == ys.len(),
            forall|j: int| 0 <= j < i ==> lower(#[trigger] xs@[j]) == lower(ys@[j]),
    {
        if char_lower(xs[i]) != char_lower(ys[i]) {
            assert(lower_all(a@)[i as int] != lower_all(b@)[i as int]);
            return false;
        }
    }
    assert(lower_all(a@) =~= lower_all(b@));
    true
}

/// Whether `path` begins with `prefix`. The path is cut where the bytes of the
/// prefix end, so that place has to lie between two characters.
pub fn is_home_prefix(path: &str, prefix: &str, case_insensitive: bool) -> (r: bool)
    requires
        splits_after(path@, byte_len(prefix@) as int),
    ensures
        r == begins_with(path@, prefix@, case_insensitive),
{
    let len: usize = prefix.unicode_len();
    if path.unicode_len() < len {
        return false;
    }
    let head = path.substring_char(0, len);
    assert(head@ =~= path@.take(len as int));
    same_path(head, prefix, case_insensitive)
}

/// What every path beneath a home directory begins with.
fn prefix_of_home(home: &str) -> (prefix: String)
    ensures
        prefix@ == home_prefix(home@),
{
    let mut prefix = normalize_path_for_comparison(home);
    let chars = to_chars(prefix.as_str());
    if chars.len() == 1 && chars[0] == '/' {
        assert(prefix@ =~= seq!['/']);
    } else {
        prefix.push('/');
    }
    prefix
}

/// The path of `path` relative to `home`, empty for `home` itself; `None` for a
/// path that is not beneath it.
pub fn relative_home_path(path: &str, home: &str, case_insensitive: bool) -> (r: Option<String>)
    requires
        comparable(path@, home@),
    ensures
        r is Some == relative(path@, home@, case_insensitive) is Some,
        r matches Some(s) ==> relative(path@, home@, case_insensitive) == Some(s@),
{
    let path_form = normalize_path_for_comparison(path);
    let home_form = normalize_path_for_comparison(home);
    let prefix = prefix_of_home(home);
    if same_path(path_form.as_str(), home_form.as_str(), case_insensitive) {
        let r = String::new();
        assert(r@ =~= seq![]);
        Some(r)
    } else if is_home_prefix(path_form.as_str(), prefix.as_str(), case_insensitive) {
        let start: usize = prefix.as_str().unicode_len();
        let end: usize = path_form.as_str().unicode_len();
        let rest = path_form.as_str().substring_char(start, end);
        assert(rest@ =~= path_form@.skip(start as int));
        Some(rest.to_owned())
    } else {
        None
    }
}

/// The label of a directory, with the home directory as `~` where one is given.
pub fn directory_label_with_home(
    path: &str,
    depth: usize,
    home: Option<&str>,
    case_insensitive: bool,
) -> (label: String)
    requires
        home matches Some(h) ==> comparable(path@, h@),
    ensures
        label@ == label_with_home(
            path@,
            depth as nat,
            str_of(home),
            case_insensitive,
        ),
{
    match home {
        None => directory_label(path, depth),
        Some(h) => match relative_home_path(path, h, case_insensitive) {
            None => directory_label(path, depth),
            Some(rest) => {
                let mut label = String::new();
                label.push('~');
                if rest.as_str().is_empty() {
                    assert(label@ =~= seq!['~']);
                    label
                } else {
                    label.push('/');
                    assert(label@ =~= seq!['~', '/']);
                    label.append(directory_label(rest.as_str(), depth).as_str());
                    label
                }
            },
        },
    }
}

/// Whether `path` can be held against `home`: the bytes of the path can be cut
/// where the prefix of the home directory would end.
pub fn is_comparable(path: &str, home: &str) -> (b: bool)
    ensures
        b == comparable(path@, home@),
{
    let path_form = normalize_path_for_comparison(path);
    let prefix = to_chars(prefix_of_home(home).as_str());
    let mut left: u128 = 0;
    assert(prefix@.take(0) =~= Seq::<char>::empty());
    for i in 0..prefix.len()
        invariant
            left == byte_len(prefix@.take(i as int)),
            left <= 4 * i,
    {
        assert(prefix@.take(i + 1).drop_last() =~= prefix@.take(i as int));
        left = left + char_width(prefix[i]) as u128;
    }
    assert(prefix@.take(prefix.len() as int) =~= prefix@);
    let chars = to_chars(path_form.as_str());
    let ghost wanted = left as int;
    assert(chars@.skip(0) =~= chars@);
    let mut i: usize = 0;
    while i < chars.len() && left > 0
        invariant
            i <= chars.len(),
            comparable(path@, home@) == splits_after(chars@, wanted),
            splits_after(chars@, wanted) == splits_after(chars@.skip(i as int), left as int),
        decreases chars.len() - i,
    {
        let w: u128 = char_width(chars[i]) as u128;
        assert(chars@.skip(i as int)[0] == chars@[i as int]);
        assert(chars@.skip(i as int).skip(1) =~= chars@.skip(i + 1));
        if w > left {
            return false;
        }
        left = left - w;
        i += 1;
    }
    true
}

// ---------------------------------------------------------------------- laws

/// A component as paths have it: it holds a character and no separator.
pub open spec fn is_component(part: Seq<char>) -> bool {
    part.len() > 0 && forall|i: int| 0 <= i < part.len() ==> !is_separator(#[trigger] part[i])
}

/// Every component of a path holds a character and no separator, and the last
/// one is still open where the path does not end in a separator.
proof fn lemma_components(path: Seq<char>)
    ensures
        forall|k: int|
            0 <= k < components(path).len() ==> is_component(#[trigger] components(path)[k]),
        path.len() > 0 && !is_separator(path.last()) ==> components(path).len() > 0,
    decreases path.len(),
{
    if path.len() > 0 {
        let before = components(path.drop_last());
        lemma_components(path.drop_last());
        assert forall|k: int| 0 <= k < components(path).len() implies is_component(
            #[trigger] components(path)[k],
        ) by {
            if k < before.len() {
                assert(is_component(before[k]));
            }
        }
    }
}

/// A component after a separator becomes the last component of the path.
proof fn lemma_component_after_separator(before: Seq<char>, separator: char, part: Seq<char>)
    requires
        is_component(part),
        is_separator(separator),
    ensures
        components(before.push(separator) + part) == components(before).push(part),
    decreases part.len(),
{
    let path = before.push(separator) + part;
    assert(before.push(separator).drop_last() =~= before);
    assert(components(before.push(separator)) == components(before));
    assert(!is_separator(part[part.len() - 1]));
    if part.len() == 1 {
        assert(path.drop_last() =~= before.push(separator));
        assert(path[path.len() - 2] == separator);
        assert(seq![path.last()] =~= part);
    } else {
        let shorter = part.drop_last();
        assert(is_component(shorter)) by {
            assert forall|i: int| 0 <= i < shorter.len() implies !is_separator(
                #[trigger] shorter[i],
            ) by {
                assert(shorter[i] == part[i]);
            }
        }
        lemma_component_after_separator(before, separator, shorter);
        assert(path.drop_last() =~= before.push(separator) + shorter);
        assert(path[path.len() - 2] == part[part.len() - 2]);
        assert(path.last() == part[part.len() - 1]);
        assert(components(before).push(shorter).drop_last() =~= components(before));
        assert(shorter.push(part.last()) =~= part);
    }
}

/// A component alone is a path of one component.
proof fn lemma_single_component(part: Seq<char>)
    requires
        is_component(part),
    ensures
        components(part) == seq![part],
    decreases part.len(),
{
    assert(!is_separator(part[part.len() - 1]));
    if part.len() == 1 {
        assert(components(part.drop_last()) =~= seq![]);
        assert(seq![part.last()] =~= part);
        assert(components(part) =~= seq![part]);
    } else {
        let shorter = part.drop_last();
        assert(is_component(shorter)) by {
            assert forall|i: int| 0 <= i < shorter.len() implies !is_separator(
                #[trigger] shorter[i],
            ) by {
                assert(shorter[i] == part[i]);
            }
        }
        lemma_single_component(shorter);
        assert(!is_separator(part[part.len() - 2]));
        assert(shorter.push(part.last()) =~= part);
        assert(components(part) =~= seq![part]);
    }
}

/// Joining components and splitting the result gives the components back.
pub proof fn lemma_join_is_undone(parts: Seq<Seq<char>>)
    requires
        forall|k: int| 0 <= k < parts.len() ==> is_component(#[trigger] parts[k]),
    ensures
        components(join(parts)) == parts,
    decreases parts.len(),
{
    if parts.len() == 0 {
        assert(components(join(parts)) =~= parts);
    } else if parts.len() == 1 {
        lemma_single_component(parts[0]);
        assert(components(join(parts)) =~= parts);
    } else {
        assert forall|k: int| 0 <= k < parts.drop_last().len() implies is_component(
            #[trigger] parts.drop_last()[k],
        ) by {
            assert(parts.drop_last()[k] == parts[k]);
        }
        lemma_join_is_undone(parts.drop_last());
        lemma_component_after_separator(join(parts.drop_last()), '/', parts.last());
        assert(parts.drop_last().push(parts.last()) =~= parts);
    }
}

/// The label of a directory has exactly the last `depth` components of its path
/// (one for a depth of zero, all of them where there are fewer), and it is never
/// empty.
pub proof fn law_label_shows_last_components(path: Seq<char>, depth: nat)
    ensures
        components(label_of(path, depth)) == tail(components(path), depth),
        label_of(path, depth).len() > 0,
{
    let parts = components(path);
    lemma_components(path);
    if parts.len() == 0 {
        assert(seq!['/'].drop_last() =~= Seq::<char>::empty());
        assert(components(Seq::<char>::empty()) =~= seq![]);
        assert(components(seq!['/']) == components(seq!['/'].drop_last()));
    } else {
        let shown = tail(parts, depth);
        assert forall|k: int| 0 <= k < shown.len() implies is_component(#[trigger] shown[k]) by {
            assert(shown[k] == parts[parts.len() - shown.len() + k]);
        }
        lemma_join_is_undone(shown);
        assert(join(shown).len() > 0) by {
            assert(shown.len() > 0);
            if join(shown).len() == 0 {
                assert(components(join(shown)).len() == 0);
            }
        }
    }
}

/// Separators at the end of a path do not change its label.
pub proof fn law_trailing_separator_does_not_count(path: Seq<char>, separator: char, depth: nat)
    requires
        is_separator(separator),
    ensures
        label_of(path.push(separator), depth) == label_of(path, depth),
{
    assert(path.push(separator).drop_last() =~= path);
}

/// Slashes for backslashes leave the components as they are.
proof fn lemma_slashed_components(path: Seq<char>)
    ensures
        components(slashed(path)) == components(path),
    decreases path.len(),
{
    let other = slashed(path);
    if path.len() > 0 {
        lemma_slashed_components(path.drop_last());
        assert(other.drop_last() =~= slashed(path.drop_last()));
        assert(is_separator(other.last()) == is_separator(path.last()));
        if path.len() > 1 {
            assert(is_separator(other[path.len() - 2]) == is_separator(path[path.len() - 2]));
        }
    } else {
        assert(other =~= path);
    }
}

/// Slashes that are taken off the end are all that is taken off, and leave the
/// components as they are.
proof fn lemma_unslashed(path: Seq<char>)
    ensures
        unslashed(path).len() <= path.len(),
        path.take(unslashed(path).len() as int) == unslashed(path),
        forall|i: int| unslashed(path).len() <= i < path.len() ==> #[trigger] path[i] == '/',
        components(unslashed(path)) == components(path),
    decreases path.len(),
{
    if path.len() > 1 && path.last() == '/' {
        let shorter = path.drop_last();
        lemma_unslashed(shorter);
        let end = unslashed(shorter).len() as int;
        assert(path.take(end) =~= shorter.take(end));
        assert forall|i: int| end <= i < path.len() implies #[trigger] path[i] == '/' by {
            if i < shorter.len() {
                assert(shorter[i] == path[i]);
            }
        }
    } else {
        assert(path.take(path.len() as int) =~= path);
    }
}

/// Before something else than slashes, slashes at the end are taken off as without
/// what stands before.
proof fn lemma_unslashed_concat(before: Seq<char>, path: Seq<char>, at: int)
    requires
        0 <= at < path.len(),
        path[at] != '/',
    ensures
        unslashed(before + path) == before + unslashed(path),
    decreases path.len(),
{
    let whole = before + path;
    assert(whole.last() == path.last());
    if path.last() == '/' {
        let shorter = path.drop_last();
        assert(whole.drop_last() =~= before + shorter);
        assert(shorter[at] == path[at]);
        lemma_unslashed_concat(before, shorter, at);
    }
}

/// Separators at the start of a path add no components.
proof fn lemma_leading_separators(before: Seq<char>, path: Seq<char>)
    requires
        forall|i: int| 0 <= i < before.len() ==> is_separator(#[trigger] before[i]),
    ensures
        components(before + path) == components(path),
    decreases before.len() + path.len(),
{
    let whole = before + path;
    if path.len() > 0 {
        lemma_leading_separators(before, path.drop_last());
        assert(whole.drop_last() =~= before + path.drop_last());
        assert(whole.last() == path.last());
        if path.len() > 1 {
            assert(whole[whole.len() - 2] == path[path.len() - 2]);
        } else if before.len() > 0 {
            assert(whole[whole.len() - 2] == before[before.len() - 1]);
        }
    } else if before.len() > 0 {
        let fewer = before.drop_last();
        assert forall|i: int| 0 <= i < fewer.len() implies is_separator(#[trigger] fewer[i]) by {
            assert(fewer[i] == before[i]);
        }
        lemma_leading_separators(fewer, path);
        assert(whole.last() == before[before.len() - 1]);
        assert(whole.drop_last() =~= fewer + path);
    } else {
        assert(whole =~= path);
    }
}

/// A path with components has a character that is no separator.
proof fn lemma_has_character(path: Seq<char>) -> (at: int)
    requires
        components(path).len() > 0,
    ensures
        0 <= at < path.len(),
        !is_separator(path[at]),
{
    if forall|i: int| 0 <= i < path.len() ==> is_separator(#[trigger] path[i]) {
        lemma_leading_separators(path, Seq::empty());
        assert(path + Seq::<char>::empty() =~= path);
        assert(components(Seq::<char>::empty()).len() == 0);
    }
    choose|i: int| 0 <= i < path.len() && !is_separator(#[trigger] path[i])
}

/// The home directory itself is shown as `~`, and what lies beneath it as `~/`
/// and the label of the rest of the path; the home directory may be written in
/// any form that counts as the same.
pub proof fn law_home_is_shortened(
    home: Seq<char>,
    written: Seq<char>,
    separator: char,
    rest: Seq<char>,
    depth: nat,
    insensitive: bool,
)
    requires
        same(normalized(written), normalized(home), insensitive),
        is_separator(separator),
        components(rest).len() > 0,
    ensures
        label_with_home(written, depth, Some(home), insensitive) == seq!['~'],
        label_with_home(written.push(separator) + rest, depth, Some(home), insensitive) == seq![
            '~',
            '/',
        ] + label_of(rest, depth),
{
    let path = written.push(separator) + rest;
    let front = slashed(written).push('/');
    let tail_end = slashed(rest);
    let at = lemma_has_character(rest);
    assert(slashed(path) =~= front + tail_end);
    assert(tail_end[at] == rest[at]);
    lemma_unslashed_concat(front, tail_end, at);
    lemma_unslashed(tail_end);
    lemma_slashed_components(rest);
    let kept = unslashed(tail_end);
    let whole = front + kept;
    assert(normalized(path) == whole);
    lemma_unslashed(slashed(written));
    let own = normalized(written);
    let base = normalized(home);
    let n = own.len() as int;
    assert(lower_all(own).len() == own.len() && lower_all(base).len() == base.len());
    assert(own.len() == base.len());
    assert(lower_all(whole).len() == whole.len());
    assert(whole.len() > own.len());
    assert(whole.take(n) =~= own);
    assert(front[n] == '/');
    let prefix = home_prefix(home);
    let over: int = if base == seq!['/'] {
        assert(own.len() == 1);
        assert(insensitive ==> lower_all(own)[0] == lower_all(base)[0]);
        assert(own[0] == '/');
        assert(own =~= base);
        1
    } else {
        n + 1
    };
    assert(prefix.len() == over);
    if base != seq!['/'] {
        assert(whole.take(over) =~= own.push('/'));
        assert(lower_all(own.push('/')) =~= lower_all(own).push('/'));
        assert(lower_all(base.push('/')) =~= lower_all(base).push('/'));
    } else {
        assert(whole.take(over) =~= own);
    }
    assert(same(whole.take(over), prefix, insensitive));
    let slashes = front.skip(over);
    assert(whole.skip(over) =~= slashes + kept);
    assert forall|i: int| 0 <= i < slashes.len() implies is_separator(#[trigger] slashes[i]) by {
        assert(slashes[i] == front[over + i]);
    }
    lemma_leading_separators(slashes, kept);
}

/// Where a path is shown relative to the home directory, the prefix of the home
/// directory and the relative path are the whole path again, but for the case of
/// letters where that does not count.
pub proof fn law_relative_path_is_the_rest(
    path: Seq<char>,
    home: Seq<char>,
    case_insensitive: bool,
)
    requires
        relative(path, home, case_insensitive) is Some,
        relative(path, home, case_insensitive)->0.len() > 0,
    ensures
        same(
            normalized(path),
            home_prefix(home) + relative(path, home, case_insensitive)->0,
            case_insensitive,
        ),
{
    let whole = normalized(path);
    let prefix = home_prefix(home);
    let n = prefix.len() as int;
    let rest = relative(path, home, case_insensitive)->0;
    assert(whole =~= whole.take(n) + rest);
    assert(lower_all(whole.take(n) + rest) =~= lower_all(whole.take(n)) + lower_all(rest));
    assert(lower_all(prefix + rest) =~= lower_all(prefix) + lower_all(rest));
}

/// The name of a file or a directory: it holds a character, and neither a slash nor a
/// backslash.
pub open spec fn is_name(part: Seq<char>) -> bool {
    part.len() > 0 && forall|i: int|
        0 <= i < part.len() ==> #[trigger] part[i] != '/' && part[i] != '\\'
}

/// Paths are cut at slashes and at backslashes: a name behind one of them is one more
/// component, and a separator alone adds none.
pub proof fn law_paths_are_cut_at_separators(path: Seq<char>, separator: char, name: Seq<char>)
    requires
        separator == '/' || separator == '\\',
        is_name(name),
    ensures
        components(seq![]) == Seq::<Seq<char>>::empty(),
        components(path.push(separator)) == components(path),
        components(name) == seq![name],
        components(path.push(separator) + name) == components(path).push(name),
{
    assert(is_component(name));
    assert(path.push(separator).drop_last() =~= path);
    lemma_single_component(name);
    lemma_component_after_separator(path, separator, name);
}

/// A directory is shown by its last component, and where more are to be shown by a
/// slash and those before it. A path of one component is shown by that, and one of
/// none as a slash. At least one component is shown.
pub proof fn law_directory_is_shown_by_its_end(
    path: Seq<char>,
    separator: char,
    name: Seq<char>,
    depth: nat,
)
    requires
        separator == '/' || separator == '\\',
        is_name(name),
    ensures
        ({
            let whole = path.push(separator) + name;
            &&& label_of(name, depth) == name
            &&& label_of(whole, 1) == name
            &&& label_of(whole, 0) == name
            &&& components(path).len() == 0 ==> label_of(path, depth) == seq!['/'] && label_of(
                whole,
                depth,
            ) == name
            &&& components(path).len() > 0 && depth > 0 ==> label_of(whole, depth + 1) == label_of(
                path,
                depth,
            ).push('/') + name
        }),
{
    let whole = path.push(separator) + name;
    law_paths_are_cut_at_separators(path, separator, name);
    let parts = components(path);
    assert(parts.push(name).drop_last() =~= parts);
    assert(parts.push(name).skip(parts.len() as int) =~= seq![name]);
    assert(tail(seq![name], depth) =~= seq![name]);
    assert(tail(parts.push(name), 1) =~= seq![name]);
    assert(tail(parts.push(name), 0) =~= seq![name]);
    if parts.len() == 0 {
        assert(parts.push(name) =~= seq![name]);
    } else if depth > 0 {
        assert(tail(parts.push(name), depth + 1) =~= tail(parts, depth).push(name));
        assert(tail(parts, depth).push(name).drop_last() =~= tail(parts, depth));
    }
}

/// For comparison, paths have slashes for backslashes and none at their ends, but for
/// a slash that is all of them; nothing else of them changes.
pub proof fn law_paths_are_compared_by_their_text(path: Seq<char>, i: int)
    ensures
        normalized(path).len() <= path.len(),
        0 <= i < normalized(path).len() ==> normalized(path)[i] == if path[i] == '\\' {
            '/'
        } else {
            path[i]
        },
        normalized(path).len() <= i < path.len() ==> path[i] == '/' || path[i] == '\\',
        normalized(path).len() > 1 ==> normalized(path).last() != '/',
        path.len() > 0 ==> normalized(path).len() > 0,
{
    lemma_unslashed(slashed(path));
    lemma_unslashed_end(slashed(path));
    let kept = normalized(path);
    if 0 <= i < kept.len() {
        assert(slashed(path).take(kept.len() as int)[i] == slashed(path)[i]);
    } else if kept.len() <= i < path.len() {
        assert(slashed(path)[i] == '/');
    }
}

proof fn lemma_unslashed_end(path: Seq<char>)
    ensures
        unslashed(path).len() > 1 ==> unslashed(path).last() != '/',
        path.len() > 0 ==> unslashed(path).len() > 0,
    decreases path.len(),
{
    if path.len() > 1 && path.last() == '/' {
        lemma_unslashed_end(path.drop_last());
    }
}

/// A path is shown relative to the home directory only where it is that directory or
/// lies beneath it: it begins with it, letter for letter, or but for the case of
/// letters where that does not count, and a slash follows. Any other path is shown as
/// if there were no home directory.
pub proof fn law_only_the_home_directory_is_shortened(
    path: Seq<char>,
    home: Seq<char>,
    depth: nat,
    insensitive: bool,
)
    ensures
        label_with_home(path, depth, None, insensitive) == label_of(path, depth),
        ({
            let p = normalized(path);
            let h = normalized(home);
            let n = h.len() as int;
            let begins = p.len() >= n && if insensitive {
                lower_all(p.take(n)) == lower_all(h)
            } else {
                p.take(n) == h
            };
            let beneath = p.len() == n || h == seq!['/'] || p[n] == '/';
            !(begins && beneath) ==> label_with_home(path, depth, Some(home), insensitive)
                == label_of(path, depth)
        }),
{
    let p = normalized(path);
    let h = normalized(home);
    let n = h.len() as int;
    if same(p, h, insensitive) {
        assert(lower_all(p).len() == p.len() && lower_all(h).len() == h.len());
        assert(p.take(n) =~= p);
    }
    if begins_with(p, home_prefix(home), insensitive) && h != seq!['/'] {
        let front = p.take(n + 1);
        assert(front.take(n) =~= p.take(n));
        if insensitive {
            assert(lower_all(front)[n] == lower(p[n]));
            assert(lower_all(h.push('/'))[n] == lower('/'));
            assert(lower(p[n]) == '/');
            assert(p[n] == '/');
            assert(lower_all(front).take(n) =~= lower_all(p.take(n)));
            assert(lower_all(h.push('/')).take(n) =~= lower_all(h));
        } else {
            assert(front[n] == '/');
            assert(h.push('/').take(n) =~= h);
        }
    }
}

proof fn lemma_ascii_splits(s: Seq<char>, n: int)
    requires
        ascii_only(s),
        n >= 0,
    ensures
        splits_after(s, n),
    decreases s.len(),
{
    if s.len() > 0 && n > 0 {
        assert(code(s[0]) < 0x80);
        assert forall|i: int| 0 <= i < s.skip(1).len() implies code(#[trigger] s.skip(1)[i])
            < 0x80 by {
            assert(code(s[i + 1]) < 0x80);
        }
        lemma_ascii_splits(s.skip(1), n - 1);
    }
}

/// Paths of ASCII characters can be held against any home directory.
pub proof fn law_ascii_paths_are_comparable(path: Seq<char>, home: Seq<char>)
    requires
        ascii_only(path),
    ensures
        comparable(path, home),
{
    lemma_unslashed(slashed(path));
    let kept = normalized(path);
    assert forall|i: int| 0 <= i < kept.len() implies code(#[trigger] kept[i]) < 0x80 by {
        law_paths_are_compared_by_their_text(path, i);
        assert(code(path[i]) < 0x80);
    }
    lemma_ascii_splits(kept, byte_len(home_prefix(home)) as int);
}

} // verus!
