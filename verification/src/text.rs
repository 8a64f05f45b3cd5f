//! Strings as sequences of characters: character classes, trimming, splitting and
//! the order of strings.
use vstd::prelude::*;
use vstd::std_specs::iter::IteratorSpec;

verus! {

/// `String::push` appends the given character to the end of the string.
pub assume_specification[ String::push ](s: &mut String, c: char)
    ensures
        final(s)@ == old(s)@.push(c),
;

/// What `str::to_lowercase` makes of a string.
pub uninterp spec fn lowercase(s: Seq<char>) -> Seq<char>;

/// `str::to_lowercase`: the lowercase mapping of Unicode, which is named
/// `lowercase` here. Of strings of ASCII characters it is also claimed that only
/// `A` to `Z` change, each to its small letter.
#[verifier::external_body]
pub(crate) fn to_lowercase(s: &str) -> (lower: String)
    ensures
        lower@ == lowercase(s@),
        ascii_only(s@) ==> lower@ == lower_all(s@),
{
    s.to_lowercase()
}

// ---------------------------------------------------------------- characters

/// The code point of a character.
pub open spec fn code(c: char) -> int {
    c as u32 as int
}

/// Unicode's `White_Space` property.
pub open spec fn is_space(c: char) -> bool {
    ||| 0x09 <= code(c) <= 0x0d
    ||| code(c) == 0x20
    ||| code(c) == 0x85
    ||| code(c) == 0xa0
    ||| code(c) == 0x1680
    ||| 0x2000 <= code(c) <= 0x200a
    ||| code(c) == 0x2028
    ||| code(c) == 0x2029
    ||| code(c) == 0x202f
    ||| code(c) == 0x205f
    ||| code(c) == 0x3000
}

/// Unicode's general category `Cc`.
pub open spec fn is_control(c: char) -> bool {
    code(c) <= 0x1f || 0x7f <= code(c) <= 0x9f
}

/// An ASCII digit.
pub open spec fn is_digit(c: char) -> bool {
    0x30 <= code(c) <= 0x39
}

/// A character that separates the components of a path, on any platform.
pub open spec fn is_separator(c: char) -> bool {
    c == '/' || c == '\\'
}

/// `A` to `Z` become `a` to `z`; every other character stays.
pub open spec fn lower(c: char) -> char {
    if 0x41 <= code(c) <= 0x5a {
        (code(c) + 0x20) as char
    } else {
        c
    }
}

/// `a` to `z` become `A` to `Z`; every other character stays.
pub open spec fn upper(c: char) -> char {
    if 0x61 <= code(c) <= 0x7a {
        (code(c) - 0x20) as char
    } else {
        c
    }
}

/// How many bytes a character takes in UTF-8.
pub open spec fn width(c: char) -> nat {
    if code(c) < 0x80 {
        1
    } else if code(c) < 0x800 {
        2
    } else if code(c) < 0x1_0000 {
        3
    } else {
        4
    }
}

/// Whether a character is white space.
pub fn char_is_space(c: char) -> (b: bool)
    ensures
        b == is_space(c),
{
    let n: u32 = c as u32;
    (n >= 0x09 && n <= 0x0d) || n == 0x20 || n == 0x85 || n == 0xa0 || n == 0x1680 || (n >= 0x2000
        && n <= 0x200a) || n == 0x2028 || n == 0x2029 || n == 0x202f || n == 0x205f || n == 0x3000
}

/// Whether a character is a control character.
pub fn char_is_control(c: char) -> (b: bool)
    ensures
        b == is_control(c),
{
    let n: u32 = c as u32;
    n <= 0x1f || (n >= 0x7f && n <= 0x9f)
}

/// Whether a character is an ASCII digit.
pub fn char_is_digit(c: char) -> (b: bool)
    ensures
        b == is_digit(c),
{
    let n: u32 = c as u32;
    n >= 0x30 && n <= 0x39
}

/// The small letter of an ASCII capital; other characters stay.
pub fn char_lower(c: char) -> (l: char)
    ensures
        l == lower(c),
{
    let n: u32 = c as u32;
    if n >= 0x41 && n <= 0x5a {
        (n + 0x20) as u8 as char
    } else {
        c
    }
}

/// The capital of an ASCII small letter; other characters stay.
pub fn char_upper(c: char) -> (u: char)
    ensures
        u == upper(c),
{
    let n: u32 = c as u32;
    if n >= 0x61 && n <= 0x7a {
        (n - 0x20) as u8 as char
    } else {
        c
    }
}

/// The number of bytes of a character in UTF-8.
pub fn char_width(c: char) -> (w: usize)
    ensures
        w == width(c),
        1 <= w <= 4,
{
    let n: u32 = c as u32;
    if n < 0x80 {
        1
    } else if n < 0x800 {
        2
    } else if n < 0x1_0000 {
        3
    } else {
        4
    }
}

// ------------------------------------------------------------------- strings

/// Every character is an ASCII character.
pub open spec fn ascii_only(s: Seq<char>) -> bool {
    forall|i: int| 0 <= i < s.len() ==> code(#[trigger] s[i]) < 0x80
}

/// Every character is an ASCII digit, and there is one at least.
pub open spec fn digits_only(s: Seq<char>) -> bool {
    s.len() > 0 && forall|i: int| 0 <= i < s.len() ==> is_digit(#[trigger] s[i])
}

/// ASCII capitals made small.
pub open spec fn lower_all(s: Seq<char>) -> Seq<char> {
    s.map_values(|c: char| lower(c))
}

/// ASCII small letters made capital.
pub open spec fn upper_all(s: Seq<char>) -> Seq<char> {
    s.map_values(|c: char| upper(c))
}

/// `s` without the white space at its start.
pub open spec fn trim_start(s: Seq<char>) -> Seq<char>
    decreases s.len(),
{
    if s.len() > 0 && is_space(s[0]) {
        trim_start(s.skip(1))
    } else {
        s
    }
}

/// `s` without the white space at its end.
pub open spec fn trim_end(s: Seq<char>) -> Seq<char>
    decreases s.len(),
{
    if s.len() > 0 && is_space(s.last()) {
        trim_end(s.drop_last())
    } else {
        s
    }
}

/// `s` without the white space at both ends.
pub open spec fn trim(s: Seq<char>) -> Seq<char> {
    trim_end(trim_start(s))
}

/// `s` without every copy of `suffix` at its end.
pub open spec fn strip_all(s: Seq<char>, suffix: Seq<char>) -> Seq<char>
    decreases s.len(),
{
    if suffix.len() > 0 && suffix.is_suffix_of(s) {
        strip_all(s.take(s.len() - suffix.len()), suffix)
    } else {
        s
    }
}

/// How many bytes a string takes in UTF-8.
pub open spec fn byte_len(s: Seq<char>) -> nat
    decreases s.len(),
{
    if s.len() == 0 {
        0
    } else {
        byte_len(s.drop_last()) + width(s.last())
    }
}

/// Cutting `s` after `n` bytes falls between two characters, or `s` has fewer
/// bytes than that.
pub open spec fn splits_after(s: Seq<char>, n: int) -> bool
    decreases s.len(),
{
    n == 0 || s.len() == 0 || (width(s[0]) <= n && splits_after(s.skip(1), n - width(s[0])))
}

/// Cutting `s` before its last `n` bytes falls between two characters, or `s`
/// has fewer bytes than that.
pub open spec fn splits_before(s: Seq<char>, n: int) -> bool
    decreases s.len(),
{
    n == 0 || s.len() == 0 || (width(s.last()) <= n && splits_before(
        s.drop_last(),
        n - width(s.last()),
    ))
}

/// The characters of `s`, in order.
pub fn to_chars(s: &str) -> (chars: Vec<char>)
    ensures
        chars@ == s@,
{
    let mut chars: Vec<char> = Vec::new();
    for c in it: s.chars()
        invariant
            chars@ == it.seq().take(it.index() as int),
            it.seq() == s@,
    {
        chars.push(c);
    }
    chars
}

/// Whether two strings are the same.
pub fn same_text(a: &str, b: &str) -> (same: bool)
    ensures
        same == (a@ == b@),
{
    let xs = to_chars(a);
    let ys = to_chars(b);
    if xs.len() != ys.len() {
        return false;
    }
    for i in 0..xs.len()
        invariant
            xs@ == a@,
            ys@ == b@,
            xs.len() == ys.len(),
            forall|j: int| 0 <= j < i ==> xs@[j] == ys@[j],
    {
        if xs[i] != ys[i] {
            return false;
        }
    }
    assert(xs@ =~= ys@);
    true
}

/// Whether `s` consists of ASCII digits, one at least.
pub fn is_digits(s: &str) -> (b: bool)
    ensures
        b == digits_only(s@),
{
    let chars = to_chars(s);
    if chars.len() == 0 {
        return false;
    }
    for i in 0..chars.len()
        invariant
            chars@ == s@,
            forall|j: int| 0 <= j < i ==> is_digit(#[trigger] chars@[j]),
    {
        if !char_is_digit(chars[i]) {
            return false;
        }
    }
    true
}

/// ASCII capitals made small.
pub fn to_ascii_lowercase(s: &str) -> (l: String)
    ensures
        l@ == lower_all(s@),
{
    let chars = to_chars(s);
    let mut l = String::new();
    for i in 0..chars.len()
        invariant
            chars@ == s@,
            l@ == lower_all(s@).take(i as int),
    {
        l.push(char_lower(chars[i]));
    }
    assert(lower_all(s@).take(chars.len() as int) =~= lower_all(s@));
    l
}

/// ASCII small letters made capital.
pub fn to_ascii_uppercase(s: &str) -> (u: String)
    ensures
        u@ == upper_all(s@),
{
    let chars = to_chars(s);
    let mut u = String::new();
    for i in 0..chars.len()
        invariant
            chars@ == s@,
            u@ == upper_all(s@).take(i as int),
    {
        u.push(char_upper(chars[i]));
    }
    assert(upper_all(s@).take(chars.len() as int) =~= upper_all(s@));
    u
}

/// `s` without the white space at its start.
pub fn trimmed_start(s: &str) -> (t: &str)
    ensures
        t@ == trim_start(s@),
{
    let chars = to_chars(s);
    let mut start: usize = 0;
    assert(s@.skip(0) =~= s@);
    while start < chars.len() && char_is_space(chars[start])
        invariant
            chars@ == s@,
            start <= chars.len(),
            trim_start(s@) == trim_start(s@.skip(start as int)),
        decreases chars.len() - start,
    {
        assert(s@.skip(start as int).skip(1) =~= s@.skip(start + 1));
        start += 1;
    }
    s.substring_char(start, chars.len())
}

/// `s` without the white space at its end.
pub fn trimmed_end(s: &str) -> (t: &str)
    ensures
        t@ == trim_end(s@),
{
    let chars = to_chars(s);
    let mut end: usize = chars.len();
    assert(s@.take(end as int) =~= s@);
    while end > 0 && char_is_space(chars[end - 1])
        invariant
            chars@ == s@,
            end <= chars.len(),
            trim_end(s@) == trim_end(s@.take(end as int)),
        decreases end,
    {
        assert(s@.take(end as int).drop_last() =~= s@.take(end - 1));
        end -= 1;
    }
    assert(s@.subrange(0, end as int) =~= s@.take(end as int));
    s.substring_char(0, end)
}

/// `s` without the white space at both ends.
pub fn trimmed(s: &str) -> (t: &str)
    ensures
        t@ == trim(s@),
{
    trimmed_end(trimmed_start(s))
}

/// Whether `s` ends with `suffix`.
pub fn has_suffix(s: &str, suffix: &str) -> (b: bool)
    ensures
        b == suffix@.is_suffix_of(s@),
{
    let xs = to_chars(s);
    let ys = to_chars(suffix);
    if xs.len() < ys.len() {
        return false;
    }
    let offset: usize = xs.len() - ys.len();
    for i in 0..ys.len()
        invariant
            xs@ == s@,
            ys@ == suffix@,
            offset + ys.len() == xs.len(),
            forall|j: int| 0 <= j < i ==> xs@[offset + j] == ys@[j],
    {
        if xs[offset + i] != ys[i] {
            assert(s@.subrange(offset as int, s@.len() as int)[i as int] != suffix@[i as int]);
            return false;
        }
    }
    assert(suffix@ =~= s@.subrange(offset as int, s@.len() as int));
    true
}

/// `s` without every copy of `suffix` at its end.
pub fn stripped_of<'a>(s: &'a str, suffix: &str) -> (t: &'a str)
    ensures
        t@ == strip_all(s@, suffix@),
{
    let len: usize = suffix.unicode_len();
    let mut rest: &'a str = s;
    while len > 0 && has_suffix(rest, suffix)
        invariant
            len == suffix@.len(),
            strip_all(s@, suffix@) == strip_all(rest@, suffix@),
        decreases rest@.len(),
    {
        let end: usize = rest.unicode_len() - len;
        let ghost before = rest@;
        rest = rest.substring_char(0, end);
        assert(rest@ =~= before.take(end as int));
    }
    rest
}

/// The parts of `s` between the places where `separator` stands; one part, `s`
/// itself, where it stands nowhere.
pub open spec fn split(s: Seq<char>, separator: char) -> Seq<Seq<char>>
    decreases s.len(),
{
    if s.len() == 0 {
        seq![seq![]]
    } else {
        let before = split(s.drop_last(), separator);
        if s.last() == separator {
            before.push(seq![])
        } else {
            before.drop_last().push(before.last().push(s.last()))
        }
    }
}

/// `s` without the copies of `c` at its start.
pub open spec fn strip_front(s: Seq<char>, c: char) -> Seq<char>
    decreases s.len(),
{
    if s.len() > 0 && s[0] == c {
        strip_front(s.skip(1), c)
    } else {
        s
    }
}

/// `s` without the copies of `c` at its end.
pub open spec fn strip_back(s: Seq<char>, c: char) -> Seq<char>
    decreases s.len(),
{
    if s.len() > 0 && s.last() == c {
        strip_back(s.drop_last(), c)
    } else {
        s
    }
}

/// The parts of `s` between the places where `separator` stands.
pub fn split_by(s: &str, separator: char) -> (parts: Vec<String>)
    ensures
        parts@.map_values(|p: String| p@) == split(s@, separator),
{
    let chars = to_chars(s);
    let mut parts: Vec<String> = Vec::new();
    let mut current = String::new();
    let ghost mut done = parts@.map_values(|p: String| p@);
    assert(s@.take(0) =~= Seq::<char>::empty());
    assert(done.push(current@) =~= split(s@.take(0), separator));
    for i in 0..chars.len()
        invariant
            chars@ == s@,
            done == parts@.map_values(|p: String| p@),
            split(s@.take(i as int), separator) == done.push(current@),
    {
        assert(s@.take(i + 1).drop_last() =~= s@.take(i as int));
        let c = chars[i];
        if c == separator {
            let ghost before = done;
            parts.push(current);
            proof {
                done = parts@.map_values(|p: String| p@);
            }
            assert(done =~= before.push(current@));
            current = String::new();
            assert(current@ =~= seq![]);
        } else {
            assert(done.push(current@).drop_last() =~= done);
            current.push(c);
        }
    }
    assert(s@.take(chars.len() as int) =~= s@);
    parts.push(current);
    assert(parts@.map_values(|p: String| p@) =~= done.push(current@));
    parts
}

/// `s` without the copies of `c` at both ends.
pub fn stripped(s: &str, c: char) -> (t: &str)
    ensures
        t@ == strip_back(strip_front(s@, c), c),
{
    let chars = to_chars(s);
    let mut start: usize = 0;
    assert(s@.skip(0) =~= s@);
    while start < chars.len() && chars[start] == c
        invariant
            chars@ == s@,
            start <= chars.len(),
            strip_front(s@, c) == strip_front(s@.skip(start as int), c),
        decreases chars.len() - start,
    {
        assert(s@.skip(start as int).skip(1) =~= s@.skip(start + 1));
        start += 1;
    }
    let ghost front = s@.skip(start as int);
    let mut end: usize = chars.len();
    assert(s@.subrange(start as int, end as int) =~= front);
    while end > start && chars[end - 1] == c
        invariant
            chars@ == s@,
            start <= end <= chars.len(),
            strip_back(front, c) == strip_back(s@.subrange(start as int, end as int), c),
        decreases end,
    {
        assert(s@.subrange(start as int, end as int).drop_last() =~= s@.subrange(
            start as int,
            end - 1,
        ));
        end -= 1;
    }
    s.substring_char(start, end)
}

// ------------------------------------------------------------ the order of strings

/// `a` comes before `b` in the order of strings, which goes by the code points.
pub open spec fn before(a: Seq<char>, b: Seq<char>) -> bool
    decreases b.len(),
{
    if b.len() == 0 {
        false
    } else if a.len() == 0 {
        true
    } else if a[0] != b[0] {
        code(a[0]) < code(b[0])
    } else {
        before(a.skip(1), b.skip(1))
    }
}

/// Whether `a` comes before `b` in the order of strings.
pub fn text_before(a: &str, b: &str) -> (r: bool)
    ensures
        r == before(a@, b@),
{
    let left = to_chars(a);
    let right = to_chars(b);
    let mut i: usize = 0;
    assert(left@.skip(0) =~= left@);
    assert(right@.skip(0) =~= right@);
    while i < left.len() && i < right.len()
        invariant
            left@ == a@,
            right@ == b@,
            i <= left@.len(),
            i <= right@.len(),
            before(a@, b@) == before(left@.skip(i as int), right@.skip(i as int)),
        decreases left@.len() - i,
    {
        assert(left@.skip(i as int)[0] == left@[i as int]);
        assert(right@.skip(i as int)[0] == right@[i as int]);
        if left[i] != right[i] {
            return (left[i] as u32) < (right[i] as u32);
        }
        assert(left@.skip(i as int).skip(1) =~= left@.skip(i + 1));
        assert(right@.skip(i as int).skip(1) =~= right@.skip(i + 1));
        i += 1;
    }
    i < right.len()
}

proof fn lemma_codes_differ(a: char, b: char)
    ensures
        code(a) == code(b) ==> a == b,
{
}

/// No two strings come before each other, and of two different strings one comes
/// before the other.
pub proof fn lemma_before_is_strict(a: Seq<char>, b: Seq<char>)
    ensures
        !before(a, a),
        before(a, b) ==> !before(b, a),
        a != b ==> before(a, b) || before(b, a),
    decreases a.len(),
{
    if a.len() > 0 {
        lemma_before_is_strict(a.skip(1), a.skip(1));
        if b.len() > 0 {
            lemma_before_is_strict(a.skip(1), b.skip(1));
            lemma_codes_differ(a[0], b[0]);
            if a[0] == b[0] && a.skip(1) == b.skip(1) {
                assert(a =~= seq![a[0]] + a.skip(1));
                assert(b =~= seq![b[0]] + b.skip(1));
            }
        }
    } else if b.len() == 0 {
        assert(a =~= b);
    }
}

/// A string that does not come after a second one does not come after a third that
/// does not come before the second.
pub proof fn lemma_before_is_transitive(a: Seq<char>, b: Seq<char>, c: Seq<char>)
    requires
        !before(b, a),
        !before(c, b),
    ensures
        !before(c, a),
    decreases a.len(),
{
    if a.len() > 0 && b.len() > 0 && c.len() > 0 {
        lemma_codes_differ(a[0], b[0]);
        lemma_codes_differ(b[0], c[0]);
    }
    if a.len() > 0 && b.len() > 0 && c.len() > 0 && a[0] == b[0] && b[0] == c[0] {
        lemma_before_is_transitive(a.skip(1), b.skip(1), c.skip(1));
    }
}

// ----------------------------------------------------------- optional strings

/// An optional string as a sequence.
pub open spec fn text_of(s: Option<String>) -> Option<Seq<char>> {
    match s {
        Some(s) => Some(s@),
        None => None,
    }
}

/// An optional string slice as a sequence.
pub open spec fn str_of(s: Option<&str>) -> Option<Seq<char>> {
    match s {
        Some(s) => Some(s@),
        None => None,
    }
}

/// An optional string as a slice.
pub fn as_deref(s: &Option<String>) -> (r: Option<&str>)
    ensures
        str_of(r) == text_of(*s),
{
    match s {
        Some(s) => Some(s.as_str()),
        None => None,
    }
}

/// A copy of an optional string.
pub fn copy_of(s: &Option<String>) -> (r: Option<String>)
    ensures
        text_of(r) == text_of(*s),
{
    match s {
        Some(s) => Some(s.clone()),
        None => None,
    }
}

// ---------------------------------------------------------------------------- laws

/// The digits are the ten of ASCII.
pub proof fn law_digits_are_ascii(c: char)
    ensures
        is_digit(c) <==> c == '0' || c == '1' || c == '2' || c == '3' || c == '4' || c == '5' || c
            == '6' || c == '7' || c == '8' || c == '9',
        is_digit(c) <==> '0' <= c && c <= '9',
{
}

/// White space is what Unicode says, and control characters are those of ASCII and of
/// the block behind it.
pub proof fn law_white_space_is_that_of_unicode(c: char)
    ensures
        is_space(c) <==> c == '\t' || c == '\n' || c == '\u{b}' || c == '\u{c}' || c == '\r' || c
            == ' ' || c == '\u{85}' || c == '\u{a0}' || c == '\u{1680}' || c == '\u{2000}' || c
            == '\u{2001}' || c == '\u{2002}' || c == '\u{2003}' || c == '\u{2004}' || c
            == '\u{2005}' || c == '\u{2006}' || c == '\u{2007}' || c == '\u{2008}' || c
            == '\u{2009}' || c == '\u{200a}' || c == '\u{2028}' || c == '\u{2029}' || c
            == '\u{202f}' || c == '\u{205f}' || c == '\u{3000}',
        is_control(c) <==> c <= '\u{1f}' || ('\u{7f}' <= c && c <= '\u{9f}'),
{
}

/// A letter of ASCII is made small or capital; every other character stays. What was
/// made small and then capital is as if it had been made capital.
pub proof fn law_ascii_letters_change_their_case(c: char)
    ensures
        'A' <= c && c <= 'Z' ==> 'a' <= lower(c) && lower(c) <= 'z' && lower(c) as u32 - 'a' as u32
            == c as u32 - 'A' as u32,
        !('A' <= c && c <= 'Z') ==> lower(c) == c,
        'a' <= c && c <= 'z' ==> 'A' <= upper(c) && upper(c) <= 'Z' && upper(c) as u32 - 'A' as u32
            == c as u32 - 'a' as u32,
        !('a' <= c && c <= 'z') ==> upper(c) == c,
        upper(lower(c)) == upper(c),
        lower(upper(c)) == lower(c),
{
}

/// Changing the case of a text changes that of each of its characters.
pub proof fn law_case_is_changed_everywhere(s: Seq<char>, i: int)
    requires
        0 <= i < s.len(),
    ensures
        lower_all(s).len() == s.len(),
        lower_all(s)[i] == lower(s[i]),
        upper_all(s).len() == s.len(),
        upper_all(s)[i] == upper(s[i]),
{
}

/// Every character is white space.
pub open spec fn is_blank_text(s: Seq<char>) -> bool {
    forall|i: int| 0 <= i < s.len() ==> is_space(#[trigger] s[i])
}

proof fn lemma_trim_start_of(front: Seq<char>, s: Seq<char>)
    requires
        is_blank_text(front),
        s.len() > 0 ==> !is_space(s[0]),
    ensures
        trim_start(front + s) == s,
    decreases front.len(),
{
    if front.len() == 0 {
        assert(front + s =~= s);
    } else {
        assert((front + s)[0] == front[0]);
        assert(is_space(front[0]));
        assert((front + s).skip(1) =~= front.skip(1) + s);
        assert forall|i: int| 0 <= i < front.skip(1).len() implies is_space(
            #[trigger] front.skip(1)[i],
        ) by {
            assert(is_space(front[i + 1]));
        }
        lemma_trim_start_of(front.skip(1), s);
    }
}

proof fn lemma_trim_end_of(s: Seq<char>, back: Seq<char>)
    requires
        is_blank_text(back),
        s.len() > 0 ==> !is_space(s.last()),
    ensures
        trim_end(s + back) == s,
    decreases back.len(),
{
    if back.len() == 0 {
        assert(s + back =~= s);
    } else {
        assert((s + back).last() == back.last());
        assert(is_space(back[back.len() - 1]));
        assert((s + back).drop_last() =~= s + back.drop_last());
        lemma_trim_end_of(s, back.drop_last());
    }
}

/// A text with white space around it is trimmed to that text, where it neither starts
/// nor ends with white space; white space alone is trimmed to nothing.
pub proof fn law_trimming_takes_white_space_off(front: Seq<char>, s: Seq<char>, back: Seq<char>)
    requires
        is_blank_text(front),
        is_blank_text(back),
        s.len() > 0 ==> !is_space(s[0]) && !is_space(s.last()),
    ensures
        trim(front + s + back) == s,
{
    if s.len() > 0 {
        assert(front + s + back =~= front + (s + back));
        lemma_trim_start_of(front, s + back);
        lemma_trim_end_of(s, back);
    } else {
        let all = front + s + back;
        assert forall|i: int| 0 <= i < all.len() implies is_space(#[trigger] all[i]) by {
            if i < front.len() {
                assert(all[i] == front[i]);
            } else {
                assert(all[i] == back[i - front.len()]);
            }
        }
        assert(all + s =~= all);
        lemma_trim_start_of(all, s);
        assert(trim_end(s) =~= s);
    }
}

/// Copies of a suffix are taken off the end, all of them and nothing else.
pub proof fn law_suffixes_are_stripped(s: Seq<char>, suffix: Seq<char>)
    requires
        suffix.len() > 0,
    ensures
        strip_all(s + suffix, suffix) == strip_all(s, suffix),
        !suffix.is_suffix_of(s) ==> strip_all(s, suffix) == s,
{
    let whole = s + suffix;
    assert(whole.skip(s.len() as int) =~= suffix);
    assert(suffix.is_suffix_of(whole));
    assert(whole.take(s.len() as int) =~= s);
}

/// A text comes before another one where it is a beginning of it, or where the first
/// character in which they differ has the smaller code point.
pub proof fn law_texts_are_ordered_by_their_characters(
    common: Seq<char>,
    a: Seq<char>,
    b: Seq<char>,
)
    ensures
        before(common, common + b) <==> b.len() > 0,
        a.len() > 0 && b.len() > 0 && a[0] != b[0] ==> (before(common + a, common + b) <==> (a[0]
            as u32) < (b[0] as u32)),
        !before(common + a, common),
    decreases common.len(),
{
    if common.len() == 0 {
        assert(common + a =~= a);
        assert(common + b =~= b);
    } else {
        law_texts_are_ordered_by_their_characters(common.skip(1), a, b);
        assert((common + a).skip(1) =~= common.skip(1) + a);
        assert((common + b).skip(1) =~= common.skip(1) + b);
        assert((common + a)[0] == common[0]);
        assert((common + b)[0] == common[0]);
    }
}

/// Splitting is undone by putting the separator between the parts: a text without it
/// is one part, and what follows a separator is a new one.
pub proof fn law_splitting_cuts_at_the_separators(s: Seq<char>, part: Seq<char>, separator: char)
    requires
        forall|i: int| 0 <= i < part.len() ==> #[trigger] part[i] != separator,
    ensures
        split(part, separator) == seq![part],
        split(s.push(separator) + part, separator) == split(s, separator).push(part),
    decreases part.len(),
{
    let whole = s.push(separator) + part;
    if part.len() == 0 {
        assert(whole =~= s.push(separator));
        assert(whole.drop_last() =~= s);
        assert(part =~= seq![]);
    } else {
        let shorter = part.drop_last();
        assert forall|i: int| 0 <= i < shorter.len() implies #[trigger] shorter[i] != separator by {
            assert(shorter[i] == part[i]);
        }
        law_splitting_cuts_at_the_separators(s, shorter, separator);
        assert(whole.drop_last() =~= s.push(separator) + shorter);
        assert(whole.last() == part[part.len() - 1]);
        assert(shorter.push(part.last()) =~= part);
        assert(part.last() == part[part.len() - 1]);
        let one = split(shorter, separator);
        assert(one.drop_last() =~= seq![]);
        assert(one.last() == shorter);
        assert(split(part, separator) =~= seq![part]);
        let before = split(s.push(separator) + shorter, separator);
        assert(before.drop_last() =~= split(s, separator));
        assert(before.last() == shorter);
        assert(split(whole, separator) =~= split(s, separator).push(part));
    }
}

/// Copies of a character are taken off both ends, and nothing else.
pub proof fn law_ends_are_stripped(s: Seq<char>, c: char)
    ensures
        strip_front(seq![c] + s, c) == strip_front(s, c),
        strip_back(s.push(c), c) == strip_back(s, c),
        s.len() == 0 || s[0] != c ==> strip_front(s, c) == s,
        s.len() == 0 || s.last() != c ==> strip_back(s, c) == s,
{
    assert((seq![c] + s).skip(1) =~= s);
    assert(s.push(c).drop_last() =~= s);
}

/// A character takes one byte up to the end of ASCII, two up to U+07FF, three in the
/// rest of the basic plane, and else four; a text takes what its characters do.
pub proof fn law_texts_are_measured_in_bytes(c: char, s: Seq<char>)
    ensures
        c <= '\u{7f}' <==> width(c) == 1,
        '\u{80}' <= c && c <= '\u{7ff}' <==> width(c) == 2,
        '\u{800}' <= c && c <= '\u{ffff}' <==> width(c) == 3,
        '\u{10000}' <= c <==> width(c) == 4,
        byte_len(seq![]) == 0,
        byte_len(s.push(c)) == byte_len(s) + width(c),
{
    assert(s.push(c).drop_last() =~= s);
}

/// A text can be cut before its last bytes exactly where these are whole characters,
/// and likewise after its first ones; or where it has no more bytes than that.
pub proof fn law_texts_are_cut_between_characters(s: Seq<char>, c: char, t: Seq<char>, n: int)
    requires
        byte_len(t) < n < byte_len(t) + width(c),
    ensures
        splits_before(s + t, byte_len(t) as int),
        splits_after(t + s, byte_len(t) as int),
        !splits_before(s.push(c) + t, n),
        !splits_after(t + (seq![c] + s), n),
        splits_before(t, n),
        splits_after(t, n),
    decreases t.len(),
{
    if t.len() == 0 {
        assert((s.push(c) + t).last() == c);
        assert((t + (seq![c] + s))[0] == c);
    } else {
        let last = t.last();
        let shorter = t.drop_last();
        assert((s + t).last() == last);
        assert((s + t).drop_last() =~= s + shorter);
        assert((s.push(c) + t).last() == last);
        assert((s.push(c) + t).drop_last() =~= s.push(c) + shorter);
        law_texts_are_cut_between_characters(s, c, shorter, n - width(last));
        let head = t[0];
        let rest = t.skip(1);
        lemma_bytes_from_the_front(t);
        assert((t + s)[0] == head);
        assert((t + s).skip(1) =~= rest + s);
        assert((t + (seq![c] + s))[0] == head);
        assert((t + (seq![c] + s)).skip(1) =~= rest + (seq![c] + s));
        law_texts_are_cut_between_characters(s, c, rest, n - width(head));
    }
}

proof fn lemma_bytes_from_the_front(t: Seq<char>)
    requires
        t.len() > 0,
    ensures
        byte_len(t) == width(t[0]) + byte_len(t.skip(1)),
    decreases t.len(),
{
    if t.len() == 1 {
        assert(t.drop_last() =~= Seq::<char>::empty());
        assert(t.skip(1) =~= Seq::<char>::empty());
        assert(t.last() == t[0]);
    } else {
        let shorter = t.drop_last();
        lemma_bytes_from_the_front(shorter);
        assert(t.skip(1).drop_last() =~= shorter.skip(1));
        assert(t.skip(1).last() == t.last());
    }
}

} // verus!
