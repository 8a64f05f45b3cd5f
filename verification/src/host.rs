//! The home directory of the user and the name of the machine.
use crate::text::{
    as_deref, is_blank_text, is_space, law_trimming_takes_white_space_off, str_of, text_of, trim,
    trimmed,
};
use vstd::prelude::*;
use vstd::slice::slice_subrange;
use vstd::string::StrSliceExecFns;
use vstd::utf8::{decode_utf8, valid_utf8};

verus! {

/// The first of two values that is there.
pub open spec fn either(first: Option<Seq<char>>, second: Option<Seq<char>>) -> Option<Seq<char>> {
    match first {
        Some(s) => Some(s),
        None => second,
    }
}

/// The home directory of the user, by the variables `USERPROFILE` and `HOME`.
pub open spec fn home_of(
    is_windows: bool,
    userprofile: Option<Seq<char>>,
    home: Option<Seq<char>>,
) -> Option<Seq<char>> {
    if is_windows {
        either(userprofile, home)
    } else {
        either(home, userprofile)
    }
}

/// The home directory of the user, by the variables `USERPROFILE` and `HOME`. On
/// Windows the first counts before the second, elsewhere the second.
pub fn home_directory(is_windows: bool, userprofile: Option<String>, home: Option<String>) -> (r:
    Option<String>)
    ensures
        text_of(r) == home_of(is_windows, text_of(userprofile), text_of(home)),
{
    if is_windows {
        match userprofile {
            Some(path) => Some(path),
            None => home,
        }
    } else {
        match home {
            Some(path) => Some(path),
            None => userprofile,
        }
    }
}

/// A name without the white space at its ends, where anything is left.
pub open spec fn stated(name: Option<Seq<char>>) -> Option<Seq<char>> {
    match name {
        Some(s) => if trim(s).len() > 0 {
            Some(trim(s))
        } else {
            None
        },
        None => None,
    }
}

/// A name without the white space at its ends, where anything is left.
fn stated_name(name: Option<&str>) -> (r: Option<String>)
    ensures
        text_of(r) == stated(str_of(name)),
{
    match name {
        Some(s) => {
            let t = trimmed(s);
            if t.unicode_len() > 0 {
                Some(t.to_owned())
            } else {
                None
            }
        },
        None => None,
    }
}

/// The name of the machine by the variables `COMPUTERNAME` and `HOSTNAME`.
pub open spec fn hostname_in_environment(
    is_windows: bool,
    computername: Option<Seq<char>>,
    hostname: Option<Seq<char>>,
) -> Option<Seq<char>> {
    if is_windows {
        either(stated(computername), stated(hostname))
    } else {
        either(stated(hostname), stated(computername))
    }
}

/// The name of the machine by the variables `COMPUTERNAME` and `HOSTNAME`. On
/// Windows the first counts before the second, elsewhere the second; blank names do
/// not count.
pub fn environment_hostname(
    is_windows: bool,
    computername: Option<String>,
    hostname: Option<String>,
) -> (r: Option<String>)
    ensures
        text_of(r) == hostname_in_environment(
            is_windows,
            text_of(computername),
            text_of(hostname),
        ),
{
    let computer = stated_name(as_deref(&computername));
    let host = stated_name(as_deref(&hostname));
    if is_windows {
        match computer {
            Some(name) => Some(name),
            None => host,
        }
    } else {
        match host {
            Some(name) => Some(name),
            None => computer,
        }
    }
}

/// The bytes before the first zero, or all where there is none.
pub open spec fn up_to_zero(bytes: Seq<u8>) -> Seq<u8>
    decreases bytes.len(),
{
    if bytes.len() == 0 || bytes[0] == 0 {
        seq![]
    } else {
        seq![bytes[0]] + up_to_zero(bytes.skip(1))
    }
}

/// The name that the system wrote into a buffer, where it is UTF-8 and not blank.
pub open spec fn hostname_in_buffer(buffer: Seq<u8>) -> Option<Seq<char>> {
    let bytes = up_to_zero(buffer);
    if valid_utf8(bytes) {
        stated(Some(decode_utf8(bytes)))
    } else {
        None
    }
}

/// `std::str::from_utf8`: the text of bytes that are valid UTF-8, and nothing of
/// others.
#[verifier::external_body]
fn read_utf8(bytes: &[u8]) -> (r: Option<&str>)
    ensures
        match r {
            Some(s) => valid_utf8(bytes@) && s@ == decode_utf8(bytes@),
            None => !valid_utf8(bytes@),
        },
{
    std::str::from_utf8(bytes).ok()
}

/// The name of the machine, by what the system wrote into a buffer, where it did so,
/// and by the environment.
pub open spec fn machine_name(
    buffer: Option<Seq<u8>>,
    environment: Option<Seq<char>>,
) -> Option<Seq<char>> {
    match buffer {
        Some(b) => either(hostname_in_buffer(b), environment),
        None => environment,
    }
}

/// The name of the machine: the one that the system wrote into a buffer, where it
/// did so and the name can be read, else the one of the environment.
pub fn local_hostname(buffer: Option<&[u8]>, environment: Option<String>) -> (r: Option<String>)
    ensures
        text_of(r) == machine_name(
            match buffer {
                Some(b) => Some(b@),
                None => None,
            },
            text_of(environment),
        ),
{
    if let Some(bytes) = buffer {
        let mut length: usize = 0;
        assert(bytes@.take(0) + up_to_zero(bytes@.skip(0)) =~= up_to_zero(bytes@)) by {
            assert(bytes@.skip(0) =~= bytes@);
        }
        while length < bytes.len() && bytes[length] != 0
            invariant
                length <= bytes@.len(),
                up_to_zero(bytes@) == bytes@.take(length as int) + up_to_zero(
                    bytes@.skip(length as int),
                ),
            decreases bytes@.len() - length,
        {
            assert(bytes@.skip(length as int)[0] == bytes@[length as int]);
            assert(bytes@.skip(length as int).skip(1) =~= bytes@.skip(length + 1));
            assert(bytes@.take(length as int) + (seq![bytes@[length as int]] + up_to_zero(
                bytes@.skip(length + 1),
            )) =~= bytes@.take(length + 1) + up_to_zero(bytes@.skip(length + 1)));
            length += 1;
        }
        assert(up_to_zero(bytes@.skip(length as int)) =~= seq![]);
        let name = slice_subrange(bytes, 0, length);
        assert(name@ =~= up_to_zero(bytes@));
        if let Some(hostname) = stated_name(read_utf8(name)) {
            return Some(hostname);
        }
    }
    environment
}

// ---------------------------------------------------------------------------- laws

/// The first of two values counts, and the second where there is no first.
pub proof fn law_first_value_counts(first: Seq<char>, second: Option<Seq<char>>)
    ensures
        either(Some(first), second) == Some(first),
        either(None, second) == second,
{
}

/// The variable of the platform names the home directory, and the other one where that
/// is missing.
pub proof fn law_home_directory_is_that_of_the_platform(
    path: Seq<char>,
    other: Option<Seq<char>>,
)
    ensures
        home_of(true, Some(path), other) == Some(path),
        home_of(false, other, Some(path)) == Some(path),
        home_of(true, None, other) == other,
        home_of(false, other, None) == other,
{
}

/// The name that the system wrote counts before that of the environment, where it can
/// be read.
pub proof fn law_system_names_the_machine_first(
    buffer: Seq<u8>,
    environment: Option<Seq<char>>,
)
    ensures
        hostname_in_buffer(buffer) is Some ==> machine_name(Some(buffer), environment)
            == hostname_in_buffer(buffer),
        hostname_in_buffer(buffer) is None ==> machine_name(Some(buffer), environment)
            == environment,
        machine_name(None, environment) == environment,
{
}

/// The variable of the platform names the machine, where it holds anything but white
/// space; else the other one does. White space around the name does not count.
pub proof fn law_machine_is_named_by_its_environment(
    front: Seq<char>,
    name: Seq<char>,
    back: Seq<char>,
    other: Option<Seq<char>>,
)
    requires
        is_blank_text(front),
        is_blank_text(back),
        name.len() > 0,
        !is_space(name[0]),
        !is_space(name.last()),
    ensures
        ({
            let value = Some(front + name + back);
            let blank = Some(front + back);
            &&& hostname_in_environment(true, value, other) == Some(name)
            &&& hostname_in_environment(false, other, value) == Some(name)
            &&& hostname_in_environment(true, None, value) == Some(name)
            &&& hostname_in_environment(false, value, None) == Some(name)
            &&& hostname_in_environment(true, blank, value) == Some(name)
            &&& hostname_in_environment(false, value, blank) == Some(name)
            &&& hostname_in_environment(true, blank, blank) is None
            &&& hostname_in_environment(false, None, None) is None
        }),
{
    law_trimming_takes_white_space_off(front, name, back);
    let none = Seq::<char>::empty();
    law_trimming_takes_white_space_off(front, none, back);
    assert(front + none + back =~= front + back);
}

/// The name that the system wrote ends before the first zero byte. It counts where it
/// is UTF-8 and not blank, without white space around it.
pub proof fn law_machine_is_named_by_its_system(bytes: Seq<u8>, rest: Seq<u8>)
    requires
        forall|i: int| 0 <= i < bytes.len() ==> #[trigger] bytes[i] != 0,
    ensures
        hostname_in_buffer(bytes.push(0) + rest) == hostname_in_buffer(bytes),
        hostname_in_buffer(bytes) matches Some(name) ==> valid_utf8(bytes) && name == trim(
            decode_utf8(bytes),
        ) && name.len() > 0,
        hostname_in_buffer(bytes) is None ==> !valid_utf8(bytes) || trim(decode_utf8(bytes)).len()
            == 0,
{
    lemma_up_to_zero(bytes, rest);
}

proof fn lemma_up_to_zero(bytes: Seq<u8>, rest: Seq<u8>)
    requires
        forall|i: int| 0 <= i < bytes.len() ==> #[trigger] bytes[i] != 0,
    ensures
        up_to_zero(bytes) == bytes,
        up_to_zero(bytes.push(0) + rest) == bytes,
    decreases bytes.len(),
{
    let whole = bytes.push(0) + rest;
    if bytes.len() == 0 {
        assert(whole[0] == 0);
        assert(up_to_zero(bytes) =~= bytes);
        assert(up_to_zero(whole) =~= bytes);
    } else {
        let shorter = bytes.skip(1);
        assert(bytes[0] != 0);
        assert(whole[0] == bytes[0]);
        assert forall|i: int| 0 <= i < shorter.len() implies #[trigger] shorter[i] != 0 by {
            assert(bytes[i + 1] != 0);
        }
        lemma_up_to_zero(shorter, rest);
        assert(whole.skip(1) =~= shorter.push(0) + rest);
        assert(seq![bytes[0]] + shorter =~= bytes);
    }
}

} // verus!
