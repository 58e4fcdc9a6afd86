//! The boot parameters: a list of parameters separated by single spaces,
//! each a bare word or `key=value`.

use vstd::prelude::*;
use crate::errors::Error;
use crate::text::{chars_of, find, holds, index_of, lemma_index_of};

verus! {

/// The file that holds the boot parameters.
pub const CMDLINE_PATH: &'static str = "/proc/cmdline";

/// The key under which the boot parameters name the provider.
pub const OEM_KEY: &'static str = "coreos.oem.id";

/// The value of the parameter that fills `start..end` of `s`, if that
/// parameter is `key`, then `=`, then the value: the value ends before the
/// next `=`, or with the parameter.
pub open spec fn param_value(s: Seq<char>, key: Seq<char>, start: int, end: int) -> Option<
    Seq<char>,
> {
    if end - start > key.len() && s.subrange(start, start + key.len()) == key && s[start
        + key.len()] == '=' {
        let at = start + key.len() + 1;
        Some(s.subrange(at, index_of(s, '=', at, end)))
    } else {
        None
    }
}

/// The value of the first parameter with the key `key` among the parameters
/// of `s` that begin at `start` or later.
pub open spec fn value_from(s: Seq<char>, key: Seq<char>, start: int) -> Option<Seq<char>>
    decreases s.len() - start,
    when 0 <= start <= s.len()
    via value_from_decreases
{
    let end = index_of(s, ' ', start, s.len() as int);
    match param_value(s, key, start, end) {
        Some(value) => Some(value),
        None => if end >= s.len() {
            None
        } else {
            value_from(s, key, end + 1)
        },
    }
}

#[via_fn]
proof fn value_from_decreases(s: Seq<char>, key: Seq<char>, start: int) {
    lemma_index_of(s, ' ', start, s.len() as int);
}

/// The value that the parameters `s` give for `key`: that of the first
/// parameter, from the left, that has this key and an `=` behind it.
pub open spec fn value_of(s: Seq<char>, key: Seq<char>) -> Option<Seq<char>> {
    value_from(s, key, 0)
}

/// Looks `key` up in the boot parameters `contents`.
pub fn find_value(contents: &str, key: &str) -> (r: Option<String>)
    ensures
        match r {
            Some(value) => value_of(contents@, key@) == Some(value@),
            None => value_of(contents@, key@) is None,
        },
{
    let cs = chars_of(contents);
    let ks = chars_of(key);
    let mut start: usize = 0;
    loop
        invariant
            cs@ == contents@,
            ks@ == key@,
            start <= cs.len(),
            value_of(contents@, key@) == value_from(contents@, key@, start as int),
        decreases cs.len() - start,
    {
        let end = find(&cs, ' ', start, cs.len());
        if end - start > ks.len() && holds(&cs, start, &ks) && cs[start + ks.len()] == '=' {
            let at = start + ks.len() + 1;
            let stop = find(&cs, '=', at, end);
            return Some(String::from_str(contents.substring_char(at, stop)));
        }
        if end >= cs.len() {
            return None;
        }
        start = end + 1;
    }
}

/// The name of the provider that the boot parameters `contents` give: the
/// value of the first parameter with the key `coreos.oem.id`. Nothing is
/// trimmed: where the name is the last parameter and a line feed follows it,
/// the line feed is part of the name.
pub fn get_oem(contents: &str) -> (r: Result<String, Error>)
    ensures
        match r {
            Ok(name) => value_of(contents@, OEM_KEY@) == Some(name@),
            Err(e) => e == Error::OemNotFound && value_of(contents@, OEM_KEY@) is None,
        },
{
    match find_value(contents, OEM_KEY) {
        Some(name) => Ok(name),
        None => Err(Error::OemNotFound),
    }
}

} // verus!
