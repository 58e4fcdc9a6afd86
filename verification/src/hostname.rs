//! The hostname: one DNS label, and the file that holds it.

use vstd::prelude::*;
use crate::errors::Error;
use crate::output::FileWrite;
use crate::text::{chars_of, trim, trimmed};

verus! {

/// The longest DNS label.
pub const MAX_LABEL_LENGTH: usize = 63;

/// The characters of a DNS label: ASCII letters, digits and the hyphen.
pub open spec fn is_label_char(c: char) -> bool {
    ('a' <= c && c <= 'z') || ('A' <= c && c <= 'Z') || ('0' <= c && c <= '9') || c == '-'
}

/// Whether `s` is a DNS label: 1 to 63 letters, digits and hyphens, with no
/// hyphen at either end.
pub open spec fn is_dns_label(s: Seq<char>) -> bool {
    &&& 1 <= s.len() <= MAX_LABEL_LENGTH
    &&& forall|i: int| 0 <= i < s.len() ==> is_label_char(#[trigger] s[i])
    &&& s[0] != '-'
    &&& s[s.len() - 1] != '-'
}

/// Whether `c` may stand in a DNS label.
pub fn label_char(c: char) -> (r: bool)
    ensures
        r == is_label_char(c),
{
    ('a' <= c && c <= 'z') || ('A' <= c && c <= 'Z') || ('0' <= c && c <= '9') || c == '-'
}

/// Whether `s` is a DNS label.
pub fn dns_label(s: &str) -> (r: bool)
    ensures
        r == is_dns_label(s@),
{
    let cs = chars_of(s);
    if cs.len() < 1 || cs.len() > MAX_LABEL_LENGTH {
        return false;
    }
    if cs[0] == '-' || cs[cs.len() - 1] == '-' {
        return false;
    }
    let mut i: usize = 0;
    while i < cs.len()
        invariant
            i <= cs.len(),
            cs@ == s@,
            forall|j: int| 0 <= j < i ==> is_label_char(#[trigger] cs@[j]),
        decreases cs.len() - i,
    {
        if !label_char(cs[i]) {
            return false;
        }
        i += 1;
    }
    true
}

/// A hostname: a DNS label.
#[derive(Debug, PartialEq, Eq)]
pub struct Hostname {
    name: String,
}

impl Hostname {
    /// The label.
    pub closed spec fn view(&self) -> Seq<char> {
        self.name@
    }

    #[verifier::type_invariant]
    spec fn valid(&self) -> bool {
        is_dns_label(self.name@)
    }

    /// The hostname that `raw` holds between blank characters. It is
    /// accepted exactly if what is left after trimming is a DNS label; the
    /// error carries `raw` as it was given.
    pub fn parse(raw: &str) -> (r: Result<Hostname, Error>)
        ensures
            match r {
                Ok(hostname) => is_dns_label(trimmed(raw@)) && hostname@ == trimmed(raw@),
                Err(Error::InvalidHostname(text)) => !is_dns_label(trimmed(raw@)) && text@ == raw@,
                Err(_) => false,
            },
    {
        let name = trim(raw);
        if dns_label(name.as_str()) {
            Ok(Hostname { name })
        } else {
            Err(Error::InvalidHostname(String::from_str(raw)))
        }
    }

    /// The label.
    pub fn as_str(&self) -> (r: &str)
        ensures
            r@ == self@,
            is_dns_label(self@),
    {
        proof {
            use_type_invariant(self);
        }
        self.name.as_str()
    }
}

/// The contents of the hostname file: the label and a line feed.
pub open spec fn rendered_hostname(label: Seq<char>) -> Seq<char> {
    label + seq!['\n']
}

/// The hostname file: `path`, and the hostname on a line of its own. Where
/// the provider reports no hostname nothing is to be written.
pub fn write_hostname(path: &str, hostname: &Option<Hostname>) -> (r: Option<FileWrite>)
    ensures
        match hostname {
            Some(h) => r matches Some(file) && file.path@ == path@ && file.contents@
                == rendered_hostname(h@),
            None => r is None,
        },
{
    match hostname {
        Some(h) => {
            proof {
                reveal_strlit("\n");
                assert("\n"@ =~= seq!['\n']);
            }
            let mut contents = String::from_str(h.as_str());
            contents.append("\n");
            Some(FileWrite { path: String::from_str(path), contents })
        },
        None => None,
    }
}

} // verus!
