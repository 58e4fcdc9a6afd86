//! What a run was asked to do.

use vstd::prelude::*;
use vstd::utf8::encode_utf8;

verus! {

/// What a run was asked to do: where the provider's name comes from, and
/// which of the four artifacts to produce. A target that is left out is not
/// produced.
#[derive(Clone, Debug, PartialEq, Eq)]
pub struct Config {
    /// The name of the provider.
    pub provider: Option<String>,
    /// The file into which the attributes are written.
    pub attributes_file: Option<String>,
    /// The user whose authorized keys are updated.
    pub ssh_keys_user: Option<String>,
    /// The file into which the hostname is written.
    pub hostname_file: Option<String>,
    /// The directory into which network units are written.
    pub network_units_dir: Option<String>,
    /// Take the provider's name from the boot parameters.
    pub cmdline: bool,
}

/// Where the name of the provider comes from.
#[derive(Clone, Debug, PartialEq, Eq)]
pub enum ProviderSource {
    /// It was given.
    Named(String),
    /// It is to be read from the boot parameters.
    BootParameters,
    /// It was not given, and the boot parameters are not to be read.
    Missing,
}

impl Config {
    /// Where the name of the provider comes from: a name that was given
    /// wins; without one the boot parameters are read if that was asked for.
    pub fn provider_source(&self) -> (r: ProviderSource)
        ensures
            match self.provider {
                Some(name) => r matches ProviderSource::Named(n) && n@ == name@,
                None => if self.cmdline {
                    r == ProviderSource::BootParameters
                } else {
                    r == ProviderSource::Missing
                },
            },
    {
        match &self.provider {
            Some(name) => ProviderSource::Named(name.clone()),
            None => if self.cmdline {
                ProviderSource::BootParameters
            } else {
                ProviderSource::Missing
            },
        }
    }
}

/// Whether `arg` is a long flag written with one hyphen: it begins with a
/// hyphen that no second hyphen follows, and is more than two bytes long.
pub open spec fn is_single_hyphen_flag(arg: Seq<char>) -> bool {
    arg.len() >= 1 && arg[0] == '-' && !(arg.len() >= 2 && arg[1] == '-') && encode_utf8(
        arg,
    ).len() > 2
}

/// `arg` as the flag parser wants it: a long flag written with one hyphen
/// gets its second hyphen, anything else stays as it is.
pub open spec fn normalized_arg(arg: Seq<char>) -> Seq<char> {
    if is_single_hyphen_flag(arg) {
        seq!['-'] + arg
    } else {
        arg
    }
}

/// `arg` as the flag parser wants it.
pub fn normalize_arg(arg: &str) -> (r: String)
    ensures
        r@ == normalized_arg(arg@),
{
    let cs = crate::text::chars_of(arg);
    if cs.len() >= 1 && cs[0] == '-' && !(cs.len() >= 2 && cs[1] == '-') && arg.as_bytes().len() > 2 {
        proof {
            reveal_strlit("-");
            assert("-"@ =~= seq!['-']);
        }
        let mut r = String::from_str("-");
        r.append(arg);
        r
    } else {
        String::from_str(arg)
    }
}

/// Normalizing twice changes nothing more.
pub proof fn lemma_normalized_arg_idempotent(arg: Seq<char>)
    ensures
        normalized_arg(normalized_arg(arg)) == normalized_arg(arg),
{
    if is_single_hyphen_flag(arg) {
        let once = seq!['-'] + arg;
        assert(once[1] == arg[0]);
    }
}

} // verus!
