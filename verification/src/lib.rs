//! Turns the instance metadata of a cloud platform into host
//! configuration: an attributes file, authorized SSH keys, the hostname and
//! network units. The library decides and renders; reading and writing are
//! left to its caller.

use vstd::prelude::*;

pub mod attributes;
pub mod cmdline;
pub mod config;
pub mod errors;
pub mod hostname;
pub mod metadata;
pub mod network;
pub mod output;
pub mod providers;
pub mod retry;
pub mod run;
pub mod ssh;
pub mod text;

use crate::errors::Error;
use crate::providers::{resolve, resolved, ProviderKind};

verus! {

/// Selects the provider whose metadata is to be fetched. A name of the
/// registry gives its provider; any other name is refused with
/// `UnknownProvider`, which carries the name as it was given.
pub fn fetch_metadata(provider: &str) -> (r: Result<ProviderKind, Error>)
    ensures
        match r {
            Ok(kind) => resolved(provider@) == Some(kind),
            Err(Error::UnknownProvider(name)) => resolved(provider@) is None && name@ == provider@,
            Err(_) => false,
        },
{
    match resolve(provider) {
        Some(kind) => Ok(kind),
        None => Err(Error::UnknownProvider(String::from_str(provider))),
    }
}

} // verus!
