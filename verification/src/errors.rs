//! What can go wrong in a run, and the stage in which it went wrong.

use vstd::prelude::*;
use crate::cmdline::{CMDLINE_PATH, OEM_KEY};
use crate::text::{decimal, push_decimal};

verus! {

/// The stages of a run. Every failure is reported with the stage it
/// occurred in.
#[derive(Clone, Copy, Debug, PartialEq, Eq, Structural)]
pub enum Stage {
    Initialization,
    FetchingMetadata,
    WritingAttributes,
    WritingSshKeys,
    WritingHostname,
    WritingNetworkUnits,
}

impl Stage {
    /// The words by which a stage is named in diagnostics.
    pub open spec fn label_text(self) -> Seq<char> {
        match self {
            Stage::Initialization => "initialization"@,
            Stage::FetchingMetadata => "fetching metadata from provider"@,
            Stage::WritingAttributes => "writing metadata attributes"@,
            Stage::WritingSshKeys => "writing ssh keys"@,
            Stage::WritingHostname => "writing hostname"@,
            Stage::WritingNetworkUnits => "writing network units"@,
        }
    }

    /// The words by which this stage is named in diagnostics.
    pub fn label(&self) -> (r: &'static str)
        ensures
            r@ == self.label_text(),
    {
        match self {
            Stage::Initialization => "initialization",
            Stage::FetchingMetadata => "fetching metadata from provider",
            Stage::WritingAttributes => "writing metadata attributes",
            Stage::WritingSshKeys => "writing ssh keys",
            Stage::WritingHostname => "writing hostname",
            Stage::WritingNetworkUnits => "writing network units",
        }
    }

    /// Whether this stage writes one of the four artifacts.
    pub open spec fn is_writer(self) -> bool {
        self == Stage::WritingAttributes || self == Stage::WritingSshKeys || self
            == Stage::WritingHostname || self == Stage::WritingNetworkUnits
    }
}

/// The errors of the library.
#[derive(Clone, Debug, PartialEq, Eq)]
pub enum Error {
    /// Neither a provider name nor the request to take it from the boot
    /// parameters was given.
    MissingProvider,
    /// The boot parameters hold no provider name.
    OemNotFound,
    /// The name selects no provider of the registry.
    UnknownProvider(String),
    /// Every permitted attempt at the metadata source failed with an error
    /// worth retrying; `cause` is the last of them.
    Exhausted { attempts: u32, cause: String },
    /// An attempt failed with an error that no retry can mend.
    Permanent { cause: String },
    /// The metadata service of the platform could not be reached, whatever
    /// was tried; `cause` is the last error.
    UnreachableProvider { attempts: u32, cause: String },
    /// The platform lacks what the provider needs to find its metadata.
    UnsupportedEnvironment(String),
    /// The text is no hostname.
    InvalidHostname(String),
    /// The text names no interface.
    InvalidInterfaceName(String),
}

/// The words that refuse `name` as the name of a provider.
pub open spec fn unknown_provider_text(name: Seq<char>) -> Seq<char> {
    "unknown provider '"@ + name + "'"@
}

/// The words that report that no provider was named.
pub open spec fn missing_provider_text() -> Seq<char> {
    "Must set either --provider or --cmdline"@
}

/// The words that report that the boot parameters name no provider: they
/// name the key that was looked for and the file that holds the boot
/// parameters.
pub open spec fn oem_not_found_text() -> Seq<char> {
    "Couldn't find '"@ + OEM_KEY@ + "' flag in cmdline file ("@ + CMDLINE_PATH@ + ")"@
}

/// The words that report that the boot parameters name no provider, in
/// full.
pub proof fn lemma_oem_not_found_text()
    ensures
        oem_not_found_text()
            == "Couldn't find 'coreos.oem.id' flag in cmdline file (/proc/cmdline)"@,
{
    reveal_strlit("Couldn't find '");
    reveal_strlit("coreos.oem.id");
    reveal_strlit("' flag in cmdline file (");
    reveal_strlit("/proc/cmdline");
    reveal_strlit(")");
    reveal_strlit("Couldn't find 'coreos.oem.id' flag in cmdline file (/proc/cmdline)");
    assert(oem_not_found_text()
        =~= "Couldn't find 'coreos.oem.id' flag in cmdline file (/proc/cmdline)"@);
}

impl Error {
    /// The words of this error.
    pub open spec fn message_text(self) -> Seq<char> {
        match self {
            Error::MissingProvider => missing_provider_text(),
            Error::OemNotFound => oem_not_found_text(),
            Error::UnknownProvider(name) => unknown_provider_text(name@),
            Error::Exhausted { attempts, cause } => "giving up after "@ + decimal(attempts as nat)
                + " attempts: "@ + cause@,
            Error::Permanent { cause } => cause@,
            Error::UnreachableProvider { attempts, cause } => "provider unreachable after "@
                + decimal(attempts as nat) + " attempts: "@ + cause@,
            Error::UnsupportedEnvironment(text) => "unsupported environment: "@ + text@,
            Error::InvalidHostname(text) => "invalid hostname '"@ + text@ + "'"@,
            Error::InvalidInterfaceName(text) => "invalid interface name '"@ + text@ + "'"@,
        }
    }

    /// The words of this error.
    pub fn message(&self) -> (r: String)
        ensures
            r@ == self.message_text(),
    {
        match self {
            Error::MissingProvider => String::from_str("Must set either --provider or --cmdline"),
            Error::OemNotFound => {
                let mut r = String::from_str("Couldn't find '");
                r.append(OEM_KEY);
                r.append("' flag in cmdline file (");
                r.append(CMDLINE_PATH);
                r.append(")");
                r
            },
            Error::UnknownProvider(name) => {
                let mut r = String::from_str("unknown provider '");
                r.append(name.as_str());
                r.append("'");
                r
            },
            Error::Exhausted { attempts, cause } => {
                let mut r = String::from_str("giving up after ");
                push_decimal(&mut r, *attempts);
                r.append(" attempts: ");
                r.append(cause.as_str());
                r
            },
            Error::Permanent { cause } => cause.clone(),
            Error::UnreachableProvider { attempts, cause } => {
                let mut r = String::from_str("provider unreachable after ");
                push_decimal(&mut r, *attempts);
                r.append(" attempts: ");
                r.append(cause.as_str());
                r
            },
            Error::UnsupportedEnvironment(text) => {
                let mut r = String::from_str("unsupported environment: ");
                r.append(text.as_str());
                r
            },
            Error::InvalidHostname(text) => {
                let mut r = String::from_str("invalid hostname '");
                r.append(text.as_str());
                r.append("'");
                r
            },
            Error::InvalidInterfaceName(text) => {
                let mut r = String::from_str("invalid interface name '");
                r.append(text.as_str());
                r.append("'");
                r
            },
        }
    }

    /// A copy of this error.
    pub fn duplicate(&self) -> (r: Error)
        ensures
            r == *self,
    {
        match self {
            Error::MissingProvider => Error::MissingProvider,
            Error::OemNotFound => Error::OemNotFound,
            Error::UnknownProvider(name) => Error::UnknownProvider(name.clone()),
            Error::Exhausted { attempts, cause } => Error::Exhausted {
                attempts: *attempts,
                cause: cause.clone(),
            },
            Error::Permanent { cause } => Error::Permanent { cause: cause.clone() },
            Error::UnreachableProvider { attempts, cause } => Error::UnreachableProvider {
                attempts: *attempts,
                cause: cause.clone(),
            },
            Error::UnsupportedEnvironment(text) => Error::UnsupportedEnvironment(text.clone()),
            Error::InvalidHostname(text) => Error::InvalidHostname(text.clone()),
            Error::InvalidInterfaceName(text) => Error::InvalidInterfaceName(text.clone()),
        }
    }

    /// This error as the error of the construction of a provider: a
    /// service that was given up on is unreachable; any other error stays as
    /// it is.
    pub fn at_construction(self) -> (r: Error)
        ensures
            match self {
                Error::Exhausted { attempts, cause } => r == (Error::UnreachableProvider {
                    attempts,
                    cause,
                }),
                _ => r == self,
            },
    {
        match self {
            Error::Exhausted { attempts, cause } => Error::UnreachableProvider { attempts, cause },
            other => other,
        }
    }

    /// This error as the failure of `stage`.
    pub fn at(&self, stage: Stage) -> (r: Failure)
        ensures
            r.stage == stage,
            r.message@ == self.message_text(),
    {
        Failure { stage, message: self.message() }
    }
}

/// An error together with the stage it occurred in. The error stays as it
/// was: the stage is added to it, not put in its place.
#[derive(Clone, Debug, PartialEq, Eq)]
pub struct Failure {
    pub stage: Stage,
    pub message: String,
}

impl Failure {
    /// The stage and the words of the error.
    pub open spec fn view(&self) -> (Stage, Seq<char>) {
        (self.stage, self.message@)
    }

    /// The line that reports this failure: the stage, a colon and a space,
    /// then the words of the error.
    pub open spec fn report_text(self) -> Seq<char> {
        self.stage.label_text() + ": "@ + self.message@
    }

    /// The line that reports this failure.
    pub fn report(&self) -> (r: String)
        ensures
            r@ == self.report_text(),
    {
        let mut r = String::from_str(self.stage.label());
        r.append(": ");
        r.append(self.message.as_str());
        r
    }
}

} // verus!
