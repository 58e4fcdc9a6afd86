//! The course of a run: which step comes next, given how the last one
//! ended. The library decides; its caller reads, fetches and writes, and
//! reports back.

use vstd::prelude::*;
use crate::cmdline::{get_oem, value_of, OEM_KEY};
use crate::config::{Config, ProviderSource};
use crate::errors::{
    missing_provider_text, oem_not_found_text, unknown_provider_text, Error, Failure, Stage,
};
use crate::providers::{resolve, resolved, ProviderKind};

verus! {

/// The number of writers.
pub const WRITERS: usize = 4;

/// Where a run stands.
#[derive(Clone, Copy, Debug, PartialEq, Eq, Structural)]
pub enum Phase {
    /// The boot parameters are to be read.
    AwaitingBootParameters,
    /// The metadata of this provider is to be fetched.
    AwaitingFetch(ProviderKind),
    /// The writer with this number is to write its artifact.
    Writing(usize),
    /// Nothing is left to do.
    Finished,
}

/// What the caller is to do next.
#[derive(Clone, Debug, PartialEq, Eq)]
pub enum Action {
    /// Read the boot parameters.
    ReadBootParameters,
    /// Construct the provider and fetch its metadata.
    Fetch(ProviderKind),
    /// Write the artifact of `stage` to `target`.
    Write { stage: Stage, target: String },
    /// Stop, and exit as the failures say.
    Finish,
}

/// How the step that the caller was asked for ended. A failure comes with
/// its words.
#[derive(Debug, PartialEq, Eq)]
pub enum Event {
    /// The boot parameters were read: their contents.
    BootParameters(Result<String, String>),
    /// The provider was constructed and its metadata fetched.
    Fetched(Result<(), String>),
    /// The artifact was written.
    Written(Result<(), String>),
}

/// The stage of the writer with the number `i`: attributes, SSH keys,
/// hostname, network units, in this order.
pub open spec fn writer_stage(i: int) -> Stage {
    if i == 0 {
        Stage::WritingAttributes
    } else if i == 1 {
        Stage::WritingSshKeys
    } else if i == 2 {
        Stage::WritingHostname
    } else {
        Stage::WritingNetworkUnits
    }
}

/// The four writers have the four writing stages, each its own; the stages
/// before them write nothing.
pub proof fn lemma_writer_stages(i: int, j: int)
    requires
        0 <= i < WRITERS,
        0 <= j < WRITERS,
    ensures
        writer_stage(i).is_writer(),
        i != j ==> writer_stage(i) != writer_stage(j),
        !Stage::Initialization.is_writer(),
        !Stage::FetchingMetadata.is_writer(),
        forall|s: Stage| s.is_writer() ==> exists|k: int| 0 <= k < WRITERS && #[trigger] writer_stage(k) == s,
{
    assert forall|s: Stage| s.is_writer() implies exists|k: int|
        0 <= k < WRITERS && #[trigger] writer_stage(k) == s by {
        if s == Stage::WritingAttributes {
            assert(writer_stage(0) == s);
        } else if s == Stage::WritingSshKeys {
            assert(writer_stage(1) == s);
        } else if s == Stage::WritingHostname {
            assert(writer_stage(2) == s);
        } else {
            assert(writer_stage(3) == s);
        }
    }
}

/// A target as text.
pub open spec fn target_text(target: Option<String>) -> Option<Seq<char>> {
    match target {
        Some(t) => Some(t@),
        None => None,
    }
}

/// The target of the writer with the number `i`, if it was configured.
pub open spec fn writer_target(config: Config, i: int) -> Option<Seq<char>> {
    if i == 0 {
        target_text(config.attributes_file)
    } else if i == 1 {
        target_text(config.ssh_keys_user)
    } else if i == 2 {
        target_text(config.hostname_file)
    } else if i == 3 {
        target_text(config.network_units_dir)
    } else {
        None
    }
}

/// The phase in which the first configured writer from `from` on has its
/// turn; with no such writer the run is finished.
pub open spec fn next_writer(config: Config, from: int) -> Phase
    decreases WRITERS - from,
{
    if from < 0 || from >= WRITERS {
        Phase::Finished
    } else if writer_target(config, from) is Some {
        Phase::Writing(from as usize)
    } else {
        next_writer(config, from + 1)
    }
}

/// A stage and the words of the error.
pub type FailureView = (Stage, Seq<char>);

/// Where a run begins. A provider that was named is looked up at once, and
/// an unknown name ends the run. Without a name the boot parameters are read
/// if that was asked for; if not, the run ends before anything is read or
/// fetched.
pub open spec fn initial(config: Config) -> (Phase, Seq<FailureView>) {
    match config.provider {
        Some(name) => match resolved(name@) {
            Some(kind) => (Phase::AwaitingFetch(kind), Seq::empty()),
            None => (
                Phase::Finished,
                seq![(Stage::FetchingMetadata, unknown_provider_text(name@))],
            ),
        },
        None => if config.cmdline {
            (Phase::AwaitingBootParameters, Seq::empty())
        } else {
            (Phase::Finished, seq![(Stage::Initialization, missing_provider_text())])
        },
    }
}

/// Where a run stands after `event`, and the failures it has collected. A
/// failure before the writers ends the run. The failure of a writer is
/// collected, and the next configured writer has its turn all the same. An
/// event that the phase does not await changes nothing.
pub open spec fn after(
    config: Config,
    phase: Phase,
    failures: Seq<FailureView>,
    event: Event,
) -> (Phase, Seq<FailureView>) {
    match (phase, event) {
        (Phase::AwaitingBootParameters, Event::BootParameters(Ok(contents))) => match value_of(
            contents@,
            OEM_KEY@,
        ) {
            Some(name) => match resolved(name) {
                Some(kind) => (Phase::AwaitingFetch(kind), failures),
                None => (
                    Phase::Finished,
                    failures.push((Stage::FetchingMetadata, unknown_provider_text(name))),
                ),
            },
            None => (Phase::Finished, failures.push((Stage::Initialization, oem_not_found_text()))),
        },
        (Phase::AwaitingBootParameters, Event::BootParameters(Err(words))) => (
            Phase::Finished,
            failures.push((Stage::Initialization, words@)),
        ),
        (Phase::AwaitingFetch(_), Event::Fetched(Ok(_))) => (next_writer(config, 0), failures),
        (Phase::AwaitingFetch(_), Event::Fetched(Err(words))) => (
            Phase::Finished,
            failures.push((Stage::FetchingMetadata, words@)),
        ),
        (Phase::Writing(i), Event::Written(Ok(_))) => (next_writer(config, i + 1), failures),
        (Phase::Writing(i), Event::Written(Err(words))) => (
            next_writer(config, i + 1),
            failures.push((writer_stage(i as int), words@)),
        ),
        _ => (phase, failures),
    }
}

/// The writer that has its turn is one that was configured, and no
/// configured writer before it was passed over; the run is finished only
/// when no configured writer is left.
pub proof fn lemma_next_writer(config: Config, from: int)
    requires
        0 <= from,
    ensures
        match next_writer(config, from) {
            Phase::Writing(k) => from <= k < WRITERS && writer_target(config, k as int) is Some
                && forall|j: int| from <= j < k ==> writer_target(config, j) is None,
            Phase::Finished => forall|j: int| from <= j ==> writer_target(config, j) is None,
            _ => false,
        },
    decreases WRITERS - from,
{
    if from < WRITERS && writer_target(config, from) is None {
        lemma_next_writer(config, from + 1);
    }
}

/// With no provider named and the boot parameters not asked for, the run is
/// over before it asks its caller for anything, with one failure of the
/// stage of initialization.
pub proof fn lemma_missing_provider_ends_run(config: Config)
    requires
        config.provider is None,
        !config.cmdline,
    ensures
        initial(config) == (
            Phase::Finished,
            seq![(Stage::Initialization, missing_provider_text())],
        ),
{
}

/// A writer that fails does not keep the writers after it from their turn:
/// the phase after a writer is the same whether it failed or not. Its
/// failure is added to those collected, and none of them is lost.
pub proof fn lemma_writer_failure_is_collected(
    config: Config,
    i: usize,
    failures: Seq<FailureView>,
    words: String,
)
    ensures
        after(config, Phase::Writing(i), failures, Event::Written(Err(words))).0 == after(
            config,
            Phase::Writing(i),
            failures,
            Event::Written(Ok(())),
        ).0,
        after(config, Phase::Writing(i), failures, Event::Written(Err(words))).1
            == failures.push((writer_stage(i as int), words@)),
        after(config, Phase::Writing(i), failures, Event::Written(Ok(()))).1 == failures,
{
}

/// No event takes a failure away: what was collected before is the
/// beginning of what is collected after.
pub proof fn lemma_failures_are_kept(
    config: Config,
    phase: Phase,
    failures: Seq<FailureView>,
    event: Event,
)
    ensures
        failures.is_prefix_of(after(config, phase, failures, event).1),
{
    let next = after(config, phase, failures, event).1;
    if next != failures {
        assert(next.len() == failures.len() + 1);
        assert(next.subrange(0, failures.len() as int) =~= failures);
    }
}

/// Whether `phase` awaits an event of the kind of `event`.
pub open spec fn awaits(phase: Phase, event: Event) -> bool {
    match (phase, event) {
        (Phase::AwaitingBootParameters, Event::BootParameters(_)) => true,
        (Phase::AwaitingFetch(_), Event::Fetched(_)) => true,
        (Phase::Writing(_), Event::Written(_)) => true,
        _ => false,
    }
}

/// The most events that a run in `phase` can still await.
pub open spec fn steps_left(phase: Phase) -> nat {
    match phase {
        Phase::AwaitingBootParameters => 6,
        Phase::AwaitingFetch(_) => 5,
        Phase::Writing(i) => if i < WRITERS {
            (WRITERS - i) as nat
        } else {
            1
        },
        Phase::Finished => 0,
    }
}

/// Every event that the run awaits brings it nearer to its end, so that a
/// run is over after six events at most; a finished run awaits nothing.
pub proof fn lemma_run_advances(
    config: Config,
    phase: Phase,
    failures: Seq<FailureView>,
    event: Event,
)
    requires
        awaits(phase, event),
    ensures
        steps_left(after(config, phase, failures, event).0) < steps_left(phase),
        steps_left(phase) <= 6,
        forall|e: Event| !awaits(Phase::Finished, e),
{
    lemma_next_writer(config, 0);
    match phase {
        Phase::Writing(i) => {
            lemma_next_writer(config, i + 1);
        },
        _ => {},
    }
}

/// A run: what it was asked to do, where it stands, and the failures it has
/// collected.
#[derive(Debug, PartialEq, Eq)]
pub struct Run {
    config: Config,
    phase: Phase,
    failures: Vec<Failure>,
}

impl Run {
    /// What the run was asked to do.
    pub closed spec fn config(&self) -> Config {
        self.config
    }

    /// Where the run stands.
    pub closed spec fn phase(&self) -> Phase {
        self.phase
    }

    /// The failures collected so far, in the order in which they came.
    pub closed spec fn collected(&self) -> Seq<FailureView> {
        self.failures@.map_values(|f: Failure| f@)
    }

    /// A writer that has its turn is one that was configured. Every run
    /// that this library hands out is well formed.
    pub closed spec fn wf(&self) -> bool {
        self.phase matches Phase::Writing(i) ==> i < WRITERS && writer_target(
            self.config,
            i as int,
        ) is Some
    }

    /// The writer that has its turn from `from` on.
    fn writer_from(config: &Config, from: usize) -> (phase: Phase)
        ensures
            phase == next_writer(*config, from as int),
    {
        let mut i: usize = from;
        while i < WRITERS
            invariant
                next_writer(*config, from as int) == next_writer(*config, i as int),
            decreases WRITERS - i,
        {
            let configured = if i == 0 {
                config.attributes_file.is_some()
            } else if i == 1 {
                config.ssh_keys_user.is_some()
            } else if i == 2 {
                config.hostname_file.is_some()
            } else {
                config.network_units_dir.is_some()
            };
            if configured {
                return Phase::Writing(i);
            }
            i += 1;
        }
        Phase::Finished
    }

    /// A run of `config`, at its beginning.
    pub fn new(config: Config) -> (r: Run)
        ensures
            r.wf(),
            r.config() == config,
            (r.phase(), r.collected()) == initial(config),
    {
        let mut failures: Vec<Failure> = Vec::new();
        let phase = match config.provider_source() {
            ProviderSource::Named(name) => match resolve(name.as_str()) {
                Some(kind) => Phase::AwaitingFetch(kind),
                None => {
                    failures.push(Error::UnknownProvider(name).at(Stage::FetchingMetadata));
                    Phase::Finished
                },
            },
            ProviderSource::BootParameters => Phase::AwaitingBootParameters,
            ProviderSource::Missing => {
                failures.push(Error::MissingProvider.at(Stage::Initialization));
                Phase::Finished
            },
        };
        let r = Run { config, phase, failures };
        assert(r.collected() =~= initial(config).1);
        r
    }

    /// What the caller is to do next: each phase asks for one thing.
    pub fn pending(&self) -> (action: Action)
        requires
            self.wf(),
        ensures
            match action {
                Action::ReadBootParameters => self.phase() == Phase::AwaitingBootParameters,
                Action::Fetch(kind) => self.phase() == Phase::AwaitingFetch(kind),
                Action::Write { stage, target } => self.phase() matches Phase::Writing(i) && stage
                    == writer_stage(i as int) && writer_target(self.config(), i as int) == Some(
                    target@,
                ),
                Action::Finish => self.phase() == Phase::Finished,
            },
    {
        match self.phase {
            Phase::AwaitingBootParameters => Action::ReadBootParameters,
            Phase::AwaitingFetch(kind) => Action::Fetch(kind),
            Phase::Finished => Action::Finish,
            Phase::Writing(i) => {
                let (stage, target) = if i == 0 {
                    (Stage::WritingAttributes, &self.config.attributes_file)
                } else if i == 1 {
                    (Stage::WritingSshKeys, &self.config.ssh_keys_user)
                } else if i == 2 {
                    (Stage::WritingHostname, &self.config.hostname_file)
                } else {
                    (Stage::WritingNetworkUnits, &self.config.network_units_dir)
                };
                match target {
                    Some(t) => Action::Write { stage, target: t.clone() },
                    None => Action::Finish,
                }
            },
        }
    }

    /// Takes note of how the step that was asked for ended, and says what
    /// the caller is to do next.
    pub fn step(&mut self, event: Event) -> (action: Action)
        requires
            old(self).wf(),
        ensures
            final(self).wf(),
            final(self).config() == old(self).config(),
            (final(self).phase(), final(self).collected()) == after(
                old(self).config(),
                old(self).phase(),
                old(self).collected(),
                event,
            ),
            match action {
                Action::ReadBootParameters => final(self).phase() == Phase::AwaitingBootParameters,
                Action::Fetch(kind) => final(self).phase() == Phase::AwaitingFetch(kind),
                Action::Write { stage, target } => final(self).phase() matches Phase::Writing(i)
                    && stage == writer_stage(i as int) && writer_target(
                    final(self).config(),
                    i as int,
                ) == Some(target@),
                Action::Finish => final(self).phase() == Phase::Finished,
            },
    {
        let ghost before = self.collected();
        let mut failure: Option<Failure> = None;
        let phase = match (self.phase, event) {
            (Phase::AwaitingBootParameters, Event::BootParameters(Ok(contents))) => {
                match get_oem(contents.as_str()) {
                    Ok(name) => match resolve(name.as_str()) {
                        Some(kind) => Phase::AwaitingFetch(kind),
                        None => {
                            failure = Some(
                                Error::UnknownProvider(name).at(Stage::FetchingMetadata),
                            );
                            Phase::Finished
                        },
                    },
                    Err(e) => {
                        failure = Some(e.at(Stage::Initialization));
                        Phase::Finished
                    },
                }
            },
            (Phase::AwaitingBootParameters, Event::BootParameters(Err(words))) => {
                failure = Some(Failure { stage: Stage::Initialization, message: words });
                Phase::Finished
            },
            (Phase::AwaitingFetch(_), Event::Fetched(Ok(_))) => Run::writer_from(&self.config, 0),
            (Phase::AwaitingFetch(_), Event::Fetched(Err(words))) => {
                failure = Some(Failure { stage: Stage::FetchingMetadata, message: words });
                Phase::Finished
            },
            (Phase::Writing(i), Event::Written(outcome)) => {
                match outcome {
                    Ok(_) => {},
                    Err(words) => {
                        let stage = if i == 0 {
                            Stage::WritingAttributes
                        } else if i == 1 {
                            Stage::WritingSshKeys
                        } else if i == 2 {
                            Stage::WritingHostname
                        } else {
                            Stage::WritingNetworkUnits
                        };
                        failure = Some(Failure { stage, message: words });
                    },
                }
                Run::writer_from(&self.config, i + 1)
            },
            (phase, _) => phase,
        };
        proof {
            lemma_next_writer(self.config, 0);
            match self.phase {
                Phase::Writing(i) => {
                    lemma_next_writer(self.config, i + 1);
                },
                _ => {},
            }
        }
        self.phase = phase;
        match failure {
            Some(f) => {
                let ghost added = f@;
                self.failures.push(f);
                proof {
                    assert(self.collected() =~= before.push(added));
                }
            },
            None => {},
        }
        self.pending()
    }

    /// Whether nothing is left to do.
    pub fn finished(&self) -> (r: bool)
        ensures
            r == (self.phase() == Phase::Finished),
    {
        match self.phase {
            Phase::Finished => true,
            _ => false,
        }
    }

    /// The failures collected so far, in the order in which they came.
    pub fn failures(&self) -> (r: &Vec<Failure>)
        ensures
            r@.map_values(|f: Failure| f@) == self.collected(),
    {
        &self.failures
    }

    /// The exit status that the failures collected so far ask for: 0 if
    /// there is none, 1 if there is any.
    pub fn exit_code(&self) -> (code: i32)
        ensures
            code == (if self.collected().len() == 0 {
                0int
            } else {
                1int
            }),
    {
        if self.failures.len() == 0 {
            0
        } else {
            1
        }
    }
}

} // verus!
