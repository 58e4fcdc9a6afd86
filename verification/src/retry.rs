//! Bounded retry with backoff. The library decides after each attempt
//! whether to stop, to wait and try again, or to give up; its caller makes
//! the attempts and does the waiting.

use vstd::prelude::*;
use crate::errors::Error;

verus! {

/// The longest wait between two attempts, in seconds.
pub const MAX_BACKOFF_SECONDS: u64 = 32;

/// What went wrong in one attempt at a metadata source.
#[derive(Clone, Copy, Debug, PartialEq, Eq, Structural)]
pub enum Fault {
    ConnectionRefused,
    ConnectionReset,
    Timeout,
    /// The source answered with this status code, which is no success.
    Status(u16),
    /// The source answered, and the answer cannot be read.
    MalformedBody,
}

impl Fault {
    /// Whether a later attempt may succeed where this one failed: a
    /// connection that was refused or reset, a timeout, or a status from
    /// 500 to 599. Any other status, and an answer that cannot be read, is
    /// permanent.
    pub open spec fn retryable(self) -> bool {
        match self {
            Fault::ConnectionRefused => true,
            Fault::ConnectionReset => true,
            Fault::Timeout => true,
            Fault::Status(code) => 500 <= code <= 599,
            Fault::MalformedBody => false,
        }
    }

    /// Whether a later attempt may succeed where this one failed.
    pub fn is_retryable(&self) -> (r: bool)
        ensures
            r == self.retryable(),
    {
        match self {
            Fault::ConnectionRefused => true,
            Fault::ConnectionReset => true,
            Fault::Timeout => true,
            Fault::Status(code) => 500 <= *code && *code <= 599,
            Fault::MalformedBody => false,
        }
    }
}

/// What an answer of the metadata service amounts to.
#[derive(Clone, Copy, Debug, PartialEq, Eq, Structural)]
pub enum Answer {
    /// The service sent the document.
    Document,
    /// The service has no such document: an answer, and no failure.
    Absent,
    /// The attempt failed.
    Failed(Fault),
}

/// What an answer with the status `code` amounts to: a status from 200 to
/// 299 brings the document, the status 404 says that there is none, and
/// every other status is a fault.
pub open spec fn answer_of(code: u16) -> Answer {
    if 200 <= code <= 299 {
        Answer::Document
    } else if code == 404 {
        Answer::Absent
    } else {
        Answer::Failed(Fault::Status(code))
    }
}

/// What an answer with the status `code` amounts to.
pub fn classify_status(code: u16) -> (r: Answer)
    ensures
        r == answer_of(code),
{
    if 200 <= code && code <= 299 {
        Answer::Document
    } else if code == 404 {
        Answer::Absent
    } else {
        Answer::Failed(Fault::Status(code))
    }
}

/// The fault of an attempt that got no answer, from what is known of the
/// error: a timeout if it timed out, else a refused connection if no
/// connection was made, else an unreadable answer if the answer could not be
/// read, and a reset connection if none of these is known.
pub open spec fn transport_fault(timed_out: bool, connecting: bool, unreadable: bool) -> Fault {
    if timed_out {
        Fault::Timeout
    } else if connecting {
        Fault::ConnectionRefused
    } else if unreadable {
        Fault::MalformedBody
    } else {
        Fault::ConnectionReset
    }
}

/// The fault of an attempt that got no answer.
pub fn classify_transport(timed_out: bool, connecting: bool, unreadable: bool) -> (r: Fault)
    ensures
        r == transport_fault(timed_out, connecting, unreadable),
{
    if timed_out {
        Fault::Timeout
    } else if connecting {
        Fault::ConnectionRefused
    } else if unreadable {
        Fault::MalformedBody
    } else {
        Fault::ConnectionReset
    }
}

/// A status that is a fault is worth another attempt exactly if it is from
/// 500 to 599; a status from 400 to 499 other than 404 is permanent.
pub proof fn lemma_status_faults(code: u16)
    ensures
        answer_of(code) matches Answer::Failed(fault) ==> fault == Fault::Status(code)
            && (fault.retryable() <==> 500 <= code <= 599),
        400 <= code <= 499 && code != 404 ==> answer_of(code) == Answer::Failed(
            Fault::Status(code),
        ) && !Fault::Status(code).retryable(),
        500 <= code <= 599 ==> answer_of(code) == Answer::Failed(Fault::Status(code)),
{
}

/// How one attempt ended.
#[derive(Clone, Copy, Debug, PartialEq, Eq, Structural)]
pub enum Outcome {
    Success,
    Retryable,
    Permanent,
}

/// How one attempt ended, with the words of the error if it failed.
#[derive(Clone, Debug, PartialEq, Eq)]
pub enum Attempt {
    Succeeded,
    Retryable(String),
    Permanent(String),
}

impl Attempt {
    /// How the attempt ended, without the words.
    pub open spec fn outcome(self) -> Outcome {
        match self {
            Attempt::Succeeded => Outcome::Success,
            Attempt::Retryable(_) => Outcome::Retryable,
            Attempt::Permanent(_) => Outcome::Permanent,
        }
    }

    /// The words of the error, empty for a success.
    pub open spec fn cause(self) -> Seq<char> {
        match self {
            Attempt::Succeeded => Seq::empty(),
            Attempt::Retryable(cause) => cause@,
            Attempt::Permanent(cause) => cause@,
        }
    }

    /// The attempt that `answer` stands for, with `words` as the words of
    /// the error if it failed: a document and the lack of one are both a
    /// success.
    pub fn answered(answer: Answer, words: String) -> (r: Attempt)
        ensures
            match answer {
                Answer::Document => r == Attempt::Succeeded,
                Answer::Absent => r == Attempt::Succeeded,
                Answer::Failed(fault) => r.cause() == words@ && r.outcome() == (
                if fault.retryable() {
                    Outcome::Retryable
                } else {
                    Outcome::Permanent
                }),
            },
    {
        match answer {
            Answer::Document => Attempt::Succeeded,
            Answer::Absent => Attempt::Succeeded,
            Answer::Failed(fault) => Attempt::failed(fault, words),
        }
    }

    /// The failed attempt that `fault` stands for, with `cause` as its words.
    pub fn failed(fault: Fault, cause: String) -> (r: Attempt)
        ensures
            r.cause() == cause@,
            r.outcome() == (if fault.retryable() {
                Outcome::Retryable
            } else {
                Outcome::Permanent
            }),
    {
        if fault.is_retryable() {
            Attempt::Retryable(cause)
        } else {
            Attempt::Permanent(cause)
        }
    }
}

/// What follows an attempt.
#[derive(Clone, Debug, PartialEq, Eq)]
pub enum Verdict {
    /// The attempt succeeded.
    Done,
    /// Wait this many seconds, then try again.
    RetryAfter(u64),
    /// Stop: the error says why.
    GiveUp(Error),
}

/// The seconds to wait after the `failed`-th failure in a row: one after the
/// first, then twice the wait before, and never more than
/// `MAX_BACKOFF_SECONDS`.
pub open spec fn backoff_seconds(failed: nat) -> nat
    decreases failed,
{
    if failed <= 1 {
        1
    } else if 2 * backoff_seconds((failed - 1) as nat) >= MAX_BACKOFF_SECONDS {
        MAX_BACKOFF_SECONDS as nat
    } else {
        2 * backoff_seconds((failed - 1) as nat)
    }
}

/// The wait is at least one second, at most `MAX_BACKOFF_SECONDS`, and never
/// shorter than the wait before.
pub proof fn lemma_backoff_bounds(failed: nat)
    ensures
        1 <= backoff_seconds(failed) <= MAX_BACKOFF_SECONDS,
        backoff_seconds(failed) <= backoff_seconds(failed + 1),
    decreases failed,
{
    if failed > 1 {
        lemma_backoff_bounds((failed - 1) as nat);
    }
}

/// The wait never gets shorter as failures add up.
pub proof fn lemma_backoff_monotonic(a: nat, b: nat)
    requires
        a <= b,
    ensures
        backoff_seconds(a) <= backoff_seconds(b),
    decreases b - a,
{
    if a < b {
        lemma_backoff_monotonic(a, (b - 1) as nat);
        lemma_backoff_bounds((b - 1) as nat);
    }
}

/// The seconds waited in all when `failed` attempts in a row have failed
/// and each was followed by its wait.
pub open spec fn total_wait(failed: nat) -> nat
    decreases failed,
{
    if failed == 0 {
        0
    } else {
        total_wait((failed - 1) as nat) + backoff_seconds(failed)
    }
}

/// The time spent waiting is bounded by the number of failures: no run
/// waits longer than `MAX_BACKOFF_SECONDS` for each of them.
pub proof fn lemma_total_wait_bounded(failed: nat)
    ensures
        failed <= total_wait(failed) <= failed * MAX_BACKOFF_SECONDS,
    decreases failed,
{
    if failed > 0 {
        lemma_total_wait_bounded((failed - 1) as nat);
        lemma_backoff_bounds(failed);
        assert(failed * MAX_BACKOFF_SECONDS == (failed - 1) * MAX_BACKOFF_SECONDS
            + MAX_BACKOFF_SECONDS) by (nonlinear_arith);
    }
}

/// The seconds to wait after the `failed`-th failure in a row.
pub fn backoff(failed: u32) -> (seconds: u64)
    ensures
        seconds == backoff_seconds(failed as nat),
{
    if failed <= 1 {
        return 1;
    }
    let mut seconds: u64 = 1;
    let mut n: u32 = 1;
    while n < failed && seconds < MAX_BACKOFF_SECONDS
        invariant
            1 <= n <= failed,
            seconds == backoff_seconds(n as nat),
            1 <= seconds <= MAX_BACKOFF_SECONDS,
        decreases failed - n,
    {
        n += 1;
        seconds = if 2 * seconds >= MAX_BACKOFF_SECONDS {
            MAX_BACKOFF_SECONDS
        } else {
            2 * seconds
        };
    }
    proof {
        if n < failed {
            lemma_backoff_monotonic(n as nat, failed as nat);
            lemma_backoff_bounds(failed as nat);
        }
    }
    seconds
}

/// The count of attempts made against a budget of permitted attempts.
#[derive(Clone, Copy, Debug, PartialEq, Eq)]
pub struct Retry {
    max_attempts: u32,
    attempts: u32,
}

/// The state after an attempt and what follows it, in words of the model:
/// the number of attempts made, and the step to take.
pub enum Step {
    Done,
    RetryAfter(nat),
    Exhausted,
    Permanent,
}

/// The attempts counted after one more attempt: an attempt within the
/// budget counts, one beyond it does not.
pub open spec fn counted(max: nat, made: nat) -> nat {
    if made < max {
        made + 1
    } else {
        made
    }
}

/// What follows an attempt that ended in `outcome`, when `made` attempts
/// were counted before it. A success ends the run. A permanent error ends it
/// at once, whatever is left of the budget. A retryable error is followed by
/// a wait while attempts are left, and ends the run when none is.
pub open spec fn step_after(max: nat, made: nat, outcome: Outcome) -> Step {
    match outcome {
        Outcome::Success => Step::Done,
        Outcome::Permanent => Step::Permanent,
        Outcome::Retryable => if counted(max, made) < max {
            Step::RetryAfter(backoff_seconds(counted(max, made)))
        } else {
            Step::Exhausted
        },
    }
}

impl Retry {
    /// The number of attempts permitted.
    pub closed spec fn max(self) -> nat {
        self.max_attempts as nat
    }

    /// The number of attempts made so far.
    pub closed spec fn made(self) -> nat {
        self.attempts as nat
    }

    #[verifier::type_invariant]
    spec fn within_budget(self) -> bool {
        self.attempts <= self.max_attempts
    }

    /// A budget of `max_attempts` attempts, none of them made.
    pub fn new(max_attempts: u32) -> (r: Retry)
        ensures
            r.max() == max_attempts,
            r.made() == 0,
    {
        Retry { max_attempts, attempts: 0 }
    }

    /// The number of attempts made so far.
    pub fn attempts(&self) -> (n: u32)
        ensures
            n == self.made(),
            self.made() <= self.max(),
    {
        proof {
            use_type_invariant(self);
        }
        self.attempts
    }

    /// The number of attempts permitted.
    pub fn max_attempts(&self) -> (n: u32)
        ensures
            n == self.max(),
    {
        self.max_attempts
    }

    /// Whether another attempt is within the budget.
    pub fn permits_attempt(&self) -> (r: bool)
        ensures
            r == (self.made() < self.max()),
    {
        self.attempts < self.max_attempts
    }

    /// Counts the attempt that ended as `attempt` says, and decides what
    /// follows. On giving up, the error carries the words of this attempt,
    /// the last one; after a retryable error it also carries the number of
    /// attempts made.
    pub fn record(&mut self, attempt: Attempt) -> (verdict: Verdict)
        ensures
            final(self).max() == old(self).max(),
            final(self).made() == counted(old(self).max(), old(self).made()),
            match step_after(old(self).max(), old(self).made(), attempt.outcome()) {
                Step::Done => verdict == Verdict::Done,
                Step::RetryAfter(seconds) => verdict == Verdict::RetryAfter(seconds as u64),
                Step::Exhausted => verdict matches Verdict::GiveUp(
                    Error::Exhausted { attempts, cause },
                ) && attempts == final(self).made() && cause@ == attempt.cause(),
                Step::Permanent => verdict matches Verdict::GiveUp(Error::Permanent { cause })
                    && cause@ == attempt.cause(),
            },
    {
        proof {
            use_type_invariant(&*self);
        }
        if self.attempts < self.max_attempts {
            self.attempts = self.attempts + 1;
        }
        match attempt {
            Attempt::Succeeded => Verdict::Done,
            Attempt::Permanent(cause) => Verdict::GiveUp(Error::Permanent { cause }),
            Attempt::Retryable(cause) => {
                if self.attempts < self.max_attempts {
                    proof {
                        lemma_backoff_bounds(self.attempts as nat);
                    }
                    Verdict::RetryAfter(backoff(self.attempts))
                } else {
                    Verdict::GiveUp(Error::Exhausted { attempts: self.attempts, cause })
                }
            },
        }
    }
}

/// How a run of attempts ended.
#[derive(Clone, Copy, Debug, PartialEq, Eq, Structural)]
pub enum End {
    /// An attempt succeeded.
    Succeeded,
    /// The budget was used up by retryable errors.
    Exhausted,
    /// An attempt failed with a permanent error.
    Permanent,
    /// Attempts are left, and no more outcomes were given.
    Pending,
}

/// A run of attempts: how many were made and how it ended.
#[derive(Clone, Copy, Debug, PartialEq, Eq, Structural)]
pub struct Run {
    pub attempts: u32,
    pub end: End,
}

/// The run that a budget of `max` attempts gives on an operation whose
/// attempts end as `outcomes` says, one after the other, when `made`
/// attempts were made already: the number of attempts made in all, and the
/// end.
pub open spec fn run_from(max: nat, outcomes: Seq<Outcome>, made: nat) -> (nat, End)
    decreases outcomes.len() - made,
{
    if made >= max {
        (made, End::Exhausted)
    } else if made >= outcomes.len() {
        (made, End::Pending)
    } else {
        match outcomes[made as int] {
            Outcome::Success => (made + 1, End::Succeeded),
            Outcome::Permanent => (made + 1, End::Permanent),
            Outcome::Retryable => run_from(max, outcomes, made + 1),
        }
    }
}

/// The run that a budget of `max` attempts gives on an operation whose
/// attempts end as `outcomes` says.
pub open spec fn run(max: nat, outcomes: Seq<Outcome>) -> (nat, End) {
    run_from(max, outcomes, 0)
}

/// While the outcomes from `made` up to `upto` are retryable errors and the
/// budget is not used up, the run goes on from `upto` as it does from
/// `made`.
proof fn lemma_run_skips_retryable(max: nat, outcomes: Seq<Outcome>, made: nat, upto: nat)
    requires
        made <= upto <= outcomes.len(),
        upto <= max,
        forall|i: int| made <= i < upto ==> outcomes[i] == Outcome::Retryable,
    ensures
        run_from(max, outcomes, made) == run_from(max, outcomes, upto),
    decreases upto - made,
{
    if made < upto {
        lemma_run_skips_retryable(max, outcomes, made + 1, upto);
    }
}

/// An operation that fails `n - 1` times with a retryable error and then
/// succeeds, under a budget of at least `n` attempts, succeeds after exactly
/// `n` attempts.
pub proof fn lemma_succeeds_on_nth_attempt(max: nat, outcomes: Seq<Outcome>, n: nat)
    requires
        1 <= n <= max,
        n <= outcomes.len(),
        forall|i: int| 0 <= i < n - 1 ==> outcomes[i] == Outcome::Retryable,
        outcomes[n - 1] == Outcome::Success,
    ensures
        run(max, outcomes) == (n, End::Succeeded),
{
    lemma_run_skips_retryable(max, outcomes, 0, (n - 1) as nat);
}

/// An operation that always fails with a retryable error, under a budget of
/// `max` attempts, fails after exactly `max` attempts.
pub proof fn lemma_gives_up_after_max_attempts(max: nat, outcomes: Seq<Outcome>)
    requires
        max <= outcomes.len(),
        forall|i: int| 0 <= i < max ==> outcomes[i] == Outcome::Retryable,
    ensures
        run(max, outcomes) == (max, End::Exhausted),
{
    lemma_run_skips_retryable(max, outcomes, 0, max);
}

/// A permanent error ends the run with the attempt in which it came,
/// whatever is left of the budget: as the first outcome, after exactly one
/// attempt.
pub proof fn lemma_permanent_error_short_circuits(max: nat, outcomes: Seq<Outcome>, n: nat)
    requires
        1 <= n <= max,
        n <= outcomes.len(),
        forall|i: int| 0 <= i < n - 1 ==> outcomes[i] == Outcome::Retryable,
        outcomes[n - 1] == Outcome::Permanent,
    ensures
        run(max, outcomes) == (n, End::Permanent),
        n == 1 ==> run(max, outcomes) == (1nat, End::Permanent),
{
    lemma_run_skips_retryable(max, outcomes, 0, (n - 1) as nat);
}

/// No run makes more attempts than its budget permits.
pub proof fn lemma_run_within_budget(max: nat, outcomes: Seq<Outcome>, made: nat)
    requires
        made <= max,
    ensures
        made <= run_from(max, outcomes, made).0 <= max,
    decreases outcomes.len() - made,
{
    if made < max && made < outcomes.len() && outcomes[made as int] == Outcome::Retryable {
        lemma_run_within_budget(max, outcomes, made + 1);
    }
}

/// Runs a budget of `max_attempts` attempts against an operation whose
/// attempts end as `outcomes` says, one after the other.
pub fn replay(max_attempts: u32, outcomes: &Vec<Outcome>) -> (r: Run)
    ensures
        (r.attempts as nat, r.end) == run(max_attempts as nat, outcomes@),
{
    let mut retry = Retry::new(max_attempts);
    let mut end = End::Pending;
    while retry.permits_attempt() && (retry.attempts() as usize) < outcomes.len()
        invariant
            retry.max() == max_attempts,
            retry.made() <= retry.max(),
            end == End::Pending,
            run(max_attempts as nat, outcomes@) == run_from(
                max_attempts as nat,
                outcomes@,
                retry.made(),
            ),
        decreases max_attempts - retry.made(),
    {
        let outcome = outcomes[retry.attempts() as usize];
        let attempt = match outcome {
            Outcome::Success => Attempt::Succeeded,
            Outcome::Retryable => Attempt::Retryable(String::new()),
            Outcome::Permanent => Attempt::Permanent(String::new()),
        };
        let ghost before = retry.made();
        let verdict = retry.record(attempt);
        proof {
            if outcome == Outcome::Retryable && before + 1 >= max_attempts {
                assert(run_from(max_attempts as nat, outcomes@, before + 1) == (
                    before + 1,
                    End::Exhausted,
                ));
            }
        }
        match verdict {
            Verdict::Done => {
                return Run { attempts: retry.attempts(), end: End::Succeeded };
            },
            Verdict::RetryAfter(_) => {},
            Verdict::GiveUp(Error::Permanent { .. }) => {
                return Run { attempts: retry.attempts(), end: End::Permanent };
            },
            Verdict::GiveUp(_) => {
                return Run { attempts: retry.attempts(), end: End::Exhausted };
            },
        }
    }
    if !retry.permits_attempt() {
        end = End::Exhausted;
    }
    Run { attempts: retry.attempts(), end }
}

} // verus!
