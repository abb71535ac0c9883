//! The interruptible capture loop's decisions.
//!
//! `capture_output` in the surrounding program spawns a command's process
//! with its standard output captured, then polls: has a reload been
//! requested, has the process exited, or neither? Each poll is reported
//! here as a [`PollEvent`], and [`capture_step`] decides what the loop does
//! next: a reload kills the process and respawns the same command, an exit
//! ends the capture with that attempt's outcome, and anything else keeps
//! polling. The capture only returns once an attempt exits without an
//! intervening reload; a reload is never an error and never reaches the
//! caller. When both a reload and an exit have happened by the time the
//! loop looks, the loop reports the reload: a reload observed before the
//! exit is observed always restarts.
//!
//! [`capture_from_events`] runs those decisions over a whole recorded
//! sequence of observations, which pins the loop's semantics down as one
//! function of the events alone.

use vstd::prelude::*;

use crate::command::Error;
use vstd::utf8::decode_utf8;
use vstd::utf8::valid_utf8;

verus! {

/// One observation made while polling a spawned attempt.
pub enum PollEvent {
    /// A reload was requested before the process was observed to exit.
    Reload,
    /// The process exited: `success` is whether the exit status was zero,
    /// `stdout` the raw captured output bytes, and `stderr` the captured
    /// error-stream text.
    Exited { success: bool, stdout: Vec<u8>, stderr: String },
    /// Neither has happened yet.
    Running,
}

/// The result of one execution attempt: it completed with its decoded
/// output, it genuinely failed, or it was cancelled by a reload (which the
/// capture loop absorbs by restarting; a cancellation never reaches the
/// caller).
pub enum RunOutcome {
    Completed(String),
    Failed(Error),
    Cancelled,
}

/// What the capture loop does after one poll.
pub enum PollStep {
    /// Kill the in-flight process (best effort) and respawn the same command.
    Restart,
    /// Nothing happened; poll again.
    KeepPolling,
    /// The capture is over with this result.
    Done(Result<String, Error>),
}

/// The spec-level value of an [`Error`], over character sequences.
pub ghost enum ErrorModel {
    Spawn(Seq<char>),
    Execution(Seq<char>),
    Decode,
}

impl View for Error {
    type V = ErrorModel;

    open spec fn view(&self) -> ErrorModel {
        match self {
            Error::Spawn(m) => ErrorModel::Spawn(m@),
            Error::Execution(m) => ErrorModel::Execution(m@),
            Error::Decode => ErrorModel::Decode,
        }
    }
}

/// The spec-level value of a capture result.
pub open spec fn result_model(r: Result<String, Error>) -> Result<Seq<char>, ErrorModel> {
    match r {
        Ok(s) => Ok(s@),
        Err(e) => Err(e@),
    }
}

/// The outcome an exited attempt owes: a non-zero exit fails with the
/// error-stream text whatever was printed on standard output; a zero exit
/// returns the decoded output, or a decode failure when the bytes are not
/// valid UTF-8.
pub open spec fn spec_exit_result(success: bool, stdout: Seq<u8>, stderr: Seq<char>) -> Result<
    Seq<char>,
    ErrorModel,
> {
    if !success {
        Err(ErrorModel::Execution(stderr))
    } else if valid_utf8(stdout) {
        Ok(decode_utf8(stdout))
    } else {
        Err(ErrorModel::Decode)
    }
}

/// The result one poll settles the capture on: the attempt's outcome when
/// the process was observed to exit, nothing otherwise.
pub open spec fn spec_poll_result(event: PollEvent) -> Option<Result<Seq<char>, ErrorModel>> {
    match event {
        PollEvent::Exited { success, stdout, stderr } => Some(
            spec_exit_result(success, stdout@, stderr@),
        ),
        _ => None,
    }
}

/// What a capture that observes exactly `events`, in order, returns: the
/// outcome of the first observed exit, and nothing at all while no exit has
/// been observed.
pub open spec fn spec_capture_result(events: Seq<PollEvent>) -> Option<
    Result<Seq<char>, ErrorModel>,
>
    decreases events.len(),
{
    if events.len() == 0 {
        None
    } else if events[0] is Exited {
        spec_poll_result(events[0])
    } else {
        spec_capture_result(events.drop_first())
    }
}

/// Relies on std's `String::from_utf8`: it returns the decoded text exactly
/// when the bytes are valid UTF-8 and fails otherwise.
#[verifier::external_body]
fn decode_captured(bytes: Vec<u8>) -> (r: Option<String>)
    ensures
        r is Some <==> valid_utf8(bytes@),
        r matches Some(s) ==> s@ == decode_utf8(bytes@),
{
    String::from_utf8(bytes).ok()
}

/// The result of one execution attempt, from what polling it observed: a
/// reload cancels the attempt, an exit completes or fails it, and anything
/// else leaves it still undecided.
pub fn observe_poll(event: PollEvent) -> (r: Option<RunOutcome>)
    ensures
        event is Reload ==> r == Some(RunOutcome::Cancelled),
        event is Running ==> r is None,
        event is Exited ==> r is Some,
        r matches Some(o) ==> (o is Cancelled <==> event is Reload),
        r matches Some(RunOutcome::Completed(s)) ==> spec_poll_result(event) == Some(Ok::<
            Seq<char>,
            ErrorModel,
        >(s@)),
        r matches Some(RunOutcome::Failed(e)) ==> spec_poll_result(event) == Some(Err::<
            Seq<char>,
            ErrorModel,
        >(e@)),
{
    match event {
        PollEvent::Reload => Some(RunOutcome::Cancelled),
        PollEvent::Running => None,
        PollEvent::Exited { success, stdout, stderr } => {
            if !success {
                Some(RunOutcome::Failed(Error::Execution(stderr)))
            } else {
                match decode_captured(stdout) {
                    Some(text) => Some(RunOutcome::Completed(text)),
                    None => Some(RunOutcome::Failed(Error::Decode)),
                }
            }
        },
    }
}

/// The loop's decision after one poll of the in-flight attempt: a cancelled
/// attempt is killed and restarted (cancellation never ends the capture and
/// never surfaces as an error), a decided attempt ends the capture with its
/// outcome, and an undecided one is polled again.
pub fn capture_step(event: PollEvent) -> (r: PollStep)
    ensures
        event is Reload ==> r is Restart,
        event is Running ==> r is KeepPolling,
        event is Exited ==> r is Done,
        r matches PollStep::Done(res) ==> spec_poll_result(event) == Some(result_model(res)),
{
    match observe_poll(event) {
        None => PollStep::KeepPolling,
        Some(RunOutcome::Cancelled) => PollStep::Restart,
        Some(RunOutcome::Completed(text)) => PollStep::Done(Ok(text)),
        Some(RunOutcome::Failed(e)) => PollStep::Done(Err(e)),
    }
}

/// Runs the capture loop's decisions over a whole recorded sequence of
/// observations, in order: the capture returns the outcome of the first
/// observed exit, and has no result when no exit was observed.
#[verifier::loop_isolation(false)]
pub fn capture_from_events(events: Vec<PollEvent>) -> (r: Option<Result<String, Error>>)
    ensures
        r is Some <==> spec_capture_result(events@) is Some,
        r matches Some(res) ==> spec_capture_result(events@) == Some(result_model(res)),
{
    let ghost all = events@;
    let mut remaining = events;
    let total = remaining.len();
    let mut i: usize = 0;
    proof {
        assert(all.skip(0) =~= all);
    }
    loop
        invariant
            remaining@ == all.skip(i as int),
            0 <= i <= total,
            spec_capture_result(all) == spec_capture_result(all.skip(i as int)),
        decreases total - i,
    {
        if remaining.len() == 0 {
            proof {
                assert(all.skip(i as int).len() == 0);
            }
            return None;
        }
        proof {
            assert(all.skip(i as int).len() == all.len() - i);
            assert(i < all.len());
        }
        let event = remaining.remove(0);
        proof {
            assert(event == all.skip(i as int)[0]);
            assert(remaining@ =~= all.skip(i as int).drop_first());
            assert(all.skip(i as int).drop_first() =~= all.skip(i as int + 1));
        }
        match capture_step(event) {
            PollStep::Done(res) => {
                proof {
                    assert(event is Exited);
                    assert(spec_capture_result(all.skip(i as int)) == spec_poll_result(event));
                }
                return Some(res);
            },
            _ => {
                proof {
                    assert(!(event is Exited));
                    assert(spec_capture_result(all.skip(i as int)) == spec_capture_result(
                        all.skip(i as int + 1),
                    ));
                }
                i = i + 1;
            },
        }
    }
}

/// A capture that observes no exit never returns: reloads and idle polls
/// only restart or continue it.
pub proof fn lemma_capture_without_exit_never_returns(events: Seq<PollEvent>)
    requires
        forall|j: int| 0 <= j < events.len() ==> !(events[j] is Exited),
    ensures
        spec_capture_result(events) is None,
    decreases events.len(),
{
    if events.len() > 0 {
        lemma_capture_without_exit_never_returns(events.drop_first());
    }
}

/// A reload signaled before a command exits only restarts the attempt: the
/// capture returns exactly the outcome of the first observed exit, however
/// many reloads or idle polls came before it.
pub proof fn lemma_capture_returns_first_exit(events: Seq<PollEvent>, i: int)
    requires
        0 <= i < events.len(),
        events[i] is Exited,
        forall|j: int| 0 <= j < i ==> !(events[j] is Exited),
    ensures
        spec_capture_result(events) == spec_poll_result(events[i]),
        spec_capture_result(events) is Some,
    decreases i,
{
    if i > 0 {
        lemma_capture_returns_first_exit(events.drop_first(), i - 1);
    }
}

} // verus!
