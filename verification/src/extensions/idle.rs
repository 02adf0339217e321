//! Adds support for the IMAP IDLE command specificed in [RFC
//! 2177](https://tools.ietf.org/html/rfc2177).

use crate::error::{Error, Result};
use crate::parse::{idle_outcome, parse_idle};
use crate::types::UnsolicitedResponse;
use std::time::Duration;
use vstd::prelude::*;

verus! {

/// The duration of `secs` seconds, as `Duration::from_secs` makes it.
pub uninterp spec fn duration_from_secs(secs: u64) -> Duration;

/// `Duration::from_secs`. The contract claims that the duration depends on the number of
/// seconds alone.
#[verifier::external_body]
fn from_secs(secs: u64) -> (d: Duration)
    ensures
        d == duration_from_secs(secs),
{
    Duration::from_secs(secs)
}

/// The interval after which an idle connection is renewed, as RFC 2177 advises: 29 minutes.
pub open spec fn default_keepalive() -> Duration {
    duration_from_secs(1740u64)
}

/// `Handle` allows a client to block waiting for changes to the remote mailbox.
///
/// The handle blocks using the [`IDLE` command](https://tools.ietf.org/html/rfc2177#section-3)
/// specificed in [RFC 2177](https://tools.ietf.org/html/rfc2177) until the underlying server state
/// changes in some way. This is the state of the command: the keep-alive interval, and whether
/// the command was ended with `DONE`.
///
/// Note that the server MAY consider a client inactive if it has an IDLE command running, and if
/// such a server has an inactivity timeout it MAY log the client off implicitly at the end of its
/// timeout period.  Because of that, clients using IDLE are advised to terminate the IDLE and
/// re-issue it at least every 29 minutes to avoid being logged off.
#[derive(Debug)]
pub struct Handle {
    keepalive: Duration,
    done: bool,
}

/// The result of a wait on a [`Handle`]
#[derive(Debug, PartialEq, Eq)]
pub enum WaitOutcome {
    /// The wait timed out
    TimedOut,
    /// The mailbox was modified
    MailboxChanged,
}

/// Return type for IDLE response callbacks. Tells the IDLE connection
/// if it should continue monitoring the connection or not.
#[derive(Debug, PartialEq, Eq)]
pub enum CallbackAction {
    /// Continue receiving responses from the IDLE connection.
    Continue,
    /// Stop receiving responses, and exit the IDLE wait.
    Stop,
}

/// A convenience function to always cause the IDLE handler to exit on any change.
pub fn stop_on_any(_response: UnsolicitedResponse) -> (a: CallbackAction)
    ensures
        a == CallbackAction::Stop,
{
    CallbackAction::Stop
}

/// Must be implemented for a transport in order for a session using that transport to support
/// operations with timeouts.
pub trait SetReadTimeout {
    /// Set the timeout for subsequent reads to the given one.
    ///
    /// If `timeout` is `None`, the read timeout should be removed.
    fn set_read_timeout(&mut self, timeout: Option<Duration>) -> Result<()>;
}

impl Handle {
    /// The keep-alive interval.
    pub closed spec fn spec_keepalive(&self) -> Duration {
        self.keepalive
    }

    /// Whether the command was ended with `DONE`.
    pub closed spec fn spec_done(&self) -> bool {
        self.done
    }

    /// A handle for a new `IDLE` command: the default keep-alive interval, not yet done.
    pub fn make() -> (h: Handle)
        ensures
            h.spec_keepalive() == default_keepalive(),
            !h.spec_done(),
    {
        Handle { keepalive: from_secs(1740), done: false }
    }

    /// Takes the first line the server sends after `IDLE`: a continuation (`+`) starts the wait,
    /// and the handle is not done; any other line is the tagged reply of a command that failed.
    pub fn init(&mut self, line: &[u8]) -> (idling: bool)
        ensures
            idling == (line@.len() > 0 && line@[0] == 0x2b),
            idling ==> !final(self).spec_done(),
            !idling ==> final(self).spec_done() == old(self).spec_done(),
            final(self).spec_keepalive() == old(self).spec_keepalive(),
    {
        if line.len() > 0 && line[0] == 0x2b {
            self.done = false;
            true
        } else {
            false
        }
    }

    /// Ends the command: `DONE` must be sent, and its reply read, if it was not ended before.
    pub fn terminate(&mut self) -> (send_done: bool)
        ensures
            send_done == !old(self).spec_done(),
            final(self).spec_done(),
            final(self).spec_keepalive() == old(self).spec_keepalive(),
    {
        if !self.done {
            self.done = true;
            true
        } else {
            false
        }
    }

    /// Set the keep-alive interval to use when `wait_keepalive` is called.
    ///
    /// The interval defaults to 29 minutes as dictated by RFC 2177.
    pub fn set_keepalive(&mut self, interval: Duration)
        ensures
            final(self).spec_keepalive() == interval,
            final(self).spec_done() == old(self).spec_done(),
    {
        self.keepalive = interval;
    }

    /// The keep-alive interval.
    pub fn keepalive(&self) -> (d: Duration)
        ensures
            d == self.spec_keepalive(),
    {
        self.keepalive
    }
}

/// What a waiting client makes of the data it has read.
#[derive(Debug)]
pub enum IdleEvent {
    /// Nothing to act on yet: read more.
    Waiting,
    /// The server reported this change.
    Response(UnsolicitedResponse),
    /// The wait ends with this error.
    Failed(Error),
}

/// The bytes of Dovecot's keep-alive line while idling: `* OK Still here` and CRLF.
pub open spec fn still_here_bytes() -> Seq<u8> {
    seq![0x2au8, 0x20, 0x4f, 0x4b, 0x20, 0x53, 0x74, 0x69, 0x6c, 0x6c, 0x20, 0x68, 0x65, 0x72, 0x65, 0x0d, 0x0a]
}

/// Whether `a` and `b` are the same bytes when ASCII letters are compared without case.
pub open spec fn same_bytes_ignoring_case(a: Seq<u8>, b: Seq<u8>) -> bool {
    &&& a.len() == b.len()
    &&& forall|i: int| 0 <= i < a.len() ==> crate::types::id::lower(#[trigger] a[i]) == crate::types::id::lower(b[i])
}

fn lower_byte(b: u8) -> (r: u8)
    ensures
        r == crate::types::id::lower(b),
{
    if 0x41 <= b && b <= 0x5a {
        b + 32
    } else {
        b
    }
}

/// Whether `a` is Dovecot's keep-alive line, in any case.
fn is_still_here(a: &[u8]) -> (r: bool)
    ensures
        r == same_bytes_ignoring_case(a@, still_here_bytes()),
{
    let b: [u8; 17] = [0x2a, 0x20, 0x4f, 0x4b, 0x20, 0x53, 0x74, 0x69, 0x6c, 0x6c, 0x20, 0x68, 0x65, 0x72, 0x65, 0x0d, 0x0a];
    assert(b@ == still_here_bytes());
    if a.len() != 17 {
        return false;
    }
    let mut i: usize = 0;
    while i < 17
        invariant
            i <= 17,
            a@.len() == 17,
            b@ == still_here_bytes(),
            forall|j: int| 0 <= j < i ==> crate::types::id::lower(#[trigger] a@[j]) == crate::types::id::lower(b@[j]),
        decreases 17 - i,
    {
        if lower_byte(a[i]) != lower_byte(b[i]) {
            return false;
        }
        i = i + 1;
    }
    true
}

/// Whether `e` and the buffer `after` are what a waiting client makes of the buffer `before`:
/// Dovecot's keep-alive line is dropped; otherwise a response is read ([`idle_outcome`]): a
/// unilateral one is reported, with the bytes after it kept; an incomplete one keeps the bytes
/// for more to be read; anything else ends the wait with an error.
pub open spec fn idle_step_outcome(before: Seq<u8>, after: Seq<u8>, e: IdleEvent) -> bool {
    if same_bytes_ignoring_case(before, still_here_bytes()) {
        e is Waiting && after.len() == 0
    } else {
        match e {
            IdleEvent::Waiting => idle_outcome(before, after, None),
            IdleEvent::Response(u) => idle_outcome(before, after, Some(Ok(u))),
            IdleEvent::Failed(err) => exists|rest: Seq<u8>| idle_outcome(before, rest, Some(Err(err))),
        }
    }
}

/// What a waiting client makes of the data it has read into `buffer`
/// ([`idle_step_outcome`]).
pub fn idle_step(buffer: &mut Vec<u8>) -> (e: IdleEvent)
    ensures
        idle_step_outcome(old(buffer)@, final(buffer)@, e),
{
    if is_still_here(buffer.as_slice()) {
        buffer.clear();
        return IdleEvent::Waiting;
    }
    let (rest, out) = parse_idle(buffer.as_slice());
    match out {
        Some(Err(r)) => {
            let ghost rest_view = rest@;
            assert(idle_outcome(buffer@, rest_view, Some(Err(r))));
            IdleEvent::Failed(r)
        },
        Some(Ok(u)) => {
            let kept = vstd::slice::slice_to_vec(rest);
            *buffer = kept;
            IdleEvent::Response(u)
        },
        None => IdleEvent::Waiting,
    }
}

/// What a waiting client has just come to: a read that timed out, or the callback's answer to
/// a change that the server reported.
#[derive(Debug, PartialEq, Eq)]
pub enum WaitEvent {
    /// No line came within the read timeout.
    TimedOut,
    /// The callback answered a reported change.
    Answered(CallbackAction),
}

/// What a waiting client does next.
#[derive(Debug, PartialEq, Eq)]
pub enum WaitStep {
    /// Read the next line.
    ReadMore,
    /// End the `IDLE` command with `DONE`, issue it again and go on waiting.
    Renew,
    /// Stop waiting, with this outcome.
    Finish(WaitOutcome),
}

/// The next step of a wait, where `renew` says whether a wait renews the command when a read
/// times out (as the keep-alive wait does): a timeout renews the command or ends the wait as
/// timed out; a callback that stops ends it as a changed mailbox; one that continues reads on.
pub open spec fn wait_step_of(renew: bool, event: WaitEvent) -> WaitStep {
    match event {
        WaitEvent::TimedOut => if renew {
            WaitStep::Renew
        } else {
            WaitStep::Finish(WaitOutcome::TimedOut)
        },
        WaitEvent::Answered(CallbackAction::Stop) => WaitStep::Finish(WaitOutcome::MailboxChanged),
        WaitEvent::Answered(CallbackAction::Continue) => WaitStep::ReadMore,
    }
}

/// A wait renews the `IDLE` command only when a read times out in a wait that renews; a wait
/// that does not renew ends on a timeout as timed out; a callback that stops ends any wait as a
/// changed mailbox, and one that continues lets it read on.
pub proof fn lemma_wait_steps(renew: bool)
    ensures
        wait_step_of(true, WaitEvent::TimedOut) == WaitStep::Renew,
        wait_step_of(false, WaitEvent::TimedOut) == WaitStep::Finish(WaitOutcome::TimedOut),
        wait_step_of(renew, WaitEvent::Answered(CallbackAction::Stop)) == WaitStep::Finish(WaitOutcome::MailboxChanged),
        wait_step_of(renew, WaitEvent::Answered(CallbackAction::Continue)) == WaitStep::ReadMore,
        forall|e: WaitEvent| (#[trigger] wait_step_of(renew, e)) == WaitStep::Renew ==> renew && e == WaitEvent::TimedOut,
{
}

/// The next step of a wait ([`wait_step_of`]).
pub fn wait_step(renew: bool, event: WaitEvent) -> (s: WaitStep)
    ensures
        s == wait_step_of(renew, event),
{
    match event {
        WaitEvent::TimedOut => if renew {
            WaitStep::Renew
        } else {
            WaitStep::Finish(WaitOutcome::TimedOut)
        },
        WaitEvent::Answered(CallbackAction::Stop) => WaitStep::Finish(WaitOutcome::MailboxChanged),
        WaitEvent::Answered(CallbackAction::Continue) => WaitStep::ReadMore,
    }
}

} // verus!
