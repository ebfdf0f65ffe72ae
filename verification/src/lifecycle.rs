//! The server lifecycle controller's decision core.  Two flags — *stopping*
//! (a stop was requested) and *stopped* (no worker currently runs the loop)
//! — move the server through Idle, Running and Draining.  Callers keep the
//! flags wherever they like (e.g. in atomics shared with a worker thread);
//! every decision about them is taken here, over a plain value of the pair.
use vstd::prelude::*;

verus! {

/// Declares `std::io::Error` so the error taxonomy can carry the OS report
/// verbatim; nothing is assumed about a value of it.
#[verifier::external_type_specification]
#[verifier::external_body]
pub struct ExIoError(std::io::Error);

/// Why a lifecycle call was refused, or what the OS reported at construction.
#[derive(Debug)]
pub enum Error {
    /// An underlying OS-level failure (bind, accept, read, write).
    Io(std::io::Error),
    /// A stop was requested but the server is already stopped.
    NotStarted,
    /// A stop was requested while a drain is already in progress.
    AlreadyStopping,
    /// A start was requested while the server is still running.
    NotStopped,
    /// A start was requested while a drain is in progress.
    IsStopping,
}

impl std::convert::From<std::io::Error> for Error {
    fn from(io_error: std::io::Error) -> (r: Error) {
        Error::Io(io_error)
    }
}

impl vstd::std_specs::convert::FromSpecImpl<std::io::Error> for Error {
    open spec fn obeys_from_spec() -> bool {
        true
    }

    open spec fn from_spec(t: std::io::Error) -> Error {
        Error::Io(t)
    }
}

/// The two lifecycle flags, as one value.
#[derive(Clone, Copy, Debug, PartialEq, Eq, Structural)]
pub struct Lifecycle {
    /// A stop has been requested since the last successful start.
    pub stopping: bool,
    /// No worker currently owns loop execution.
    pub stopped: bool,
}

/// A stop request is honoured exactly while the server runs undisturbed.
pub open spec fn stop_allowed(l: Lifecycle) -> bool {
    !l.stopped && !l.stopping
}

/// The refusal a disallowed stop request gets.
pub open spec fn stop_refusal(l: Lifecycle) -> Error {
    if l.stopped {
        Error::NotStarted
    } else {
        Error::AlreadyStopping
    }
}

/// The state after an honoured stop request: the drain begins.
pub open spec fn after_request_stop(l: Lifecycle) -> Lifecycle {
    Lifecycle { stopping: true, ..l }
}

/// A start is honoured exactly while no worker runs the loop.
pub open spec fn start_allowed(l: Lifecycle) -> bool {
    l.stopped
}

/// The refusal a disallowed start request gets.
pub open spec fn start_refusal(l: Lifecycle) -> Error {
    if l.stopping {
        Error::IsStopping
    } else {
        Error::NotStopped
    }
}

/// The state after the worker observes the stop request and exits the loop.
pub open spec fn after_worker_exit(l: Lifecycle) -> Lifecycle {
    Lifecycle { stopped: true, ..l }
}

impl Lifecycle {
    pub open spec fn idle(&self) -> bool {
        self.stopped && !self.stopping
    }

    pub open spec fn running(&self) -> bool {
        !self.stopped && !self.stopping
    }

    pub open spec fn draining(&self) -> bool {
        !self.stopped && self.stopping
    }

    /// A fresh controller: idle, nothing requested.
    pub fn new() -> (l: Lifecycle)
        ensures
            l.idle(),
    {
        Lifecycle { stopping: false, stopped: true }
    }

    /// Rebuilds the pair from flags kept elsewhere (e.g. read from atomics).
    pub fn from_flags(stopping: bool, stopped: bool) -> (l: Lifecycle)
        ensures
            l.stopping == stopping,
            l.stopped == stopped,
    {
        Lifecycle { stopping, stopped }
    }

    /// Decides a request to start the worker loop: refused with `IsStopping`
    /// while a drain is in progress and with `NotStopped` while the loop
    /// still runs; otherwise both flags are reset and the server runs.
    pub fn try_start(&mut self) -> (r: Result<(), Error>)
        ensures
            start_allowed(*old(self)) ==> r is Ok && final(self).running(),
            !start_allowed(*old(self)) ==> (r matches Err(e) && e == start_refusal(*old(self))
                && *final(self) == *old(self)),
    {
        if !self.stopped {
            if self.stopping {
                return Err(Error::IsStopping);
            }
            return Err(Error::NotStopped);
        }
        self.stopping = false;
        self.stopped = false;
        Ok(())
    }

    /// Decides a stop request: refused with `NotStarted` when already
    /// stopped and with `AlreadyStopping` during a drain; otherwise the
    /// *stopping* flag is raised and the drain begins — the worker notices
    /// within one bounded-wait interval.
    pub fn try_request_stop(&mut self) -> (r: Result<(), Error>)
        ensures
            stop_allowed(*old(self)) ==> r is Ok && *final(self) == after_request_stop(
                *old(self),
            ) && final(self).draining(),
            !stop_allowed(*old(self)) ==> (r matches Err(e) && e == stop_refusal(*old(self))
                && *final(self) == *old(self)),
    {
        if self.stopped {
            return Err(Error::NotStarted);
        }
        if self.stopping {
            return Err(Error::AlreadyStopping);
        }
        self.stopping = true;
        Ok(())
    }

    /// The worker records that it has left the loop; a blocked `stop` call
    /// waiting on this flag may now return.
    pub fn mark_stopped(&mut self)
        ensures
            *final(self) == after_worker_exit(*old(self)),
            final(self).stopped,
    {
        self.stopped = true;
    }

    /// Whether the worker should run one more bounded iteration.
    pub fn keep_running(&self) -> (r: bool)
        ensures
            r == !self.stopping,
    {
        !self.stopping
    }

    /// Whether a blocked `stop` call may return.
    pub fn is_stopped(&self) -> (r: bool)
        ensures
            r == self.stopped,
    {
        self.stopped
    }
}

/// Lifecycle law, stopping twice: from a running server the first stop
/// request is honoured and starts the drain; once the worker has observed it
/// and exited, a second stop request is refused with `NotStarted`.
pub proof fn lemma_stop_twice(l: Lifecycle)
    requires
        l.running(),
    ensures
        stop_allowed(l),
        !stop_allowed(after_worker_exit(after_request_stop(l))),
        stop_refusal(after_worker_exit(after_request_stop(l))) is NotStarted,
{
}

/// Lifecycle law, starting while running: a start request against a running
/// server is refused with `NotStopped`, and the flags stay untouched.
pub proof fn lemma_start_while_running(l: Lifecycle)
    requires
        l.running(),
    ensures
        !start_allowed(l),
        start_refusal(l) is NotStopped,
{
}

} // verus!
