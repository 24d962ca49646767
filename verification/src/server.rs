//! The life of the server: started, accepting, stopped.
//!
//! The listening socket belongs to the caller. The caller asks
//! [`Server::is_running`] before each attempt to accept, reports what the
//! attempt came to with [`Server::on_accept`], and does what that returns.
use crate::pool::WorkerPool;
use vstd::prelude::*;

verus! {

/// The number of workers that service connections, and so the number of
/// connections serviced at once.
pub const WORKER_COUNT: usize = 16;

/// How long the accept loop sleeps when no connection is waiting, in
/// milliseconds.
pub const POLL_INTERVAL_MS: u64 = 100;

/// What one attempt to accept a connection came to.
#[derive(Clone, Copy, Debug, PartialEq, Eq, Structural)]
pub enum AcceptOutcome {
    /// A connection was accepted.
    Connected,
    /// No connection is waiting.
    WouldBlock,
    /// The attempt failed for another reason.
    Failed,
}

/// What the accept loop does after an attempt.
#[derive(Clone, Copy, Debug, PartialEq, Eq, Structural)]
pub enum Action {
    /// Hand the accepted connection to the worker pool.
    Serve,
    /// Sleep for this many milliseconds, then try again.
    Sleep(u64),
    /// Note the failure and try again at once.
    Report,
}

impl Action {
    /// How long the action keeps the loop from looking at the running flag
    /// again, in milliseconds.
    pub open spec fn delay_ms(self) -> nat {
        match self {
            Action::Sleep(ms) => ms as nat,
            _ => 0,
        }
    }
}

/// What a call of [`Server::stop`] found.
#[derive(Clone, Copy, Debug, PartialEq, Eq, Structural)]
pub enum StopOutcome {
    /// The server was running and has been told to stop.
    Signaled,
    /// The server was not running; nothing changed.
    AlreadyStopped,
}

/// What the accept loop does after an attempt that came to `outcome`.
pub open spec fn action_for(outcome: AcceptOutcome) -> Action {
    match outcome {
        AcceptOutcome::Connected => Action::Serve,
        AcceptOutcome::WouldBlock => Action::Sleep(POLL_INTERVAL_MS),
        AcceptOutcome::Failed => Action::Report,
    }
}

/// What a request to stop does to the running flag, and what it reports: the
/// flag is down afterwards, and the report tells whether it was up before.
pub open spec fn stopped(running: bool) -> (bool, StopOutcome) {
    if running {
        (false, StopOutcome::Signaled)
    } else {
        (false, StopOutcome::AlreadyStopped)
    }
}

/// The actions of the accept loop, given what each look at the running flag
/// saw and what each attempt to accept came to. The loop looks at the flag
/// before every attempt and ends at the first look that finds it down.
pub open spec fn accept_loop(looks: Seq<bool>, attempts: Seq<AcceptOutcome>) -> Seq<Action>
    decreases looks.len(),
{
    if looks.len() == 0 || attempts.len() == 0 || !looks[0] {
        Seq::empty()
    } else {
        seq![action_for(attempts[0])] + accept_loop(looks.skip(1), attempts.skip(1))
    }
}

/// The server's address and whether it is running.
#[derive(Debug)]
pub struct Server {
    address: String,
    running: bool,
}

impl Server {
    /// Whether the server is running.
    pub closed spec fn running(&self) -> bool {
        self.running
    }

    /// The address the server listens on, as `host:port`.
    pub closed spec fn address(&self) -> Seq<char> {
        self.address@
    }

    /// A server for the given address, not yet running.
    pub fn new(addr: &str) -> (server: Server)
        ensures
            !server.running(),
            server.address() == addr@,
    {
        Server { address: addr.to_owned(), running: false }
    }

    /// The address the server listens on.
    pub fn addr(&self) -> (addr: &str)
        ensures
            addr@ == self.address(),
    {
        self.address.as_str()
    }

    /// Whether the server is running. The accept loop and every servicing
    /// loop go round only while it is.
    pub fn is_running(&self) -> (running: bool)
        ensures
            running == self.running(),
    {
        self.running
    }

    /// Starts the server: marks it as running and starts the pool of
    /// [`WORKER_COUNT`] workers that will service its connections.
    pub fn run(&mut self) -> (pool: WorkerPool)
        ensures
            final(self).running(),
            final(self).address() == old(self).address(),
            pool.size() == WORKER_COUNT,
    {
        self.running = true;
        WorkerPool::new(WORKER_COUNT)
    }

    /// Decides what follows an attempt to accept a connection: a connection
    /// is served, an empty queue is waited on for [`POLL_INTERVAL_MS`], a
    /// failure is reported and the loop goes on.
    pub fn on_accept(&self, outcome: AcceptOutcome) -> (action: Action)
        ensures
            action == action_for(outcome),
    {
        match outcome {
            AcceptOutcome::Connected => Action::Serve,
            AcceptOutcome::WouldBlock => Action::Sleep(POLL_INTERVAL_MS),
            AcceptOutcome::Failed => Action::Report,
        }
    }

    /// Asks the server to stop. A running server is marked as stopped; one
    /// that is not running is left as it is, and the result says so.
    pub fn stop(&mut self) -> (outcome: StopOutcome)
        ensures
            (final(self).running(), outcome) == stopped(old(self).running()),
            final(self).address() == old(self).address(),
    {
        if self.running {
            self.running = false;
            StopOutcome::Signaled
        } else {
            StopOutcome::AlreadyStopped
        }
    }
}

/// A request to stop ends the accept loop within one polling interval: the
/// flag is down from then on, the loop makes no attempt after the first look
/// that finds it down, and nothing the loop does between two looks takes
/// longer than [`POLL_INTERVAL_MS`].
pub proof fn lemma_stop_ends_accept_loop(
    running: bool,
    looks: Seq<bool>,
    attempts: Seq<AcceptOutcome>,
    k: int,
)
    requires
        0 <= k < looks.len(),
        !looks[k],
    ensures
        !stopped(running).0,
        accept_loop(looks, attempts).len() <= k,
        forall|i: int|
            0 <= i < accept_loop(looks, attempts).len() ==> (#[trigger] accept_loop(
                looks,
                attempts,
            )[i]).delay_ms() <= POLL_INTERVAL_MS,
    decreases looks.len(),
{
    if attempts.len() > 0 && looks[0] {
        let later = accept_loop(looks.skip(1), attempts.skip(1));
        lemma_stop_ends_accept_loop(running, looks.skip(1), attempts.skip(1), k - 1);
        assert forall|i: int| 0 <= i < accept_loop(looks, attempts).len() implies (
        #[trigger] accept_loop(looks, attempts)[i]).delay_ms() <= POLL_INTERVAL_MS by {
            if i > 0 {
                assert(accept_loop(looks, attempts)[i] == later[i - 1]);
            }
        }
    }
}

/// Stopping a server that is not running changes nothing and is reported as
/// such, so a second request to stop is harmless: whatever the state before
/// the first, the second finds the flag down, leaves it down and reports
/// [`StopOutcome::AlreadyStopped`].
pub proof fn lemma_stop_twice_is_stop_once(running: bool)
    ensures
        stopped(false) == (false, StopOutcome::AlreadyStopped),
        stopped(stopped(running).0) == (stopped(running).0, StopOutcome::AlreadyStopped),
{
}

} // verus!
