//! The decisions of the pipe server's accept loop: when to stop, when to
//! retry, and whether a connection is the first one.
use vstd::prelude::*;

verus! {

/// How long the server waits before it retries a failed accept.
pub const ACCEPT_RETRY_MS: u64 = 1000;

/// What happened since the last step of the accept loop.
pub enum AcceptEvent {
    /// The loop is about to accept a client; `shutdown` tells whether a
    /// shutdown was requested.
    Ready { shutdown: bool },
    /// Accepting a client failed; `shutdown` tells whether a shutdown was
    /// requested meanwhile.
    AcceptFailed { shutdown: bool },
    /// A client connected; `shutdown` tells whether a shutdown was
    /// requested while the loop waited for it.
    Connected { shutdown: bool },
    /// The client's connection ended.
    Disconnected,
}

/// What the host does next.
#[derive(Debug, PartialEq, Eq, Structural)]
pub enum AcceptAction {
    /// Leave the loop, without serving a client that may have connected.
    Stop,
    /// Accept the next client.
    Accept,
    /// Wait this many milliseconds, then check for shutdown again.
    RetryAfter(u64),
    /// Serve the connected client; `first` is true for the first client
    /// since the server started.
    Serve { first: bool },
    /// Check for shutdown, then accept the next client.
    CheckShutdown,
}

/// The state of the accept loop.
pub struct AcceptLoop {
    first_connection: bool,
}

/// The action that follows `event`, given whether no client has
/// connected yet.
pub open spec fn next_action(awaits_first: bool, event: AcceptEvent) -> AcceptAction {
    match event {
        AcceptEvent::Ready { shutdown } => if shutdown {
            AcceptAction::Stop
        } else {
            AcceptAction::Accept
        },
        AcceptEvent::AcceptFailed { shutdown } => if shutdown {
            AcceptAction::Stop
        } else {
            AcceptAction::RetryAfter(ACCEPT_RETRY_MS)
        },
        AcceptEvent::Connected { shutdown } => if shutdown {
            AcceptAction::Stop
        } else {
            AcceptAction::Serve { first: awaits_first }
        },
        AcceptEvent::Disconnected => AcceptAction::CheckShutdown,
    }
}

impl AcceptLoop {
    /// Whether no client has connected yet.
    pub closed spec fn awaits_first(&self) -> bool {
        self.first_connection
    }

    /// The loop before any client connected.
    pub fn new() -> (r: Self)
        ensures
            r.awaits_first(),
    {
        AcceptLoop { first_connection: true }
    }

    /// The next action of the loop after `event`: stop once a shutdown is
    /// requested, and serve no client that connects after that; retry a
    /// failed accept after `ACCEPT_RETRY_MS`; serve a client that connected
    /// before any shutdown request, and check for shutdown again once it
    /// leaves.
    pub fn step(&mut self, event: AcceptEvent) -> (action: AcceptAction)
        ensures
            action == next_action(old(self).awaits_first(), event),
            final(self).awaits_first() == (old(self).awaits_first() && !(action is Serve)),
    {
        match event {
            AcceptEvent::Ready { shutdown } => if shutdown {
                AcceptAction::Stop
            } else {
                AcceptAction::Accept
            },
            AcceptEvent::AcceptFailed { shutdown } => if shutdown {
                AcceptAction::Stop
            } else {
                AcceptAction::RetryAfter(ACCEPT_RETRY_MS)
            },
            AcceptEvent::Connected { shutdown } => {
                if shutdown {
                    return AcceptAction::Stop;
                }
                let first = self.first_connection;
                self.first_connection = false;
                AcceptAction::Serve { first }
            },
            AcceptEvent::Disconnected => AcceptAction::CheckShutdown,
        }
    }
}

/// Whether an event reports that a shutdown was requested.
pub open spec fn reports_shutdown(event: AcceptEvent) -> bool {
    match event {
        AcceptEvent::Ready { shutdown } => shutdown,
        AcceptEvent::AcceptFailed { shutdown } => shutdown,
        AcceptEvent::Connected { shutdown } => shutdown,
        AcceptEvent::Disconnected => false,
    }
}

/// A shutdown request stops the loop: once an event reports it, the loop
/// stops and serves no client, a client that has just connected included.
pub proof fn lemma_no_client_served_after_shutdown(awaits_first: bool, event: AcceptEvent)
    requires
        reports_shutdown(event),
    ensures
        next_action(awaits_first, event) == AcceptAction::Stop,
{
}

} // verus!
