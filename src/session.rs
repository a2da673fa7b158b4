//! The shared rendering session as a state machine. One browser connection
//! serves every request of the process: the first request to find none
//! launches it, requests that come while it starts wait, and when its event
//! stream ends the session falls back to having none, so that the next
//! request launches a new one. The caller performs the actions and reports
//! their outcomes; this module decides.
use vstd::prelude::*;

verus! {

#[derive(Debug, Clone, Copy, PartialEq, Eq, Structural)]
pub enum SessionState {
    /// No connection: the next request launches one.
    Uninitialized,
    /// A launch is under way.
    Starting,
    /// A connection is live.
    Ready,
}

/// What a request is to do with the session.
#[derive(Debug, Clone, Copy, PartialEq, Eq, Structural)]
pub enum SessionAction {
    /// Launch the engine, with its sandbox switched off when `no_sandbox`.
    Launch { no_sandbox: bool },
    /// Open a page on the live connection.
    UseExisting,
    /// Another request is launching: ask again once it has finished.
    Wait,
}

#[derive(Debug, Clone, Copy, PartialEq, Eq, Structural)]
pub struct RenderSession {
    pub state: SessionState,
    pub no_sandbox: bool,
}

/// The state after a request asks for the session, and what it is to do.
pub open spec fn acquire_spec(s: RenderSession) -> (RenderSession, SessionAction) {
    match s.state {
        SessionState::Uninitialized => (
            RenderSession { state: SessionState::Starting, ..s },
            SessionAction::Launch { no_sandbox: s.no_sandbox },
        ),
        SessionState::Starting => (s, SessionAction::Wait),
        SessionState::Ready => (s, SessionAction::UseExisting),
    }
}

/// The state after a launch has ended, successfully or not.
pub open spec fn launch_finished_spec(s: RenderSession, ok: bool) -> RenderSession {
    if s.state == SessionState::Starting {
        RenderSession { state: if ok { SessionState::Ready } else { SessionState::Uninitialized }, ..s }
    } else {
        s
    }
}

impl RenderSession {
    /// A session without a connection, with the sandbox on.
    pub fn new() -> (r: RenderSession)
        ensures
            r.state == SessionState::Uninitialized,
            !r.no_sandbox,
    {
        RenderSession { state: SessionState::Uninitialized, no_sandbox: false }
    }

    /// A request asks for the session: the first to find no connection
    /// launches one, later ones wait for it or use it.
    pub fn acquire(&mut self) -> (r: SessionAction)
        ensures
            (*final(self), r) == acquire_spec(*old(self)),
    {
        match self.state {
            SessionState::Uninitialized => {
                self.state = SessionState::Starting;
                SessionAction::Launch { no_sandbox: self.no_sandbox }
            },
            SessionState::Starting => SessionAction::Wait,
            SessionState::Ready => SessionAction::UseExisting,
        }
    }

    /// The launch that `acquire` asked for has ended: on success the
    /// connection is live, on failure there is none again.
    pub fn launch_finished(&mut self, ok: bool)
        ensures
            *final(self) == launch_finished_spec(*old(self), ok),
    {
        if self.state == SessionState::Starting {
            self.state = if ok {
                SessionState::Ready
            } else {
                SessionState::Uninitialized
            };
        }
    }

    /// The connection's event stream has ended: the session has no
    /// connection until the next request launches one.
    pub fn connection_closed(&mut self)
        ensures
            final(self).state == SessionState::Uninitialized,
            final(self).no_sandbox == old(self).no_sandbox,
    {
        self.state = SessionState::Uninitialized;
    }
}

/// Whether the engine is launched without its sandbox, for restricted
/// environments such as containers. It applies to the next launch.
pub fn set_no_sandbox(session: &mut RenderSession, val: bool)
    ensures
        final(session).no_sandbox == val,
        final(session).state == old(session).state,
{
    session.no_sandbox = val;
}

/// How many launches `n` requests cause, one after another, from `s`.
pub open spec fn launches_after(s: RenderSession, n: nat) -> nat
    decreases n,
{
    if n == 0 {
        0
    } else {
        (if acquire_spec(s).1 is Launch {
            1nat
        } else {
            0nat
        }) + launches_after(acquire_spec(s).0, (n - 1) as nat)
    }
}

proof fn lemma_no_launch_while_started(s: RenderSession, n: nat)
    requires
        s.state != SessionState::Uninitialized,
    ensures
        launches_after(s, n) == 0,
    decreases n,
{
    if n > 0 {
        lemma_no_launch_while_started(acquire_spec(s).0, (n - 1) as nat);
    }
}

/// However many requests reach a session without a connection, exactly one
/// of them launches the engine, until the connection ends.
pub proof fn lemma_single_launch(s: RenderSession, n: nat)
    requires
        s.state == SessionState::Uninitialized,
        n >= 1,
    ensures
        launches_after(s, n) == 1,
{
    lemma_no_launch_while_started(acquire_spec(s).0, (n - 1) as nat);
}

/// Once a launch has ended, successfully or not, no request is told to
/// wait: each either uses the connection or launches a new one.
pub proof fn lemma_no_wait_after_launch(s: RenderSession, ok: bool)
    requires
        s.state == SessionState::Starting,
    ensures
        acquire_spec(launch_finished_spec(s, ok)).1 != SessionAction::Wait,
        ok ==> acquire_spec(launch_finished_spec(s, ok)).1 == SessionAction::UseExisting,
{
}

} // verus!
