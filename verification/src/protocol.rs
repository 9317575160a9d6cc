//! The per-connection protocol engine: a state machine over the decoded
//! requests of one connection. It authenticates the connection, binds and
//! rebinds its session in the registry, and tears the session down when the
//! connection ends.

use vstd::prelude::*;

use crate::command::Command;
use crate::message::{AuthRequestMessage, RequestMessage};
use crate::session::{
    bind_clients, bind_sessions, unbind_clients, unbind_sessions, SessionImpl, SessionManagerImpl,
};

verus! {

/// The authentication state of one connection. No transition leads back to
/// `Unauthenticated`; authenticating again while authenticated merely
/// rebinds the session.
#[derive(Clone, Copy, Debug, PartialEq, Eq, Structural)]
pub enum ProtocolState {
    /// The initial state: no identity presented yet.
    Unauthenticated,
    /// An identity was presented; re-entrant on further auth requests.
    Authenticated,
}

/// The state an engine is in after applying one request.
pub open spec fn spec_next_state(s: ProtocolState, msg: RequestMessage) -> ProtocolState {
    match msg {
        RequestMessage::Auth(_) => ProtocolState::Authenticated,
        RequestMessage::HeartBeat(_) => s,
    }
}

/// Relies on `uuid::Uuid::new_v4` and its `Display` form: a freshly drawn
/// random identifier, rendered in the hyphenated 36-character form.
#[verifier::external_body]
pub fn generate_client_id() -> (r: String)
    ensures
        r@.len() == 36,
{
    uuid::Uuid::new_v4().to_string()
}

/// The engine of one connection. The transport loop feeds it decoded
/// requests; it owns the connection's authentication state and remembers
/// whether a session was ever bound so teardown can remove it.
pub struct Protocol {
    /// The opaque identity assigned to this connection at accept time.
    pub id: String,
    /// The authentication state.
    pub state: ProtocolState,
    /// Whether the engine has decided the connection should terminate.
    pub is_terminate: bool,
    /// Whether a session is currently bound for this connection.
    pub has_session: bool,
}

impl Protocol {
    /// A new engine for one connection, not yet authenticated.
    pub fn new(id: String) -> (r: Self)
        ensures
            r.id == id,
            r.state is Unauthenticated,
            !r.is_terminate,
            !r.has_session,
    {
        Protocol {
            id,
            state: ProtocolState::Unauthenticated,
            is_terminate: false,
            has_session: false,
        }
    }

    /// Registers this connection with the registry, with no connect code
    /// bound yet. Called once, when the connection is accepted.
    pub fn create_client_conn<S>(&self, mgr: &mut SessionManagerImpl<S>)
        requires
            old(mgr).wf(),
        ensures
            final(mgr).wf(),
            final(mgr).sessions() == old(mgr).sessions(),
            final(mgr).clients() == if old(mgr).clients().contains_key(self.id@) {
                old(mgr).clients()
            } else {
                old(mgr).clients().insert(self.id@, None::<String>)
            },
    {
        mgr.new_client(self.id.clone());
    }

    /// Applies one request to the state machine and reports whether the
    /// connection should terminate.
    ///
    /// An auth request authenticates the connection, idempotently, and
    /// rebinds its session under the presented connect code, handing the
    /// registry `sender` as the session's command handle. A heartbeat
    /// changes nothing.
    pub fn process<S>(
        &mut self,
        mgr: &mut SessionManagerImpl<S>,
        msg: RequestMessage,
        sender: S,
    ) -> (r: bool)
        requires
            old(mgr).wf(),
        ensures
            final(mgr).wf(),
            r == old(self).is_terminate,
            final(self).id == old(self).id,
            final(self).is_terminate == old(self).is_terminate,
            final(self).state == spec_next_state(old(self).state, msg),
            match msg {
                RequestMessage::Auth(a) => {
                    &&& final(self).has_session
                    &&& final(mgr).clients() == bind_clients(
                        old(mgr).clients(),
                        old(self).id@,
                        a.connect_code,
                    )
                    &&& final(mgr).sessions() == bind_sessions(
                        old(mgr).clients(),
                        old(mgr).sessions(),
                        old(self).id@,
                        (SessionImpl {
                            client_id: old(self).id,
                            connect_code: a.connect_code,
                            sender,
                        }),
                    )
                },
                RequestMessage::HeartBeat(_) => {
                    &&& final(self).has_session == old(self).has_session
                    &&& *final(mgr) == *old(mgr)
                },
            },
    {
        let keep_going = self.do_process(mgr, msg, sender);
        keep_going || self.is_terminate
    }

    /// The transition itself; `process` adds the termination flag on top.
    fn do_process<S>(
        &mut self,
        mgr: &mut SessionManagerImpl<S>,
        msg: RequestMessage,
        sender: S,
    ) -> (r: bool)
        requires
            old(mgr).wf(),
        ensures
            final(mgr).wf(),
            r == false,
            final(self).id == old(self).id,
            final(self).is_terminate == old(self).is_terminate,
            final(self).state == spec_next_state(old(self).state, msg),
            match msg {
                RequestMessage::Auth(a) => {
                    &&& final(self).has_session
                    &&& final(mgr).clients() == bind_clients(
                        old(mgr).clients(),
                        old(self).id@,
                        a.connect_code,
                    )
                    &&& final(mgr).sessions() == bind_sessions(
                        old(mgr).clients(),
                        old(mgr).sessions(),
                        old(self).id@,
                        (SessionImpl {
                            client_id: old(self).id,
                            connect_code: a.connect_code,
                            sender,
                        }),
                    )
                },
                RequestMessage::HeartBeat(_) => {
                    &&& final(self).has_session == old(self).has_session
                    &&& *final(mgr) == *old(mgr)
                },
            },
    {
        match msg {
            RequestMessage::Auth(auth) => {
                self.state = ProtocolState::Authenticated;
                let client_id = self.id.clone();
                mgr.create_session(client_id, auth.connect_code, sender);
                self.has_session = true;
            },
            RequestMessage::HeartBeat(_) => {},
        }
        false
    }

    /// Accepts one externally sourced command destined for this
    /// connection's peer. The outbound wire encoding is an extension point
    /// with no behavior defined yet, so the engine changes nothing.
    pub fn command<C: Command>(&mut self, _cmd: C)
        ensures
            *final(self) == *old(self),
    {
    }

    /// The teardown duty of this connection: if a session was ever bound,
    /// removes it, and the connection's registration, from the registry.
    /// The transport loop must run this on every exit path, so no session
    /// outlives a dead connection.
    pub fn teardown<S>(&mut self, mgr: &mut SessionManagerImpl<S>)
        requires
            old(mgr).wf(),
        ensures
            final(mgr).wf(),
            !final(self).has_session,
            final(self).id == old(self).id,
            final(self).state == old(self).state,
            final(self).is_terminate == old(self).is_terminate,
            old(self).has_session ==> final(mgr).clients() == unbind_clients(
                old(mgr).clients(),
                old(self).id@,
            ) && final(mgr).sessions() == unbind_sessions(
                old(mgr).clients(),
                old(mgr).sessions(),
                old(self).id@,
            ),
            !old(self).has_session ==> *final(mgr) == *old(mgr),
    {
        if self.has_session {
            mgr.remove_session(self.id.as_str());
            self.has_session = false;
        }
    }
}

/// State idempotence: two authentication requests in sequence leave the
/// connection authenticated after each one, with the session rebound to the
/// second request's connect code.
pub proof fn lemma_auth_idempotent<S>(
    s0: ProtocolState,
    clients: Map<Seq<char>, Option<String>>,
    sessions: Map<Seq<char>, SessionImpl<S>>,
    id: Seq<char>,
    a1: AuthRequestMessage,
    a2: AuthRequestMessage,
    r1: SessionImpl<S>,
    r2: SessionImpl<S>,
)
    ensures
        spec_next_state(s0, RequestMessage::Auth(a1)) is Authenticated,
        spec_next_state(
            spec_next_state(s0, RequestMessage::Auth(a1)),
            RequestMessage::Auth(a2),
        ) is Authenticated,
        ({
            let c1 = bind_clients(clients, id, r1.connect_code);
            let m1 = bind_sessions(clients, sessions, id, r1);
            let c2 = bind_clients(c1, id, r2.connect_code);
            let m2 = bind_sessions(c1, m1, id, r2);
            &&& m2.contains_key(r2.connect_code@)
            &&& m2[r2.connect_code@] == r2
            &&& c2[id] == Some(r2.connect_code)
        }),
{
}

} // verus!
