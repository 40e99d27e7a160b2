//! The inbound session: lifecycle state machine for the connection to the
//! source broker, the bounded reconnection policy, and the connect-time
//! configuration (persistent session, keep-alive, fixed last-will).
//!
//! The session is pure state: every network operation is performed by the
//! caller, which reports its outcome back through one of the transition
//! methods below. Each transition has a spec-level twin so that the bridge
//! loop's behaviour can be stated and proved over plain values.

use vstd::prelude::*;

verus! {

/// Upper bound on reconnection attempts within one reconnect invocation.
pub const MAX_RECONNECT_ATTEMPTS: u32 = 12;

/// Fixed delay between two reconnection attempts, in milliseconds.
pub const RECONNECT_DELAY_MS: u64 = 5000;

/// Keep-alive interval requested at connect time, in seconds.
pub const KEEP_ALIVE_SECS: u64 = 20;

/// Quality of service requested for every subscription (at least once).
pub const SUBSCRIBE_QOS: i32 = 1;

/// Where the session stands in its lifecycle.
#[derive(Clone, Copy, PartialEq, Eq, Structural, Debug)]
pub enum SessionState {
    Disconnected,
    Connecting,
    Connected,
    Reconnecting,
    ShuttingDown,
    Closed,
}

/// The session's observable state: its lifecycle position, how many
/// reconnection attempts the current reconnect invocation has spent, and
/// whether an external stop has been requested.
#[derive(Clone, Copy, PartialEq, Eq, Structural, Debug)]
pub struct SessionCore {
    pub state: SessionState,
    pub reconnect_attempts: u32,
    pub stop_requested: bool,
}

/// Validity of a session value: attempts never exceed the cap.
pub open spec fn session_inv(s: SessionCore) -> bool {
    s.reconnect_attempts <= MAX_RECONNECT_ATTEMPTS
}

/// Spec twin of `SessionCore::request_stop`: idempotent, and moves a
/// connected session into graceful shutdown.
pub open spec fn spec_request_stop(s: SessionCore) -> SessionCore {
    SessionCore {
        state: if s.state is Connected {
            SessionState::ShuttingDown
        } else {
            s.state
        },
        reconnect_attempts: s.reconnect_attempts,
        stop_requested: true,
    }
}

/// Spec twin of `SessionCore::on_connection_lost`: a connected session
/// enters reconnection with a fresh attempt budget.
pub open spec fn spec_connection_lost(s: SessionCore) -> SessionCore {
    SessionCore { state: SessionState::Reconnecting, reconnect_attempts: 0, ..s }
}

/// Spec twin of `SessionCore::on_reconnect_success`.
pub open spec fn spec_reconnect_success(s: SessionCore) -> SessionCore {
    SessionCore { state: SessionState::Connected, reconnect_attempts: 0, ..s }
}

/// Spec twin of `SessionCore::on_reconnect_failure`: one more attempt is
/// spent; spending the last one closes the session.
pub open spec fn spec_reconnect_failure(s: SessionCore) -> SessionCore {
    SessionCore {
        state: if s.reconnect_attempts + 1 == MAX_RECONNECT_ATTEMPTS {
            SessionState::Closed
        } else {
            s.state
        },
        reconnect_attempts: (s.reconnect_attempts + 1) as u32,
        stop_requested: s.stop_requested,
    }
}

/// Spec twin of `SessionCore::close`.
pub open spec fn spec_close(s: SessionCore) -> SessionCore {
    SessionCore { state: SessionState::Closed, ..s }
}

impl SessionCore {
    /// A fresh session, before any connection attempt.
    pub fn new() -> (s: SessionCore)
        ensures
            s.state is Disconnected,
            s.reconnect_attempts == 0,
            !s.stop_requested,
            session_inv(s),
    {
        SessionCore {
            state: SessionState::Disconnected,
            reconnect_attempts: 0,
            stop_requested: false,
        }
    }

    /// The initial connection attempt begins. There is no retry before the
    /// first connection: a failure here is fatal to the process.
    pub fn begin_connect(&mut self)
        requires
            old(self).state is Disconnected,
        ensures
            *final(self) == (SessionCore { state: SessionState::Connecting, ..*old(self) }),
    {
        self.state = SessionState::Connecting;
    }

    /// The initial connect (and subscribe) succeeded.
    pub fn on_connect_success(&mut self)
        requires
            old(self).state is Connecting,
        ensures
            *final(self) == (SessionCore { state: SessionState::Connected, ..*old(self) }),
    {
        self.state = SessionState::Connected;
    }

    /// An external stop request. Idempotent, and safe to apply at any point
    /// of the lifecycle: it never un-stops and touches nothing but the
    /// lifecycle position of a connected session.
    pub fn request_stop(&mut self)
        ensures
            *final(self) == spec_request_stop(*old(self)),
    {
        if let SessionState::Connected = self.state {
            self.state = SessionState::ShuttingDown;
        }
        self.stop_requested = true;
    }

    /// The stream yielded a connection-loss marker while connected: enter
    /// reconnection with a fresh attempt budget.
    pub fn on_connection_lost(&mut self)
        requires
            old(self).state is Connected,
        ensures
            *final(self) == spec_connection_lost(*old(self)),
            session_inv(*final(self)),
    {
        self.state = SessionState::Reconnecting;
        self.reconnect_attempts = 0;
    }

    /// One reconnection attempt succeeded: the session is connected again.
    pub fn on_reconnect_success(&mut self)
        requires
            old(self).state is Reconnecting,
        ensures
            *final(self) == spec_reconnect_success(*old(self)),
            session_inv(*final(self)),
    {
        self.state = SessionState::Connected;
        self.reconnect_attempts = 0;
    }

    /// One reconnection attempt failed. After the last admissible attempt
    /// the session closes for good.
    pub fn on_reconnect_failure(&mut self)
        requires
            old(self).state is Reconnecting,
            old(self).reconnect_attempts < MAX_RECONNECT_ATTEMPTS,
        ensures
            *final(self) == spec_reconnect_failure(*old(self)),
            session_inv(*final(self)),
    {
        self.reconnect_attempts = self.reconnect_attempts + 1;
        if self.reconnect_attempts == MAX_RECONNECT_ATTEMPTS {
            self.state = SessionState::Closed;
        }
    }

    /// Whether another reconnection attempt may be made.
    pub fn can_retry(&self) -> (r: bool)
        ensures
            r == (self.state is Reconnecting && self.reconnect_attempts
                < MAX_RECONNECT_ATTEMPTS),
    {
        match self.state {
            SessionState::Reconnecting => self.reconnect_attempts < MAX_RECONNECT_ATTEMPTS,
            _ => false,
        }
    }

    /// Whether the session believes the link is up. A session in graceful
    /// shutdown still holds the link: the stream was closed on purpose.
    pub fn is_connected(&self) -> (r: bool)
        ensures
            r == (self.state is Connected || self.state is ShuttingDown),
    {
        match self.state {
            SessionState::Connected => true,
            SessionState::ShuttingDown => true,
            _ => false,
        }
    }

    /// Final teardown: the loop has exited and the session is closed.
    pub fn close(&mut self)
        ensures
            *final(self) == spec_close(*old(self)),
    {
        self.state = SessionState::Closed;
    }
}

/// A stop request is idempotent: asking twice leaves exactly the state that
/// asking once leaves.
pub proof fn lemma_request_stop_idempotent(s: SessionCore)
    ensures
        spec_request_stop(spec_request_stop(s)) == spec_request_stop(s),
{
}

/// Everything the connect call is handed: broker address, client identity,
/// persistent-session parameters, and the fixed last-will message the
/// broker is to publish on an unclean disconnect.
pub struct ConnectConfig {
    pub server_uri: String,
    pub client_id: String,
    pub keep_alive_secs: u64,
    pub clean_session: bool,
    pub will_topic: String,
    pub will_payload: String,
}

/// The topic of the fixed last-will message.
pub fn last_will_topic() -> (r: String)
    ensures
        r@ == "Production"@,
{
    "Production".to_owned()
}

/// The payload of the fixed last-will message.
pub fn last_will_payload() -> (r: String)
    ensures
        r@ == "Sync consumer lost connection"@,
{
    "Sync consumer lost connection".to_owned()
}

/// Builds the connect-time configuration: persistent session (the broker
/// keeps missed messages across a brief disconnect), 20 s keep-alive, and
/// the last-will registered before any connect call is made, unmodified.
pub fn connect_config(server_uri: String, client_id: String) -> (c: ConnectConfig)
    ensures
        c.server_uri == server_uri,
        c.client_id == client_id,
        c.keep_alive_secs == KEEP_ALIVE_SECS,
        !c.clean_session,
        c.will_topic@ == "Production"@,
        c.will_payload@ == "Sync consumer lost connection"@,
{
    ConnectConfig {
        server_uri,
        client_id,
        keep_alive_secs: KEEP_ALIVE_SECS,
        clean_session: false,
        will_topic: last_will_topic(),
        will_payload: last_will_payload(),
    }
}

/// The fixed subscription list: both metric hierarchies, whole.
pub fn subscription_topics() -> (r: Vec<String>)
    ensures
        r@.len() == 2,
        r@[0]@ == "Production/#"@,
        r@[1]@ == "Consommation/#"@,
{
    let mut v: Vec<String> = Vec::new();
    v.push("Production/#".to_owned());
    v.push("Consommation/#".to_owned());
    v
}

/// The quality of service requested for each subscription, in parallel with
/// `subscription_topics`: at-least-once for both.
pub fn subscription_qos() -> (r: Vec<i32>)
    ensures
        r@.len() == 2,
        r@[0] == SUBSCRIBE_QOS,
        r@[1] == SUBSCRIBE_QOS,
    {
    let mut v: Vec<i32> = Vec::new();
    v.push(SUBSCRIBE_QOS);
    v.push(SUBSCRIBE_QOS);
    v
}

/// Whether the broker granted exactly the requested quality of service.
/// A difference is reported to the operator but is not fatal.
pub fn qos_as_requested(requested: &Vec<i32>, granted: &Vec<i32>) -> (r: bool)
    ensures
        r == (requested@ == granted@),
{
    if requested.len() != granted.len() {
        proof {
            assert(requested@ != granted@);
        }
        return false;
    }
    let n = requested.len();
    let mut i: usize = 0;
    while i < n
        invariant
            n == requested@.len(),
            n == granted@.len(),
            i <= n,
            forall|k: int| 0 <= k < i ==> requested@[k] == granted@[k],
        decreases n - i,
    {
        if requested[i] != granted[i] {
            proof {
                assert(requested@[i as int] != granted@[i as int]);
            }
            return false;
        }
        i += 1;
    }
    proof {
        assert(requested@ =~= granted@);
    }
    true
}

} // verus!
