//! The per-connection state machine: optional authentication, the snapshot,
//! then batched relay of the runtime's replies. The caller performs the I/O
//! that each step asks for and feeds back what happened.
use vstd::prelude::*;
use crate::batch::{deadline_of, push_step, tick_step, OutboundQueue, QueueState};
use crate::protocol::{auth_response_json, batch_json, encode_batch, AuthRequest, AuthResponse};
use crate::text::str_eq;

verus! {

/// The reason sent with a refused authentication.
pub open spec fn auth_failure_reason() -> Seq<char> {
    "Clé API invalide"@
}

/// Where a session stands.
#[derive(Clone, Copy, Debug, PartialEq, Eq, Structural)]
pub enum SessionState {
    Authenticating,
    Streaming,
    Closed,
}

/// What the caller must do after a step, in order.
#[derive(Clone, Debug)]
pub enum Outbound {
    /// Send this text frame to the client.
    Frame(String),
    /// Scan the resources and send the snapshot frame.
    Snapshot,
    /// Close the connection.
    Close,
}

/// The model of an `Outbound`.
pub enum OutboundModel {
    Frame(Seq<char>),
    Snapshot,
    Close,
}

impl Outbound {
    pub open spec fn view(&self) -> OutboundModel {
        match self {
            Outbound::Frame(t) => OutboundModel::Frame(t@),
            Outbound::Snapshot => OutboundModel::Snapshot,
            Outbound::Close => OutboundModel::Close,
        }
    }
}

pub open spec fn outbound_view(v: Seq<Outbound>) -> Seq<OutboundModel> {
    v.map_values(|o: Outbound| o@)
}

/// Opening a session: a loopback peer gets the snapshot at once, any other
/// peer must authenticate first.
pub open spec fn open_step(loopback: bool) -> (SessionState, Seq<OutboundModel>) {
    if loopback {
        (SessionState::Streaming, seq![OutboundModel::Snapshot])
    } else {
        (SessionState::Authenticating, Seq::empty())
    }
}

/// The first message of a session that authenticates: `key` is the api key it
/// carried, or none where it was absent or not an authentication request.
pub open spec fn auth_step(state: SessionState, key: Option<Seq<char>>, secret: Seq<char>) -> (
    SessionState,
    Seq<OutboundModel>,
) {
    if state != SessionState::Authenticating {
        (state, Seq::empty())
    } else if key == Some(secret) {
        (
            SessionState::Streaming,
            seq![OutboundModel::Frame(auth_response_json(true, Seq::empty())), OutboundModel::Snapshot],
        )
    } else {
        (
            SessionState::Closed,
            seq![
                OutboundModel::Frame(auth_response_json(false, auth_failure_reason())),
                OutboundModel::Close,
            ],
        )
    }
}

/// The frames a flushed batch turns into.
pub open spec fn batch_frames(r: Option<Seq<Seq<char>>>) -> Seq<OutboundModel> {
    match r {
        Some(b) => seq![OutboundModel::Frame(batch_json(b))],
        None => Seq::empty(),
    }
}

/// A reply of the runtime process at `now`: queued while streaming.
pub open spec fn reply_step(state: SessionState, q: QueueState, reply: Seq<char>, now: u64) -> (
    SessionState,
    QueueState,
    Seq<OutboundModel>,
) {
    if state != SessionState::Streaming {
        (state, q, Seq::empty())
    } else {
        let (q2, r) = push_step(q, reply, now);
        (state, q2, batch_frames(r))
    }
}

/// The batch timer firing at `now`.
pub open spec fn timer_step(state: SessionState, q: QueueState, now: u64) -> (
    SessionState,
    QueueState,
    Seq<OutboundModel>,
) {
    if state != SessionState::Streaming {
        (state, q, Seq::empty())
    } else {
        let (q2, r) = tick_step(q, now);
        (state, q2, batch_frames(r))
    }
}

/// A non-loopback peer whose key does not match gets exactly one refusal and
/// the connection closes; no snapshot is ever asked for, and a closed session
/// sends nothing more, whatever comes next.
pub proof fn lemma_wrong_key_is_refused(
    key: Option<Seq<char>>,
    secret: Seq<char>,
    q: QueueState,
    later_key: Option<Seq<char>>,
    reply: Seq<char>,
    now: u64,
)
    requires
        key != Some(secret),
    ensures
        open_step(false).1.len() == 0,
        auth_step(open_step(false).0, key, secret) == (
            SessionState::Closed,
            seq![
                OutboundModel::Frame(auth_response_json(false, auth_failure_reason())),
                OutboundModel::Close,
            ],
        ),
        auth_step(SessionState::Closed, later_key, secret).1.len() == 0,
        reply_step(SessionState::Closed, q, reply, now).2.len() == 0,
        timer_step(SessionState::Closed, q, now).2.len() == 0,
        auth_step(SessionState::Closed, later_key, secret).0 == SessionState::Closed,
        reply_step(SessionState::Closed, q, reply, now).0 == SessionState::Closed,
        timer_step(SessionState::Closed, q, now).0 == SessionState::Closed,
{
}

/// A loopback peer is streaming at once, and its first step asks for the
/// snapshot, with no authentication exchange.
pub proof fn lemma_loopback_gets_snapshot_first()
    ensures
        open_step(true) == (SessionState::Streaming, seq![OutboundModel::Snapshot]),
{
}

/// One client connection.
pub struct ClientSession {
    state: SessionState,
    queue: OutboundQueue,
}

impl ClientSession {
    pub closed spec fn state_of(&self) -> SessionState {
        self.state
    }

    pub closed spec fn queue_of(&self) -> QueueState {
        self.queue@
    }

    /// Opens a session for a peer; `loopback` tells whether it connected
    /// from the loopback interface.
    pub fn open(loopback: bool) -> (r: (ClientSession, Vec<Outbound>))
        ensures
            (r.0.state_of(), outbound_view(r.1@)) == open_step(loopback),
            r.0.queue_of().0.len() == 0,
    {
        let queue = OutboundQueue::new();
        if loopback {
            let out = vec![Outbound::Snapshot];
            assert(outbound_view(out@) =~= seq![OutboundModel::Snapshot]);
            (ClientSession { state: SessionState::Streaming, queue }, out)
        } else {
            let out: Vec<Outbound> = Vec::new();
            assert(outbound_view(out@) =~= Seq::<OutboundModel>::empty());
            (ClientSession { state: SessionState::Authenticating, queue }, out)
        }
    }

    /// Where the session stands.
    pub fn state(&self) -> (r: SessionState)
        ensures
            r == self.state_of(),
    {
        self.state
    }

    /// The first message of a peer that must authenticate, compared with `secret`.
    pub fn on_auth(&mut self, request: Option<AuthRequest>, secret: &str) -> (r: Vec<Outbound>)
        ensures
            (final(self).state_of(), outbound_view(r@)) == auth_step(
                old(self).state_of(),
                match request {
                    Some(a) => Some(a.api_key@),
                    None => None,
                },
                secret@,
            ),
            final(self).queue_of() == old(self).queue_of(),
    {
        if self.state != SessionState::Authenticating {
            let out: Vec<Outbound> = Vec::new();
            assert(outbound_view(out@) =~= Seq::<OutboundModel>::empty());
            return out;
        }
        let accepted = match &request {
            Some(a) => str_eq(a.api_key.as_str(), secret),
            None => false,
        };
        if accepted {
            self.state = SessionState::Streaming;
            let frame = AuthResponse::Success.to_json();
            let out = vec![Outbound::Frame(frame), Outbound::Snapshot];
            assert(outbound_view(out@) =~= seq![
                OutboundModel::Frame(auth_response_json(true, Seq::empty())),
                OutboundModel::Snapshot,
            ]);
            out
        } else {
            self.state = SessionState::Closed;
            let reason = String::from_str("Clé API invalide");
            let frame = AuthResponse::Failed(reason).to_json();
            let out = vec![Outbound::Frame(frame), Outbound::Close];
            assert(outbound_view(out@) =~= seq![
                OutboundModel::Frame(auth_response_json(false, auth_failure_reason())),
                OutboundModel::Close,
            ]);
            out
        }
    }

    fn flushed(r: Option<Vec<String>>) -> (out: Vec<Outbound>)
        ensures
            outbound_view(out@) == batch_frames(
                match r {
                    Some(b) => Some(b@.map_values(|m: String| m@)),
                    None => None,
                },
            ),
    {
        match r {
            Some(b) => {
                let out = vec![Outbound::Frame(encode_batch(&b))];
                assert(outbound_view(out@) =~= seq![
                    OutboundModel::Frame(batch_json(b@.map_values(|m: String| m@))),
                ]);
                out
            },
            None => {
                let out: Vec<Outbound> = Vec::new();
                assert(outbound_view(out@) =~= Seq::<OutboundModel>::empty());
                out
            },
        }
    }

    /// A reply of the runtime process to a relayed change, at `now`
    /// (nanoseconds on a monotonic clock).
    pub fn on_reply(&mut self, reply: String, now: u64) -> (r: Vec<Outbound>)
        ensures
            (final(self).state_of(), final(self).queue_of(), outbound_view(r@)) == reply_step(
                old(self).state_of(),
                old(self).queue_of(),
                reply@,
                now,
            ),
    {
        if self.state != SessionState::Streaming {
            let out: Vec<Outbound> = Vec::new();
            assert(outbound_view(out@) =~= Seq::<OutboundModel>::empty());
            return out;
        }
        let r = self.queue.push(reply, now);
        Self::flushed(r)
    }

    /// The batch timer firing at `now`.
    pub fn on_timer(&mut self, now: u64) -> (r: Vec<Outbound>)
        ensures
            (final(self).state_of(), final(self).queue_of(), outbound_view(r@)) == timer_step(
                old(self).state_of(),
                old(self).queue_of(),
                now,
            ),
    {
        if self.state != SessionState::Streaming {
            let out: Vec<Outbound> = Vec::new();
            assert(outbound_view(out@) =~= Seq::<OutboundModel>::empty());
            return out;
        }
        let r = self.queue.tick(now);
        Self::flushed(r)
    }

    /// When the batch timer should next fire, if anything waits.
    pub fn timer_deadline(&self) -> (r: Option<u64>)
        ensures
            r == deadline_of(self.queue_of()),
    {
        self.queue.deadline()
    }

    /// A read or write on the connection failed, or the peer went away.
    pub fn on_connection_lost(&mut self)
        ensures
            final(self).state_of() == SessionState::Closed,
            final(self).queue_of() == old(self).queue_of(),
    {
        self.state = SessionState::Closed;
    }
}

} // verus!
