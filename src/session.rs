use vstd::prelude::*;
use vstd::utf8::encode_utf8;

verus! {

/// The length in UTF-8 bytes of a text, as `str::len` reports it.
pub open spec fn byte_len(t: String) -> u64 {
    (encode_utf8(t@).len() as usize) as u64
}

/// What one read from the transport gave.
pub enum Frame {
    /// A text message.
    Text(String),
    /// A message of another kind (binary, ping, pong).
    Other,
    /// The peer closed the connection, or the stream ended.
    Close,
    /// The transport failed to decode a frame.
    Failed,
}

/// The stages of a connection's life.
#[derive(PartialEq, Eq, Structural, Clone, Copy, Debug)]
pub enum SessionState {
    Connecting,
    Open,
    Closing,
    Closed,
}

/// Something that happened on a connection.
pub enum SessionEvent {
    /// The transport handshake succeeded.
    HandshakeSucceeded,
    /// The transport handshake failed.
    HandshakeFailed,
    /// The reader got a frame.
    Inbound(Frame),
    /// The writer took a message off the connection's delivery channel.
    Outbound(String),
    /// Writing to the transport failed.
    WriteFailed,
    /// The reader or the writer has exited.
    Finished,
}

/// What the connection's tasks are to do next.
pub enum SessionAction {
    /// Add the connection to the registry.
    Register,
    /// Hand the text to the broadcast dispatcher, then to the event sink.
    Relay(String),
    /// Write the message to the transport.
    Write(String),
    /// Remove the connection from the registry.
    Deregister,
    /// Nothing.
    Idle,
}

/// Whether a text of `len` bytes is over the limit of `limit` bytes.
pub fn exceeds_limit(len: usize, limit: u64) -> (r: bool)
    ensures
        r == (len > limit),
{
    len as u64 > limit
}

/// The next state and the action for `event` in `state`, where `limit` is the
/// largest text, in bytes, that is relayed.
pub open spec fn transition(state: SessionState, limit: u64, event: SessionEvent) -> (
    SessionState,
    SessionAction,
) {
    match state {
        SessionState::Connecting => match event {
            SessionEvent::HandshakeSucceeded => (SessionState::Open, SessionAction::Register),
            SessionEvent::HandshakeFailed => (SessionState::Closed, SessionAction::Idle),
            _ => (SessionState::Connecting, SessionAction::Idle),
        },
        SessionState::Open => match event {
            SessionEvent::Inbound(Frame::Text(t)) => if byte_len(t) > limit {
                (SessionState::Closing, SessionAction::Deregister)
            } else {
                (SessionState::Open, SessionAction::Relay(t))
            },
            SessionEvent::Inbound(Frame::Other) => (SessionState::Open, SessionAction::Idle),
            SessionEvent::Outbound(m) => (SessionState::Open, SessionAction::Write(m)),
            SessionEvent::HandshakeSucceeded => (SessionState::Open, SessionAction::Idle),
            SessionEvent::HandshakeFailed => (SessionState::Open, SessionAction::Idle),
            _ => (SessionState::Closing, SessionAction::Deregister),
        },
        SessionState::Closing => match event {
            SessionEvent::Finished => (SessionState::Closed, SessionAction::Idle),
            _ => (SessionState::Closing, SessionAction::Idle),
        },
        SessionState::Closed => (SessionState::Closed, SessionAction::Idle),
    }
}

/// The decisions of one connection: it registers once the handshake is done,
/// relays texts within the size limit, writes what its channel hands it, and
/// on the first sign of an end (an oversize text, a close, a read or write
/// failure, a task that exited) deregisters, once.
pub struct Session {
    state: SessionState,
    limit: u64,
}

impl Session {
    /// The stage the connection is at.
    pub closed spec fn stage(&self) -> SessionState {
        self.state
    }

    /// The largest text, in bytes, that the connection relays.
    pub closed spec fn max_bytes(&self) -> u64 {
        self.limit
    }

    /// A connection whose handshake is under way.
    pub fn new(max_bytes: u64) -> (r: Session)
        ensures
            r.stage() == SessionState::Connecting,
            r.max_bytes() == max_bytes,
    {
        Session { state: SessionState::Connecting, limit: max_bytes }
    }

    /// The stage the connection is at.
    pub fn state(&self) -> (r: SessionState)
        ensures
            r == self.stage(),
    {
        self.state
    }

    /// Takes one event and says what to do.
    pub fn step(&mut self, event: SessionEvent) -> (action: SessionAction)
        ensures
            (final(self).stage(), action) == transition(old(self).stage(), old(self).max_bytes(), event),
            final(self).max_bytes() == old(self).max_bytes(),
    {
        match self.state {
            SessionState::Connecting => match event {
                SessionEvent::HandshakeSucceeded => {
                    self.state = SessionState::Open;
                    SessionAction::Register
                },
                SessionEvent::HandshakeFailed => {
                    self.state = SessionState::Closed;
                    SessionAction::Idle
                },
                _ => SessionAction::Idle,
            },
            SessionState::Open => match event {
                SessionEvent::Inbound(Frame::Text(t)) => {
                    let len = t.as_str().len();
                    assert(len as u64 == byte_len(t));
                    if exceeds_limit(len, self.limit) {
                        self.state = SessionState::Closing;
                        SessionAction::Deregister
                    } else {
                        SessionAction::Relay(t)
                    }
                },
                SessionEvent::Inbound(Frame::Other) => SessionAction::Idle,
                SessionEvent::Outbound(m) => SessionAction::Write(m),
                SessionEvent::HandshakeSucceeded => SessionAction::Idle,
                SessionEvent::HandshakeFailed => SessionAction::Idle,
                _ => {
                    self.state = SessionState::Closing;
                    SessionAction::Deregister
                },
            },
            SessionState::Closing => match event {
                SessionEvent::Finished => {
                    self.state = SessionState::Closed;
                    SessionAction::Idle
                },
                _ => SessionAction::Idle,
            },
            SessionState::Closed => SessionAction::Idle,
        }
    }
}

/// The state reached and the actions taken when the events come in order.
pub open spec fn run(state: SessionState, limit: u64, events: Seq<SessionEvent>) -> (
    SessionState,
    Seq<SessionAction>,
)
    decreases events.len(),
{
    if events.len() == 0 {
        (state, Seq::empty())
    } else {
        let (next, action) = transition(state, limit, events[0]);
        let (last, rest) = run(next, limit, events.drop_first());
        (last, seq![action] + rest)
    }
}

/// How many of the actions are deregistrations.
pub open spec fn deregistrations(actions: Seq<SessionAction>) -> nat
    decreases actions.len(),
{
    if actions.len() == 0 {
        0
    } else {
        (if actions[0] is Deregister {
            1nat
        } else {
            0nat
        }) + deregistrations(actions.drop_first())
    }
}

/// Whether every action is `Idle`.
pub open spec fn all_idle(actions: Seq<SessionAction>) -> bool {
    forall|i: int| 0 <= i < actions.len() ==> #[trigger] actions[i] is Idle
}

/// Once a connection is closing or closed it does nothing more: no relay,
/// no write, no second deregistration.
pub proof fn lemma_ended_is_idle(state: SessionState, limit: u64, events: Seq<SessionEvent>)
    requires
        state == SessionState::Closing || state == SessionState::Closed,
    ensures
        all_idle(run(state, limit, events).1),
        deregistrations(run(state, limit, events).1) == 0,
    decreases events.len(),
{
    if events.len() > 0 {
        let (next, action) = transition(state, limit, events[0]);
        lemma_ended_is_idle(next, limit, events.drop_first());
        let acts = run(state, limit, events).1;
        assert(acts.drop_first() == run(next, limit, events.drop_first()).1);
        assert forall|i: int| 0 <= i < acts.len() implies #[trigger] acts[i] is Idle by {
            if i > 0 {
                assert(acts[i] == acts.drop_first()[i - 1]);
            }
        }
    }
}

/// Whatever the events, and whichever of the reader or the writer sees the
/// end first, a connection deregisters at most once.
pub proof fn lemma_deregisters_at_most_once(
    state: SessionState,
    limit: u64,
    events: Seq<SessionEvent>,
)
    ensures
        deregistrations(run(state, limit, events).1) <= 1,
    decreases events.len(),
{
    if events.len() > 0 {
        let (next, action) = transition(state, limit, events[0]);
        let acts = run(state, limit, events).1;
        assert(acts.drop_first() == run(next, limit, events.drop_first()).1);
        if action is Deregister {
            lemma_ended_is_idle(next, limit, events.drop_first());
        } else {
            lemma_deregisters_at_most_once(next, limit, events.drop_first());
        }
    }
}

/// A failed handshake ends the connection before it is registered: nothing is
/// ever done for it.
pub proof fn lemma_failed_handshake_is_idle(limit: u64, events: Seq<SessionEvent>)
    requires
        events.len() > 0,
        events[0] is HandshakeFailed,
    ensures
        all_idle(run(SessionState::Connecting, limit, events).1),
{
    lemma_ended_is_idle(SessionState::Closed, limit, events.drop_first());
    let acts = run(SessionState::Connecting, limit, events).1;
    assert forall|i: int| 0 <= i < acts.len() implies #[trigger] acts[i] is Idle by {
        if i > 0 {
            assert(acts[i] == acts.drop_first()[i - 1]);
        }
    }
}

/// The size limit: on an open connection a text over the limit is never
/// relayed; the connection deregisters and then does nothing more. A text
/// within the limit is relayed as it is, and the connection stays open.
pub proof fn lemma_size_limit(limit: u64, t: String, rest: Seq<SessionEvent>)
    ensures
        byte_len(t) > limit ==> ({
            let acts = run(
                SessionState::Open,
                limit,
                seq![SessionEvent::Inbound(Frame::Text(t))] + rest,
            ).1;
            acts[0] is Deregister && all_idle(acts.drop_first())
        }),
        byte_len(t) <= limit ==> transition(
            SessionState::Open,
            limit,
            SessionEvent::Inbound(Frame::Text(t)),
        ) == (SessionState::Open, SessionAction::Relay(t)),
{
    let events = seq![SessionEvent::Inbound(Frame::Text(t))] + rest;
    assert(events.drop_first() == rest);
    if byte_len(t) > limit {
        lemma_ended_is_idle(SessionState::Closing, limit, rest);
    }
}

/// Per-connection order: on an open connection the messages taken off its
/// delivery channel are written in the order they were taken.
pub proof fn lemma_writes_in_order(limit: u64, msgs: Seq<String>)
    ensures
        run(SessionState::Open, limit, msgs.map_values(|m: String| SessionEvent::Outbound(m)))
            == (SessionState::Open, msgs.map_values(|m: String| SessionAction::Write(m))),
    decreases msgs.len(),
{
    let events = msgs.map_values(|m: String| SessionEvent::Outbound(m));
    if msgs.len() > 0 {
        lemma_writes_in_order(limit, msgs.drop_first());
        assert(events.drop_first() == msgs.drop_first().map_values(
            |m: String| SessionEvent::Outbound(m),
        ));
        assert(msgs.map_values(|m: String| SessionAction::Write(m)) == seq![
            SessionAction::Write(msgs[0]),
        ] + msgs.drop_first().map_values(|m: String| SessionAction::Write(m)));
    }
}

} // verus!
