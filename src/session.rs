//! The life of one connection: it must authenticate with its first frame;
//! once admitted, every message it sends is stored and relayed; any failure
//! closes it. The relay feeds each event to `Session::handle` and carries out
//! the action it returns.

use vstd::prelude::*;
use vstd::string::*;
use crate::message::{AuthAction, MessageType, MessageView, decode_message, decode_spec, encode_spec, lemma_decode_sound};
use crate::wire::{encode_frame, frame_decode, frame_of, lemma_frame_round_trip, BytesSendReceiveError, MAX_FRAME_LEN};

verus! {

/// Where a connection stands.
#[derive(Debug, Clone, Copy, PartialEq, Eq, Structural)]
pub enum SessionState {
    /// Connected; the first frame has not arrived yet.
    AwaitingAuth,
    /// The credentials of the first frame are being checked.
    Authenticating,
    /// Admitted as this user.
    Authenticated(i64),
    /// Finished; nothing more is read or sent.
    Closed,
}

/// What happened on a connection.
#[derive(Debug, Clone, PartialEq, Eq)]
pub enum SessionEvent {
    /// A whole frame arrived with this payload.
    Received(Vec<u8>),
    /// The stream failed or ended.
    ReceiveFailed,
    /// The credential check finished: the user's id if it succeeded, and a
    /// reason to show the user.
    AuthResolved(Option<i64>, String),
    /// Writing to this connection failed.
    SendFailed,
}

/// An event as a mathematical value.
pub enum EventView {
    Received(Seq<u8>),
    ReceiveFailed,
    AuthResolved(Option<i64>, Seq<char>),
    SendFailed,
}

impl View for SessionEvent {
    type V = EventView;

    open spec fn view(&self) -> EventView {
        match self {
            SessionEvent::Received(b) => EventView::Received(b@),
            SessionEvent::ReceiveFailed => EventView::ReceiveFailed,
            SessionEvent::AuthResolved(id, d) => EventView::AuthResolved(*id, d@),
            SessionEvent::SendFailed => EventView::SendFailed,
        }
    }
}

/// What the relay must do next for a connection.
#[derive(Debug, Clone, PartialEq, Eq)]
pub enum SessionAction {
    /// Check these credentials and report back with `AuthResolved`.
    ResolveAuth(AuthAction, String, String),
    /// Send this response, then insert the connection into the registry.
    Admit(MessageType),
    /// Send this response, then close without registering.
    Reject(MessageType),
    /// Store `content` for user `user_id`, then send `frame` to every other
    /// registered connection.
    Relay { user_id: i64, content: String, frame: Vec<u8> },
    /// Close the connection, removing it from the registry first if
    /// `deregister` is set.
    Close { deregister: bool },
}

/// An action as a mathematical value.
pub enum ActionView {
    ResolveAuth(AuthAction, Seq<char>, Seq<char>),
    Admit(MessageView),
    Reject(MessageView),
    Relay { user_id: i64, content: Seq<char>, frame: Seq<u8> },
    Close { deregister: bool },
}

impl View for SessionAction {
    type V = ActionView;

    open spec fn view(&self) -> ActionView {
        match self {
            SessionAction::ResolveAuth(a, u, p) => ActionView::ResolveAuth(*a, u@, p@),
            SessionAction::Admit(m) => ActionView::Admit(m@),
            SessionAction::Reject(m) => ActionView::Reject(m@),
            SessionAction::Relay { user_id, content, frame } => ActionView::Relay {
                user_id: *user_id,
                content: content@,
                frame: frame@,
            },
            SessionAction::Close { deregister } => ActionView::Close { deregister: *deregister },
        }
    }
}

/// What is stored for a relayed message: the text itself, or a placeholder
/// for an image or a file. Authentication messages are not stored.
pub open spec fn stored_content_spec(m: MessageView) -> Option<Seq<char>> {
    match m {
        MessageView::Text(t) => Some(t),
        MessageView::Image(_) => Some("SENT IMAGE"@),
        MessageView::File(n, _) => Some("FILE SENT: "@ + n),
        _ => None,
    }
}

/// One transition: the next state and the action for event `e` in state `s`.
pub open spec fn step(s: SessionState, e: EventView) -> (SessionState, ActionView) {
    match s {
        SessionState::AwaitingAuth => match e {
            EventView::Received(b) => match decode_spec(b) {
                Some(MessageView::AuthRequest(a, u, p)) => (
                    SessionState::Authenticating,
                    ActionView::ResolveAuth(a, u, p),
                ),
                _ => (SessionState::Closed, ActionView::Close { deregister: false }),
            },
            _ => (SessionState::Closed, ActionView::Close { deregister: false }),
        },
        SessionState::Authenticating => match e {
            EventView::AuthResolved(Some(id), d) => (
                SessionState::Authenticated(id),
                ActionView::Admit(MessageView::AuthResponse(true, d)),
            ),
            EventView::AuthResolved(None, d) => (
                SessionState::Closed,
                ActionView::Reject(MessageView::AuthResponse(false, d)),
            ),
            _ => (SessionState::Closed, ActionView::Close { deregister: false }),
        },
        SessionState::Authenticated(id) => match e {
            EventView::Received(b) => if b.len() > MAX_FRAME_LEN {
                (SessionState::Closed, ActionView::Close { deregister: true })
            } else {
                match decode_spec(b) {
                    Some(m) => match stored_content_spec(m) {
                        Some(c) => (
                            SessionState::Authenticated(id),
                            ActionView::Relay { user_id: id, content: c, frame: frame_of(b) },
                        ),
                        None => (SessionState::Closed, ActionView::Close { deregister: true }),
                    },
                    None => (SessionState::Closed, ActionView::Close { deregister: true }),
                }
            },
            _ => (SessionState::Closed, ActionView::Close { deregister: true }),
        },
        SessionState::Closed => (SessionState::Closed, ActionView::Close { deregister: false }),
    }
}

/// The actions a session takes, from state `s`, on the events `es` in turn.
pub open spec fn run(s: SessionState, es: Seq<EventView>) -> Seq<ActionView>
    decreases es.len(),
{
    if es.len() == 0 {
        Seq::empty()
    } else {
        seq![step(s, es[0]).1] + run(step(s, es[0]).0, es.drop_first())
    }
}

pub open spec fn admits(a: ActionView) -> bool {
    a is Admit
}

proof fn lemma_closed_never_admits(es: Seq<EventView>)
    ensures
        forall|i: int| 0 <= i < run(SessionState::Closed, es).len() ==> !admits(
            #[trigger] run(SessionState::Closed, es)[i],
        ),
    decreases es.len(),
{
    if es.len() > 0 {
        lemma_closed_never_admits(es.drop_first());
        let r = run(SessionState::Closed, es);
        assert forall|i: int| 0 <= i < r.len() implies !admits(#[trigger] r[i]) by {
            if i > 0 {
                assert(r[i] == run(SessionState::Closed, es.drop_first())[i - 1]);
            }
        }
    }
}

/// A connection whose first frame is anything but an authentication request
/// is never admitted to the registry, whatever it sends afterwards.
pub proof fn lemma_auth_gate(es: Seq<EventView>)
    requires
        es.len() > 0,
        es[0] matches EventView::Received(b) && !(decode_spec(b) matches Some(
            MessageView::AuthRequest(_, _, _),
        )),
    ensures
        forall|i: int| 0 <= i < run(SessionState::AwaitingAuth, es).len() ==> !admits(
            #[trigger] run(SessionState::AwaitingAuth, es)[i],
        ),
{
    lemma_closed_never_admits(es.drop_first());
    let r = run(SessionState::AwaitingAuth, es);
    assert(step(SessionState::AwaitingAuth, es[0]).0 == SessionState::Closed);
    assert forall|i: int| 0 <= i < r.len() implies !admits(#[trigger] r[i]) by {
        if i > 0 {
            assert(r[i] == run(SessionState::Closed, es.drop_first())[i - 1]);
        }
    }
}

/// What an admitted session relays is what it received: the frame it hands
/// to the fan-out carries the encoding of the very message that arrived.
pub proof fn lemma_relay_forwards_message(id: i64, b: Seq<u8>)
    requires
        step(SessionState::Authenticated(id), EventView::Received(b)).1 is Relay,
    ensures
        decode_spec(b) is Some,
        frame_decode(step(SessionState::Authenticated(id), EventView::Received(b)).1->frame)
            == Ok::<(Seq<u8>, nat), BytesSendReceiveError>((
            encode_spec(decode_spec(b)->Some_0),
            4 + b.len(),
        )),
{
    lemma_decode_sound(b);
    lemma_frame_round_trip(b);
}

/// What is stored for a relayed message; `None` for authentication messages.
pub fn stored_content(m: &MessageType) -> (r: Option<String>)
    ensures
        match (r, stored_content_spec(m@)) {
            (Some(c), Some(d)) => c@ == d,
            (None, None) => true,
            _ => false,
        },
{
    match m {
        MessageType::Text(t) => Some(t.clone()),
        MessageType::Image(_) => Some(String::from_str("SENT IMAGE")),
        MessageType::File(n, _) => {
            let mut c = String::from_str("FILE SENT: ");
            c.append(n.as_str());
            Some(c)
        },
        _ => None,
    }
}

/// The session of one connection.
pub struct Session {
    state: SessionState,
}

impl Session {
    /// A session for a connection that has just been accepted.
    pub fn new() -> (r: Session)
        ensures
            r.state() == SessionState::AwaitingAuth,
    {
        Session { state: SessionState::AwaitingAuth }
    }

    pub closed spec fn state(&self) -> SessionState {
        self.state
    }

    /// The current state.
    pub fn current(&self) -> (r: SessionState)
        ensures
            r == self.state(),
    {
        self.state
    }

    /// Takes one event; returns what to do about it.
    pub fn handle(&mut self, event: SessionEvent) -> (action: SessionAction)
        ensures
            (final(self).state(), action@) == step(old(self).state(), event@),
    {
        match self.state {
            SessionState::AwaitingAuth => {
                match event {
                    SessionEvent::Received(b) => {
                        match decode_message(b.as_slice()) {
                            Ok(MessageType::AuthRequest(a, u, p)) => {
                                self.state = SessionState::Authenticating;
                                SessionAction::ResolveAuth(a, u, p)
                            },
                            _ => {
                                self.state = SessionState::Closed;
                                SessionAction::Close { deregister: false }
                            },
                        }
                    },
                    _ => {
                        self.state = SessionState::Closed;
                        SessionAction::Close { deregister: false }
                    },
                }
            },
            SessionState::Authenticating => {
                match event {
                    SessionEvent::AuthResolved(Some(id), d) => {
                        self.state = SessionState::Authenticated(id);
                        SessionAction::Admit(MessageType::AuthResponse(true, d))
                    },
                    SessionEvent::AuthResolved(None, d) => {
                        self.state = SessionState::Closed;
                        SessionAction::Reject(MessageType::AuthResponse(false, d))
                    },
                    _ => {
                        self.state = SessionState::Closed;
                        SessionAction::Close { deregister: false }
                    },
                }
            },
            SessionState::Authenticated(id) => {
                match event {
                    SessionEvent::Received(b) => {
                        if b.len() > MAX_FRAME_LEN {
                            self.state = SessionState::Closed;
                            return SessionAction::Close { deregister: true };
                        }
                        let content = match decode_message(b.as_slice()) {
                            Ok(m) => stored_content(&m),
                            Err(_) => None,
                        };
                        match content {
                            Some(c) => {
                                match encode_frame(b.as_slice()) {
                                    Ok(frame) => SessionAction::Relay { user_id: id, content: c, frame },
                                    Err(_) => {
                                        self.state = SessionState::Closed;
                                        SessionAction::Close { deregister: true }
                                    },
                                }
                            },
                            None => {
                                self.state = SessionState::Closed;
                                SessionAction::Close { deregister: true }
                            },
                        }
                    },
                    _ => {
                        self.state = SessionState::Closed;
                        SessionAction::Close { deregister: true }
                    },
                }
            },
            SessionState::Closed => SessionAction::Close { deregister: false },
        }
    }
}

} // verus!
