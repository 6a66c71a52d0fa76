use chat_relay::auth::{login, registration_hash, registration_outcome};
use chat_relay::message::{encode_message, AuthAction, MessageType};
use chat_relay::registry::ConnectionRegistry;
use chat_relay::session::{stored_content, Session, SessionAction, SessionEvent, SessionState};
use chat_relay::wire::encode_frame;

/// A credential store kept in memory for the tests.
struct Store {
    users: Vec<(i64, String, String)>,
}

impl Store {
    fn resolve(&mut self, action: AuthAction, username: &str, password: &str) -> (Option<i64>, String) {
        let password = password.to_string();
        match action {
            AuthAction::Register => match registration_hash(&password) {
                Err(outcome) => outcome,
                Ok(hash) => {
                    let created = if self.users.iter().any(|u| u.1 == username) {
                        None
                    } else {
                        let id = self.users.len() as i64 + 1;
                        self.users.push((id, username.to_string(), hash));
                        Some(id)
                    };
                    registration_outcome(created)
                }
            },
            AuthAction::Login => {
                let stored = self
                    .users
                    .iter()
                    .find(|u| u.1 == username)
                    .map(|u| (u.0, u.2.clone()));
                login(&password, stored)
            }
        }
    }
}

fn payload(m: &MessageType) -> Vec<u8> {
    encode_message(m).unwrap()
}

/// Runs the authentication exchange; returns the action taken on the
/// credential check's result.
fn authenticate(store: &mut Store, session: &mut Session, action: AuthAction, user: &str, pw: &str) -> SessionAction {
    let request = MessageType::AuthRequest(action, user.to_string(), pw.to_string());
    match session.handle(SessionEvent::Received(payload(&request))) {
        SessionAction::ResolveAuth(a, u, p) => {
            assert_eq!((a, u.as_str(), p.as_str()), (action, user, pw));
            let (id, detail) = store.resolve(a, &u, &p);
            session.handle(SessionEvent::AuthResolved(id, detail))
        }
        other => panic!("unexpected action {:?}", other),
    }
}

#[test]
fn auth_round_trip_scenario() {
    let mut store = Store { users: vec![] };

    let mut s1 = Session::new();
    let a1 = authenticate(&mut store, &mut s1, AuthAction::Register, "alice", "p@ss1");
    assert_eq!(
        a1,
        SessionAction::Admit(MessageType::AuthResponse(true, "Registration successful.".to_string()))
    );
    assert_eq!(s1.current(), SessionState::Authenticated(1));

    let mut s2 = Session::new();
    let a2 = authenticate(&mut store, &mut s2, AuthAction::Login, "alice", "p@ss1");
    assert_eq!(
        a2,
        SessionAction::Admit(MessageType::AuthResponse(true, "Successfully logged in.".to_string()))
    );

    let mut s3 = Session::new();
    let a3 = authenticate(&mut store, &mut s3, AuthAction::Login, "alice", "wrong");
    assert_eq!(
        a3,
        SessionAction::Reject(MessageType::AuthResponse(
            false,
            "Login not successful. The password seems to be incorrect.".to_string()
        ))
    );
    assert_eq!(s3.current(), SessionState::Closed);

    let mut s4 = Session::new();
    let a4 = authenticate(&mut store, &mut s4, AuthAction::Register, "alice", "other");
    assert_eq!(
        a4,
        SessionAction::Reject(MessageType::AuthResponse(
            false,
            "Registration not successful. Try a different username.".to_string()
        ))
    );
}

#[test]
fn first_frame_must_be_auth_request() {
    let mut reg: ConnectionRegistry<()> = ConnectionRegistry::new();
    let mut s = Session::new();
    let a = s.handle(SessionEvent::Received(payload(&MessageType::Text("hi".to_string()))));
    assert_eq!(a, SessionAction::Close { deregister: false });
    assert_eq!(s.current(), SessionState::Closed);
    // Nothing later admits it.
    let later = s.handle(SessionEvent::AuthResolved(Some(1), "ok".to_string()));
    assert_eq!(later, SessionAction::Close { deregister: false });
    assert!(!reg.contains(1));
    assert!(reg.recipients_except(2).is_empty());
    reg.register(2, ());
    assert!(reg.recipients_except(2).is_empty());

    let mut garbled = Session::new();
    assert_eq!(
        garbled.handle(SessionEvent::Received(vec![42, 1, 2])),
        SessionAction::Close { deregister: false }
    );
}

fn admitted(id: i64) -> Session {
    let mut s = Session::new();
    let req = MessageType::AuthRequest(AuthAction::Login, "u".to_string(), "p".to_string());
    s.handle(SessionEvent::Received(payload(&req)));
    s.handle(SessionEvent::AuthResolved(Some(id), "ok".to_string()));
    assert_eq!(s.current(), SessionState::Authenticated(id));
    s
}

#[test]
fn admitted_session_relays_and_stores() {
    let mut s = admitted(5);
    let text = payload(&MessageType::Text("hello".to_string()));
    assert_eq!(
        s.handle(SessionEvent::Received(text.clone())),
        SessionAction::Relay {
            user_id: 5,
            content: "hello".to_string(),
            frame: encode_frame(&text).unwrap()
        }
    );
    let image = payload(&MessageType::Image(vec![1, 2]));
    match s.handle(SessionEvent::Received(image)) {
        SessionAction::Relay { content, .. } => assert_eq!(content, "SENT IMAGE"),
        other => panic!("unexpected action {:?}", other),
    }
    let file = payload(&MessageType::File("a.txt".to_string(), vec![3]));
    match s.handle(SessionEvent::Received(file)) {
        SessionAction::Relay { content, .. } => assert_eq!(content, "FILE SENT: a.txt"),
        other => panic!("unexpected action {:?}", other),
    }
    assert_eq!(s.current(), SessionState::Authenticated(5));
}

#[test]
fn admitted_session_closes_on_violation_or_failure() {
    let mut s = admitted(1);
    let again = MessageType::AuthRequest(AuthAction::Login, "u".to_string(), "p".to_string());
    assert_eq!(
        s.handle(SessionEvent::Received(payload(&again))),
        SessionAction::Close { deregister: true }
    );
    assert_eq!(s.current(), SessionState::Closed);

    let mut t = admitted(2);
    assert_eq!(t.handle(SessionEvent::Received(vec![0, 0])), SessionAction::Close { deregister: true });

    let mut u = admitted(3);
    assert_eq!(u.handle(SessionEvent::ReceiveFailed), SessionAction::Close { deregister: true });
    assert_eq!(u.handle(SessionEvent::ReceiveFailed), SessionAction::Close { deregister: false });

    let mut w = admitted(4);
    assert_eq!(w.handle(SessionEvent::SendFailed), SessionAction::Close { deregister: true });
}

#[test]
fn stored_content_of_each_variant() {
    assert_eq!(stored_content(&MessageType::Text("t".to_string())), Some("t".to_string()));
    assert_eq!(stored_content(&MessageType::Image(vec![])), Some("SENT IMAGE".to_string()));
    assert_eq!(
        stored_content(&MessageType::File("f".to_string(), vec![])),
        Some("FILE SENT: f".to_string())
    );
    assert_eq!(stored_content(&MessageType::AuthResponse(true, String::new())), None);
}
