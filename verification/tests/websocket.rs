use calaos_core::calaos_json_protocol::{EventData, LoginData, Request, Response, SetStateData, Success};
use calaos_core::event::Event;
use calaos_core::io_context::IOData;
use calaos_core::io_value::{IOAction, IOValue};
use calaos_core::websocket_server::{verify_login, Credentials, Session, SessionStep};

#[test]
fn verify_login_env_based() {
    let configured = Credentials { user: Some("alice".to_string()), pass: Some("secret".to_string()) };
    assert!(verify_login("alice", "secret", &configured));
    assert!(!verify_login("alice", "wrong", &configured));
    let unset = Credentials { user: None, pass: None };
    // When not configured, allow
    assert!(verify_login("any", "any", &unset));
    let half = Credentials { user: Some("alice".to_string()), pass: None };
    assert!(verify_login("any", "any", &half));
}

#[test]
fn session_gate() {
    let creds = Credentials { user: Some("alice".to_string()), pass: Some("secret".to_string()) };
    let mut s = Session::new();
    match s.handle_request(Request::GetHome, &creds) {
        SessionStep::ReplyAndClose(r) => assert_eq!(r, Response::Login { data: Success::new(false) }),
        other => panic!("unexpected {:?}", other),
    }
    assert!(s.feedback_event(IOData::new("x".to_string(), IOValue::Int(1))).is_none());
    match s.handle_request(Request::Login { data: LoginData::new("alice".into(), "bad".into()) }, &creds) {
        SessionStep::ReplyAndClose(r) => assert_eq!(r, Response::Login { data: Success::new(false) }),
        other => panic!("unexpected {:?}", other),
    }
    assert!(!s.authenticated);
    match s.handle_request(Request::Login { data: LoginData::new("alice".into(), "secret".into()) }, &creds) {
        SessionStep::Reply(r) => assert_eq!(r, Response::Login { data: Success::new(true) }),
        other => panic!("unexpected {:?}", other),
    }
    assert!(s.authenticated);
    assert!(matches!(s.handle_request(Request::GetHome, &creds), SessionStep::FetchHome));
    match s.handle_request(
        Request::SetState { data: SetStateData { id: "output_0".into(), value: IOValue::Bool(true) } },
        &creds,
    ) {
        SessionStep::Forward { action, reply } => {
            assert_eq!(action.id, "output_0");
            assert_eq!(action.action, IOAction::SetValue(IOValue::Bool(true)));
            assert_eq!(reply, Response::SetState { data: Success::new(true) });
        }
        other => panic!("unexpected {:?}", other),
    }
    match s.handle_request(Request::Pong { data: vec![1, 2] }, &creds) {
        SessionStep::Pong(d) => assert_eq!(d, vec![1, 2]),
        other => panic!("unexpected {:?}", other),
    }
    match s.feedback_event(IOData::new("light".to_string(), IOValue::Bool(true))) {
        Some(Response::Event { data }) => {
            assert_eq!(data.event_raw, "io_changed, id:light state:true");
            assert_eq!(data.typer, 3);
            assert_eq!(data.type_str, "io_changed");
        }
        other => panic!("unexpected {:?}", other),
    }
}

#[test]
fn event_data() {
    let e = EventData::new(Event::RoomAdded, IOData::new("r1".to_string(), IOValue::Int(-4)));
    assert_eq!(e.event_raw, "room_added, id:r1 state:-4");
    assert_eq!(e.typer, 5);
    assert_eq!(e.type_str, "room_added");
    assert_eq!(e.data, IOData::new("r1".to_string(), IOValue::Int(-4)));
    let d: IOData = SetStateData { id: "a".into(), value: IOValue::Int(2) }.into();
    assert_eq!(d, IOData::new("a".to_string(), IOValue::Int(2)));
    let l = LoginData::new("u".into(), "p".into());
    assert_eq!(l.user(), "u");
    assert_eq!(l.pass(), "p");
}
