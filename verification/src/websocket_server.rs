//! The decisions of a websocket session: login, the refusal of everything
//! else until login succeeded, and the answer to each request. Accepting
//! connections and moving frames is the application's job.

use vstd::prelude::*;

use crate::calaos_json_protocol::{
    event_raw_text, EventData, LoginData, Request, Response, SetStateData, Success,
};
use crate::event::{event_code, event_text, Event};
use crate::io_context::{IOData, IODataAction};
use crate::io_value::IOAction;
use crate::text::str_eq;

verus! {

/// The credentials that the server expects, when they are configured
/// (`WS_USER` and `WS_PASS`).
#[derive(Debug)]
pub struct Credentials {
    pub user: Option<String>,
    pub pass: Option<String>,
}

/// Whether a login is accepted: it must match the configured credentials;
/// when they are not both configured, any login is accepted.
pub open spec fn login_accepted(user: Seq<char>, pass: Seq<char>, c: Credentials) -> bool {
    match (c.user, c.pass) {
        (Some(u), Some(p)) => user == u@ && pass == p@,
        _ => true,
    }
}

/// Whether a login is accepted.
pub fn verify_login(user: &str, pass: &str, credentials: &Credentials) -> (r: bool)
    ensures
        r == login_accepted(user@, pass@, *credentials),
{
    match (&credentials.user, &credentials.pass) {
        (Some(u), Some(p)) => str_eq(user, u.as_str()) && str_eq(pass, p.as_str()),
        _ => true,
    }
}

/// The state of a session: events and commands are refused until a login
/// succeeds.
#[derive(Debug, Clone, Copy, PartialEq, Eq, Structural)]
pub struct Session {
    pub authenticated: bool,
}

/// What the session does for a request.
#[derive(Debug)]
pub enum SessionStep {
    /// Answer a ping with these bytes.
    Pong(Vec<u8>),
    /// Send the response.
    Reply(Response),
    /// Send the response and close the connection.
    ReplyAndClose(Response),
    /// Ask the rules engine for the home data and send it as `Response::GetHome`.
    FetchHome,
    /// Send the action to the rules engine, then the response.
    Forward { action: IODataAction, reply: Response },
}

/// The answer to a refused login or to a request before login.
pub open spec fn refusal(r: Response) -> bool {
    r == Response::Login { data: Success { success: false } }
}

impl Session {
    pub fn new() -> (r: Self)
        ensures
            !r.authenticated,
    {
        Session { authenticated: false }
    }

    /// Handles a request of the client.
    pub fn handle_request(&mut self, request: Request, credentials: &Credentials) -> (r:
        SessionStep)
        ensures
            match request {
                Request::Pong { data } => r matches SessionStep::Pong(d) && d == data
                    && *final(self) == *old(self),
                Request::Login { data } => {
                    let ok = login_accepted(data.cn_user@, data.cn_pass@, *credentials);
                    &&& final(self).authenticated == ok
                    &&& if ok {
                        r matches SessionStep::Reply(x) && x == Response::Login {
                            data: Success { success: true },
                        }
                    } else {
                        r matches SessionStep::ReplyAndClose(x) && refusal(x)
                    }
                },
                Request::GetHome => {
                    &&& *final(self) == *old(self)
                    &&& if old(self).authenticated {
                        r is FetchHome
                    } else {
                        r matches SessionStep::ReplyAndClose(x) && refusal(x)
                    }
                },
                Request::SetState { data } => {
                    &&& *final(self) == *old(self)
                    &&& if old(self).authenticated {
                        r matches SessionStep::Forward { action, reply } && action.id == data.id
                            && action.action == IOAction::SetValue(data.value) && reply
                            == Response::SetState { data: Success { success: true } }
                    } else {
                        r matches SessionStep::ReplyAndClose(x) && refusal(x)
                    }
                },
                Request::Event { kind, data } => {
                    &&& *final(self) == *old(self)
                    &&& r matches SessionStep::Reply(Response::Event { data: e }) && e.event_raw@
                        == event_raw_text(kind, data.id@, data.value@) && e.typer == event_code(
                        kind,
                    ) && e.type_str@ == event_text(kind) && e.data == data
                },
            },
    {
        match request {
            Request::Pong { data } => SessionStep::Pong(data),
            Request::Login { data } => {
                let ok = verify_login(data.user(), data.pass(), credentials);
                self.authenticated = ok;
                if ok {
                    SessionStep::Reply(Response::Login { data: Success::new(true) })
                } else {
                    SessionStep::ReplyAndClose(Response::Login { data: Success::new(false) })
                }
            },
            Request::GetHome => {
                if self.authenticated {
                    SessionStep::FetchHome
                } else {
                    SessionStep::ReplyAndClose(Response::Login { data: Success::new(false) })
                }
            },
            Request::SetState { data } => {
                if self.authenticated {
                    SessionStep::Forward {
                        action: data.into_action(),
                        reply: Response::SetState { data: Success::new(true) },
                    }
                } else {
                    SessionStep::ReplyAndClose(Response::Login { data: Success::new(false) })
                }
            },
            Request::Event { kind, data } => SessionStep::Reply(
                Response::Event { data: EventData::new(kind, data) },
            ),
        }
    }

    /// The event sent to the client when an output reports a value: only
    /// once logged in.
    pub fn feedback_event(&self, data: IOData) -> (r: Option<Response>)
        ensures
            self.authenticated ==> (r matches Some(Response::Event { data: e }) && e.event_raw@
                == event_raw_text(Event::IOChanged, data.id@, data.value@) && e.typer == event_code(
                Event::IOChanged,
            ) && e.type_str@ == event_text(Event::IOChanged) && e.data == data),
            !self.authenticated ==> r is None,
    {
        if self.authenticated {
            Some(Response::Event { data: EventData::new(Event::IOChanged, data) })
        } else {
            None
        }
    }
}

} // verus!
