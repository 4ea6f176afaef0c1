//! What a server does on one connection: which connections it takes, and how it answers
//! what arrives. The caller does the reading and the writing.

use vstd::prelude::*;
use crate::database::{handle_request, Database};
use crate::packet::{Command, ErrorCode, Request, Response, ResponseView};

verus! {

/// How many sessions a server has at a time.
pub const MAX_SESSIONS: usize = 4;

/// What arrived on a connection.
pub enum Event {
    /// A request that could be read.
    Request(Request),
    /// Something that is no request.
    Malformed,
}

/// What the server does next on a connection.
pub enum Action {
    /// Send the response and wait for the next request.
    Reply(Response),
    /// Send the response and close the connection.
    ReplyAndClose(Response),
    /// Close the connection without a response.
    Close,
}

/// What to do with a new connection when, with it, `sessions` are open: greet
/// it, or turn it away if there are more than [`MAX_SESSIONS`].
pub fn greet(sessions: usize) -> (action: Action)
    ensures
        sessions <= MAX_SESSIONS ==> (action matches Action::Reply(response) && response@
            == ResponseView::Connected),
        sessions > MAX_SESSIONS ==> (action matches Action::ReplyAndClose(response) && response@
            == ResponseView::Error(ErrorCode::ServerBusy)),
{
    if sessions > MAX_SESSIONS {
        Action::ReplyAndClose(Response::Error(ErrorCode::ServerBusy))
    } else {
        Action::Reply(Response::Connected)
    }
}

/// Whether the store can take what arrived within the machine's integers,
/// which [`serve`] asks of its caller.
pub fn servable(event: &Event, db: &Database) -> (ok: bool)
    ensures
        ok == (event matches Event::Request(request) ==> db@.in_range(request@)),
{
    match event {
        Event::Request(request) => db.accepts(request),
        Event::Malformed => true,
    }
}

/// What to do with what arrived on a connection that was greeted.
///
/// What is no request is answered with `BadRequest` and ends the session;
/// `Exit` ends it without an answer; neither touches the store. Every other
/// request is carried out and answered.
pub fn serve(event: Event, db: &mut Database) -> (action: Action)
    requires
        old(db).wf(),
        event matches Event::Request(request) ==> old(db)@.in_range(request@),
    ensures
        final(db).wf(),
        match event {
            Event::Malformed => {
                &&& final(db)@ == old(db)@
                &&& action matches Action::ReplyAndClose(response)
                &&& response@ == ResponseView::Error(ErrorCode::BadRequest)
            },
            Event::Request(request) => if request.command is Exit {
                final(db)@ == old(db)@ && action is Close
            } else {
                action matches Action::Reply(response) && old(db)@.step(
                    request@,
                    final(db)@,
                    response@,
                )
            },
        },
{
    match event {
        Event::Malformed => Action::ReplyAndClose(Response::Error(ErrorCode::BadRequest)),
        Event::Request(request) => {
            if let Command::Exit = request.command {
                Action::Close
            } else {
                Action::Reply(handle_request(request, db))
            }
        },
    }
}

} // verus!
