//! The RCPT command, by which a client names a recipient of a message.

use vstd::prelude::*;
use vstd::string::*;
use crate::common::mailbox::{spec_parse, Mailbox};
use crate::server::commands::mail::{
    bracketed, invalid_address, is_bracketed, refuse_address, unbracket,
};
use crate::server::commands::{done, finish, Request, RequestView};
use crate::server::state::{StateSet, TransactionState};
use crate::server::{Command, CommandView, Handler};

verus! {

/// What the RCPT command needs of the event handler.
pub trait RcptHandler: Sized {
    /// Handles the email address passed to the RCPT command. An error
    /// refuses the recipient. Unless an event handler has its own, this does
    /// nothing and accepts the recipient.
    fn handle_receiver_address(&mut self, mailbox: Mailbox) -> (verdict: Result<(), ()>)
        default_ensures
            verdict is Ok,
            *final(self) == *old(self),
    {
        Ok(())
    }
}

/// What RCPT asks. An argument without brackets ends with a `501`, an
/// address that is none with a `553` that says why, and `<>` is no address.
/// Any address goes to the event handler.
pub open spec fn spec_request(state: TransactionState, arg: Seq<char>) -> RequestView {
    if !is_bracketed(arg) {
        done(501, "Invalid argument, format: '<email@example.com>'"@, state)
    } else {
        match spec_parse(bracketed(arg)) {
            Ok(m) => RequestView::Recipient(m),
            Err(e) => done(553, invalid_address(e), state),
        }
    }
}

/// Looks at the argument of RCPT.
pub fn request(state: TransactionState, arg: &str) -> (r: Request)
    ensures
        r@ == spec_request(state, arg@),
{
    match unbracket(arg) {
        None => Request::Done(
            finish(501, "Invalid argument, format: '<email@example.com>'", state),
        ),
        Some(inner) => match Mailbox::parse(inner) {
            Ok(m) => Request::Recipient(m),
            Err(e) => Request::Done(refuse_address(e, state)),
        },
    }
}

/// The states in which a client may name a recipient: once the sender is
/// known.
pub open spec fn states() -> StateSet {
    StateSet::none().with(TransactionState::Mail).with(TransactionState::Rcpt)
}

/// Returns the RCPT command
pub fn get() -> (c: Command)
    ensures
        c@ == (CommandView {
            start: Some("RCPT TO:"@),
            states: states(),
            handler: Some(Handler::Rcpt),
        }),
{
    let mut command = Command::new();
    command.starts_with("RCPT TO:");
    command.allowed_in(
        StateSet::none().with(TransactionState::Mail).with(TransactionState::Rcpt),
    );
    command.middleware(Handler::Rcpt);
    command
}

} // verus!
