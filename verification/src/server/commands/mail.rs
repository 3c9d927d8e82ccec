//! The MAIL command, by which a client names the sender of a message.

use vstd::prelude::*;
use vstd::string::*;
use crate::common::mailbox::{spec_parse, Mailbox, MailboxParseError};
use crate::server::commands::{done, finish, Outcome, Next, Request, RequestView};
use crate::server::reply::Reply;
use crate::server::state::{StateSet, TransactionState};
use crate::server::{Command, CommandView, Handler};

verus! {

/// What the MAIL command needs of the event handler.
pub trait MailHandler: Sized {
    /// Handles the email address passed to the MAIL command. An error
    /// refuses the sender. Unless an event handler has its own, this does
    /// nothing and accepts the sender.
    ///
    /// This will be `None` when the argument to MAIL is `<>`. This can happen
    /// when a server receives a delivery failure notification.
    fn handle_sender_address(&mut self, mailbox: Option<Mailbox>) -> (verdict: Result<(), ()>)
        default_ensures
            verdict is Ok,
            *final(self) == *old(self),
    {
        Ok(())
    }
}

/// The argument stands between `<` and `>`.
pub open spec fn is_bracketed(arg: Seq<char>) -> bool {
    arg.len() >= 2 && arg[0] == '<' && arg.last() == '>'
}

/// What stands between the brackets of the argument.
pub open spec fn bracketed(arg: Seq<char>) -> Seq<char> {
    arg.subrange(1, arg.len() - 1)
}

/// The text of the reply to an address that is none.
pub open spec fn invalid_address(e: MailboxParseError) -> Seq<char> {
    "Email address invalid: "@ + e.spec_reason()
}

/// What MAIL asks. An argument without brackets ends with a `501`, an
/// address that is none with a `553` that says why. The null sender `<>` and
/// any address go to the event handler.
pub open spec fn spec_request(state: TransactionState, arg: Seq<char>) -> RequestView {
    if !is_bracketed(arg) {
        done(501, "Invalid argument, format: '<email@example.com>'"@, state)
    } else if bracketed(arg).len() == 0 {
        RequestView::Sender(None)
    } else {
        match spec_parse(bracketed(arg)) {
            Ok(m) => RequestView::Sender(Some(m)),
            Err(e) => done(553, invalid_address(e), state),
        }
    }
}

/// Takes the brackets off an argument, where it has them.
pub fn unbracket(arg: &str) -> (inner: Option<&str>)
    ensures
        match inner {
            Some(text) => is_bracketed(arg@) && text@ == bracketed(arg@),
            None => !is_bracketed(arg@),
        },
{
    let n = arg.unicode_len();
    if n >= 2 && arg.get_char(0) == '<' && arg.get_char(n - 1) == '>' {
        Some(arg.substring_char(1, n - 1))
    } else {
        None
    }
}

/// Ends a command over an address that is none.
pub fn refuse_address(e: MailboxParseError, state: TransactionState) -> (o: Outcome)
    ensures
        o@ == crate::server::commands::outcome(553, invalid_address(e), state),
{
    let mut text = "Email address invalid: ".to_owned();
    text.append(e.reason());
    Outcome { reply: Reply::with_text(553, text), state, next: Next::Command }
}

/// Looks at the argument of MAIL.
pub fn request(state: TransactionState, arg: &str) -> (r: Request)
    ensures
        r@ == spec_request(state, arg@),
{
    match unbracket(arg) {
        None => Request::Done(
            finish(501, "Invalid argument, format: '<email@example.com>'", state),
        ),
        Some(inner) => if inner.is_empty() {
            Request::Sender(None)
        } else {
            match Mailbox::parse(inner) {
                Ok(m) => Request::Sender(Some(m)),
                Err(e) => Request::Done(refuse_address(e, state)),
            }
        },
    }
}

/// The states in which a client may name the sender: once it has given its
/// own name.
pub open spec fn states() -> StateSet {
    StateSet::none().with(TransactionState::Helo)
}

/// Returns the MAIL command
pub fn get() -> (c: Command)
    ensures
        c@ == (CommandView {
            start: Some("MAIL FROM:"@),
            states: states(),
            handler: Some(Handler::Mail),
        }),
{
    let mut command = Command::new();
    command.starts_with("MAIL FROM:");
    command.allowed_in(StateSet::none().with(TransactionState::Helo));
    command.middleware(Handler::Mail);
    command
}

} // verus!
