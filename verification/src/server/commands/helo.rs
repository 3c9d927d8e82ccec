//! The HELO and EHLO commands, by which a client gives its name.

use vstd::prelude::*;
use vstd::string::*;
use crate::grammar::{is_domain, Production};
use crate::server::commands::{done, finish, Request, RequestView};
use crate::server::state::{StateSet, TransactionState};
use crate::server::{Command, CommandView, Handler};
use crate::utils::is_instance;

verus! {

/// What the HELO and EHLO commands need of the event handler.
pub trait HeloHandler: Sized {
    /// Handles the domain that the client gives as its name. An error
    /// refuses the client. Unless an event handler has its own, this does
    /// nothing and accepts the client.
    fn handle_domain(&mut self, domain: &str) -> (verdict: Result<(), ()>)
        default_ensures
            verdict is Ok,
            *final(self) == *old(self),
    {
        Ok(())
    }
}

/// What HELO asks. Without a domain and with a text that is no domain it
/// ends with a `501`. A domain goes to the event handler.
pub open spec fn spec_request(state: TransactionState, arg: Seq<char>) -> RequestView {
    if arg.len() == 0 {
        done(501, "Domain name not provided"@, state)
    } else if !is_domain(arg) {
        done(501, "Domain name is invalid"@, state)
    } else {
        RequestView::Domain(arg)
    }
}

/// Looks at the argument of HELO or EHLO.
pub fn request(state: TransactionState, arg: &str) -> (r: Request)
    ensures
        r@ == spec_request(state, arg@),
{
    if arg.is_empty() {
        Request::Done(finish(501, "Domain name not provided", state))
    } else if !is_instance(Production::Domain, arg) {
        Request::Done(finish(501, "Domain name is invalid", state))
    } else {
        Request::Domain(arg.to_owned())
    }
}

/// The states in which a client may give its name: at the start only.
pub open spec fn states() -> StateSet {
    StateSet::none().with(TransactionState::Init)
}

/// Returns the HELO command
pub fn get() -> (c: Command)
    ensures
        c@ == (CommandView {
            start: Some("HELO "@),
            states: states(),
            handler: Some(Handler::Helo),
        }),
{
    let mut command = Command::new();
    command.starts_with("HELO ");
    command.allowed_in(StateSet::none().with(TransactionState::Init));
    command.middleware(Handler::Helo);
    command
}

/// Returns the EHLO command
pub fn get_ehlo() -> (c: Command)
    ensures
        c@ == (CommandView {
            start: Some("EHLO "@),
            states: states(),
            handler: Some(Handler::Helo),
        }),
{
    let mut command = Command::new();
    command.starts_with("EHLO ");
    command.allowed_in(StateSet::none().with(TransactionState::Init));
    command.middleware(Handler::Helo);
    command
}

} // verus!
