//! Core SMTP commands.
//!
//! A command first says what it asks: it has its reply at once, or it has
//! something for the event handler to decide on. Once the event handler has
//! decided, the command concludes with its reply.

use vstd::prelude::*;
use vstd::string::*;
use crate::common::mailbox::{Mailbox, MailboxView};
use crate::server::reply::{reply, Reply, ReplyView};
use crate::server::state::TransactionState;
use crate::server::{Command, CommandView, Handler};

/// The DATA command.
pub mod data;
/// The HELO & EHLO commands.
pub mod helo;
/// The MAIL command.
pub mod mail;
/// The RCPT command.
pub mod rcpt;
/// The commands that need no event handler: RSET, VRFY, EXPN, HELP, NOOP
/// and QUIT.
pub mod simple;

verus! {

/// What a connection does once it has sent a reply.
#[derive(PartialEq, Eq, Clone, Copy, Debug, Structural)]
pub enum Next {
    /// It reads the next command.
    Command,
    /// It reads the body of a message.
    Body,
    /// It closes.
    Close,
}

/// How a command ends: the reply to send, the state of the transaction
/// from then on, and what the connection does next.
#[derive(PartialEq, Eq, Clone, Debug)]
pub struct Outcome {
    pub reply: Reply,
    pub state: TransactionState,
    pub next: Next,
}

/// What an outcome holds.
pub struct OutcomeView {
    pub reply: ReplyView,
    pub state: TransactionState,
    pub next: Next,
}

impl View for Outcome {
    type V = OutcomeView;

    open spec fn view(&self) -> OutcomeView {
        OutcomeView { reply: self.reply@, state: self.state, next: self.next }
    }
}

/// The outcome with the given reply, after which the connection reads the
/// next command.
pub open spec fn outcome(code: u16, text: Seq<char>, state: TransactionState) -> OutcomeView {
    OutcomeView { reply: reply(code, text), state, next: Next::Command }
}

/// What a command asks once it has looked at its argument.
#[derive(PartialEq, Eq, Clone, Debug)]
pub enum Request {
    /// Nothing: this is how it ends.
    Done(Outcome),
    /// Whether the event handler takes this domain as the name of the client.
    Domain(String),
    /// Whether the event handler takes this sender, or the null sender.
    Sender(Option<Mailbox>),
    /// Whether the event handler takes this recipient.
    Recipient(Mailbox),
}

/// What a request holds.
pub enum RequestView {
    Done(OutcomeView),
    Domain(Seq<char>),
    Sender(Option<MailboxView>),
    Recipient(MailboxView),
}

impl View for Request {
    type V = RequestView;

    open spec fn view(&self) -> RequestView {
        match self {
            Request::Done(o) => RequestView::Done(o@),
            Request::Domain(d) => RequestView::Domain(d@),
            Request::Sender(Some(m)) => RequestView::Sender(Some(m@)),
            Request::Sender(None) => RequestView::Sender(None),
            Request::Recipient(m) => RequestView::Recipient(m@),
        }
    }
}

/// The request that ends a command with the given reply, the state
/// unchanged.
pub open spec fn done(code: u16, text: Seq<char>, state: TransactionState) -> RequestView {
    RequestView::Done(outcome(code, text, state))
}

/// Ends a command with the given reply, after which the connection reads the
/// next command.
pub fn finish(code: u16, text: &str, state: TransactionState) -> (o: Outcome)
    ensures
        o@ == outcome(code, text@, state),
{
    Outcome { reply: Reply::new(code, text), state, next: Next::Command }
}

/// What the event handler was asked to decide on.
#[derive(PartialEq, Eq, Clone, Copy, Debug, Structural)]
pub enum Asked {
    Domain,
    Sender,
    Recipient,
}

impl RequestView {
    /// What the request asks the event handler, if anything.
    pub open spec fn asked(self) -> Option<Asked> {
        match self {
            RequestView::Done(_) => None,
            RequestView::Domain(_) => Some(Asked::Domain),
            RequestView::Sender(_) => Some(Asked::Sender),
            RequestView::Recipient(_) => Some(Asked::Recipient),
        }
    }
}

/// How a command ends once the event handler has decided. If it accepted,
/// the reply is `250 OK` and the transaction moves on: to `Helo` with the name
/// of the client, to `Mail` with the sender, to `Rcpt` with a recipient. If it
/// refused, the reply is a `550` and the state stays as it was.
pub open spec fn spec_conclude(
    asked: Asked,
    accepted: bool,
    state: TransactionState,
) -> OutcomeView {
    match asked {
        Asked::Domain => if accepted {
            outcome(250, "OK"@, TransactionState::Helo)
        } else {
            outcome(550, "Domain not taken"@, state)
        },
        Asked::Sender => if accepted {
            outcome(250, "OK"@, TransactionState::Mail)
        } else {
            outcome(550, "Mail not taken"@, state)
        },
        Asked::Recipient => if accepted {
            outcome(250, "OK"@, TransactionState::Rcpt)
        } else {
            outcome(550, "Mail not available"@, state)
        },
    }
}

/// Ends a command with what the event handler has decided.
pub fn conclude(asked: Asked, verdict: Result<(), ()>, state: TransactionState) -> (o: Outcome)
    ensures
        o@ == spec_conclude(asked, verdict is Ok, state),
{
    let accepted = verdict.is_ok();
    match asked {
        Asked::Domain => if accepted {
            finish(250, "OK", TransactionState::Helo)
        } else {
            finish(550, "Domain not taken", state)
        },
        Asked::Sender => if accepted {
            finish(250, "OK", TransactionState::Mail)
        } else {
            finish(550, "Mail not taken", state)
        },
        Asked::Recipient => if accepted {
            finish(250, "OK", TransactionState::Rcpt)
        } else {
            finish(550, "Mail not available", state)
        },
    }
}

/// The commands of this library, in the order in which a server looks them
/// up: HELO, EHLO, MAIL, RCPT, DATA, RSET, VRFY, EXPN, HELP, NOOP and QUIT.
pub open spec fn spec_defaults() -> Seq<CommandView> {
    seq![
        CommandView {
            start: Some("HELO "@),
            states: helo::states(),
            handler: Some(Handler::Helo),
        },
        CommandView {
            start: Some("EHLO "@),
            states: helo::states(),
            handler: Some(Handler::Helo),
        },
        CommandView {
            start: Some("MAIL FROM:"@),
            states: mail::states(),
            handler: Some(Handler::Mail),
        },
        CommandView {
            start: Some("RCPT TO:"@),
            states: rcpt::states(),
            handler: Some(Handler::Rcpt),
        },
        CommandView { start: Some("DATA"@), states: data::states(), handler: Some(Handler::Data) },
        simple::anytime("RSET"@, Handler::Rset),
        simple::anytime("VRFY"@, Handler::Vrfy),
        simple::anytime("EXPN"@, Handler::Expn),
        simple::anytime("HELP"@, Handler::Help),
        simple::anytime("NOOP"@, Handler::Noop),
        simple::anytime("QUIT"@, Handler::Quit),
    ]
}

/// What the commands of a table hold.
pub open spec fn views(commands: Seq<Command>) -> Seq<CommandView> {
    Seq::new(commands.len(), |i: int| commands[i]@)
}

/// Returns the commands of this library, in the order in which a server
/// looks them up.
pub fn defaults() -> (v: Vec<Command>)
    ensures
        views(v@) == spec_defaults(),
{
    let mut v: Vec<Command> = Vec::new();
    v.push(helo::get());
    v.push(helo::get_ehlo());
    v.push(mail::get());
    v.push(rcpt::get());
    v.push(data::get());
    v.push(simple::get_rset());
    v.push(simple::get_vrfy());
    v.push(simple::get_expn());
    v.push(simple::get_help());
    v.push(simple::get_noop());
    v.push(simple::get_quit());
    assert(views(v@) =~= spec_defaults());
    v
}

} // verus!
