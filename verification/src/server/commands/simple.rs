//! The commands that need no event handler: RSET, VRFY, EXPN, HELP, NOOP
//! and QUIT.

use vstd::prelude::*;
use vstd::string::*;
use crate::server::commands::{finish, outcome, Next, Outcome, OutcomeView};
use crate::server::reply::{reply, Reply};
use crate::server::state::{StateSet, TransactionState};
use crate::server::{Command, CommandView, Handler};

verus! {

/// The argument is empty or begins with a space.
pub open spec fn is_blank(arg: Seq<char>) -> bool {
    arg.len() == 0 || arg[0] == ' '
}

/// Tells whether the argument is empty or begins with a space.
pub fn blank(arg: &str) -> (b: bool)
    ensures
        b == is_blank(arg@),
{
    arg.is_empty() || arg.get_char(0) == ' '
}

/// How RSET ends: without an argument the transaction starts anew, with an
/// argument nothing changes.
pub open spec fn spec_rset(state: TransactionState, arg: Seq<char>) -> OutcomeView {
    if arg.len() == 0 {
        outcome(250, "OK"@, TransactionState::Init)
    } else {
        outcome(501, "No arguments allowed"@, state)
    }
}

/// Runs RSET.
pub fn rset(state: TransactionState, arg: &str) -> (o: Outcome)
    ensures
        o@ == spec_rset(state, arg@),
{
    if arg.is_empty() {
        finish(250, "OK", TransactionState::Init)
    } else {
        finish(501, "No arguments allowed", state)
    }
}

/// How VRFY ends: no user is ever verified.
pub open spec fn spec_vrfy(state: TransactionState) -> OutcomeView {
    outcome(252, "Cannot VRFY user"@, state)
}

/// Runs VRFY.
pub fn vrfy(state: TransactionState) -> (o: Outcome)
    ensures
        o@ == spec_vrfy(state),
{
    finish(252, "Cannot VRFY user", state)
}

/// How EXPN ends: no mailing list is ever expanded.
pub open spec fn spec_expn(state: TransactionState) -> OutcomeView {
    outcome(252, "Cannot EXPN mailing list"@, state)
}

/// Runs EXPN.
pub fn expn(state: TransactionState) -> (o: Outcome)
    ensures
        o@ == spec_expn(state),
{
    finish(252, "Cannot EXPN mailing list", state)
}

/// How HELP ends: there is no help, and with anything but a space behind it
/// the line was no HELP command.
pub open spec fn spec_help(state: TransactionState, arg: Seq<char>) -> OutcomeView {
    if is_blank(arg) {
        outcome(502, "Command not implemented"@, state)
    } else {
        outcome(500, "Command unrecognized"@, state)
    }
}

/// Runs HELP.
pub fn help(state: TransactionState, arg: &str) -> (o: Outcome)
    ensures
        o@ == spec_help(state, arg@),
{
    if blank(arg) {
        finish(502, "Command not implemented", state)
    } else {
        finish(500, "Command unrecognized", state)
    }
}

/// How NOOP ends: well, and with anything but a space behind it the line was
/// no NOOP command.
pub open spec fn spec_noop(state: TransactionState, arg: Seq<char>) -> OutcomeView {
    if is_blank(arg) {
        outcome(250, "OK"@, state)
    } else {
        outcome(500, "Command unrecognized"@, state)
    }
}

/// Runs NOOP.
pub fn noop(state: TransactionState, arg: &str) -> (o: Outcome)
    ensures
        o@ == spec_noop(state, arg@),
{
    if blank(arg) {
        finish(250, "OK", state)
    } else {
        finish(500, "Command unrecognized", state)
    }
}

/// How QUIT ends: the server gives its name and the connection closes.
pub open spec fn spec_quit(state: TransactionState, hostname: Seq<char>) -> OutcomeView {
    OutcomeView { reply: reply(221, hostname), state, next: Next::Close }
}

/// Runs QUIT.
pub fn quit(state: TransactionState, hostname: &str) -> (o: Outcome)
    ensures
        o@ == spec_quit(state, hostname@),
{
    Outcome { reply: Reply::new(221, hostname), state, next: Next::Close }
}

/// The command with the given start string and handler, which may run in
/// every state.
pub open spec fn anytime(start: Seq<char>, handler: Handler) -> CommandView {
    CommandView { start: Some(start), states: StateSet::all(), handler: Some(handler) }
}

/// Makes a command that may run in every state.
pub fn get(start: &str, handler: Handler) -> (c: Command)
    ensures
        c@ == anytime(start@, handler),
{
    let mut command = Command::new();
    command.starts_with(start);
    command.middleware(handler);
    command
}

/// Returns the RSET command
pub fn get_rset() -> (c: Command)
    ensures
        c@ == anytime("RSET"@, Handler::Rset),
{
    get("RSET", Handler::Rset)
}

/// Returns the VRFY command
pub fn get_vrfy() -> (c: Command)
    ensures
        c@ == anytime("VRFY"@, Handler::Vrfy),
{
    get("VRFY", Handler::Vrfy)
}

/// Returns the EXPN command
pub fn get_expn() -> (c: Command)
    ensures
        c@ == anytime("EXPN"@, Handler::Expn),
{
    get("EXPN", Handler::Expn)
}

/// Returns the HELP command
pub fn get_help() -> (c: Command)
    ensures
        c@ == anytime("HELP"@, Handler::Help),
{
    get("HELP", Handler::Help)
}

/// Returns the NOOP command
pub fn get_noop() -> (c: Command)
    ensures
        c@ == anytime("NOOP"@, Handler::Noop),
{
    get("NOOP", Handler::Noop)
}

/// Returns the QUIT command
pub fn get_quit() -> (c: Command)
    ensures
        c@ == anytime("QUIT"@, Handler::Quit),
{
    get("QUIT", Handler::Quit)
}

} // verus!
