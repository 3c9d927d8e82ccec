//! The engine of a connection. For each line it finds the command in the
//! table of the server, checks that the command may run in the state of the
//! transaction, and runs its handler. While a body is transferred it takes
//! the lines of the body.

use vstd::prelude::*;
use vstd::string::*;
use crate::common::ip::IpAddr;
use crate::common::mailbox::{Mailbox, MailboxView};
use crate::server::commands::data::{
    begin, feed, fresh, is_end, spec_begun, spec_fed, spec_start, start, Body, BodyStep,
    BodyStepView, DataHandler,
};
use crate::server::commands::helo::HeloHandler;
use crate::server::commands::mail::MailHandler;
use crate::server::commands::rcpt::RcptHandler;
use crate::server::commands::simple::{
    expn, help, noop, quit, rset, spec_expn, spec_help, spec_noop, spec_quit, spec_rset,
    spec_vrfy, vrfy,
};
use crate::server::commands::{
    conclude, done, finish, helo, mail, outcome, rcpt, spec_conclude, spec_defaults, Asked, Next,
    Outcome, OutcomeView, Request, RequestView,
};
use crate::server::reply::{reply, Reply};
use crate::server::state::TransactionState;
use crate::server::{CommandView, Handler, ServerConfig, ServerConfigView};
use crate::text::{
    append_number, decimal_text, spec_starts_with_ignore_ascii_case,
    starts_with_ignore_ascii_case,
};

verus! {

/// The command is the one for this line: it has a start string and a
/// handler, and the line begins with the start string, but for the case of
/// ASCII letters.
pub open spec fn is_command_for(c: CommandView, line: Seq<char>) -> bool {
    c.ready() && spec_starts_with_ignore_ascii_case(line, c.start->0)
}

/// The position of the first command for this line at or behind `from`.
pub open spec fn spec_find_command(commands: Seq<CommandView>, line: Seq<char>, from: int) -> Option<
    int,
>
    decreases commands.len() - from,
{
    if from < 0 || from >= commands.len() {
        None
    } else if is_command_for(commands[from], line) {
        Some(from)
    } else {
        spec_find_command(commands, line, from + 1)
    }
}

/// The command found is for the line, and no command before it is.
pub proof fn lemma_find_command(commands: Seq<CommandView>, line: Seq<char>, from: int)
    requires
        0 <= from <= commands.len(),
    ensures
        match spec_find_command(commands, line, from) {
            Some(i) => from <= i < commands.len() && is_command_for(commands[i], line) && forall|
                j: int,
            |
                from <= j < i ==> !is_command_for(#[trigger] commands[j], line),
            None => forall|j: int|
                from <= j < commands.len() ==> !is_command_for(#[trigger] commands[j], line),
        },
    decreases commands.len() - from,
{
    if from < commands.len() && !is_command_for(commands[from], line) {
        lemma_find_command(commands, line, from + 1);
    }
}

/// What the handler asks for the argument of its command.
pub open spec fn spec_handle(
    handler: Handler,
    hostname: Seq<char>,
    state: TransactionState,
    arg: Seq<char>,
) -> RequestView {
    match handler {
        Handler::Helo => helo::spec_request(state, arg),
        Handler::Mail => mail::spec_request(state, arg),
        Handler::Rcpt => rcpt::spec_request(state, arg),
        Handler::Data => RequestView::Done(spec_start(state, arg)),
        Handler::Rset => RequestView::Done(spec_rset(state, arg)),
        Handler::Vrfy => RequestView::Done(spec_vrfy(state)),
        Handler::Expn => RequestView::Done(spec_expn(state)),
        Handler::Help => RequestView::Done(spec_help(state, arg)),
        Handler::Noop => RequestView::Done(spec_noop(state, arg)),
        Handler::Quit => RequestView::Done(spec_quit(state, hostname)),
    }
}

/// Runs the handler on the argument of its command.
pub fn handle(handler: Handler, hostname: &str, state: TransactionState, arg: &str) -> (r: Request)
    ensures
        r@ == spec_handle(handler, hostname@, state, arg@),
{
    match handler {
        Handler::Helo => helo::request(state, arg),
        Handler::Mail => mail::request(state, arg),
        Handler::Rcpt => rcpt::request(state, arg),
        Handler::Data => Request::Done(start(state, arg)),
        Handler::Rset => Request::Done(rset(state, arg)),
        Handler::Vrfy => Request::Done(vrfy(state)),
        Handler::Expn => Request::Done(expn(state)),
        Handler::Help => Request::Done(help(state, arg)),
        Handler::Noop => Request::Done(noop(state, arg)),
        Handler::Quit => Request::Done(quit(state, hostname)),
    }
}

/// What a line asks in the given state. The first command of the table whose
/// start string the line begins with is the command of the line. Without one
/// the reply is `500 Command unrecognized`. If the command may not run in the
/// state, the reply is `503 Bad sequence of commands`. Else its handler
/// gets what follows the start string. The state changes in no case but
/// through the handler.
pub open spec fn spec_request(
    config: ServerConfigView,
    state: TransactionState,
    line: Seq<char>,
) -> RequestView {
    match spec_find_command(config.commands, line, 0) {
        None => done(500, "Command unrecognized"@, state),
        Some(i) => {
            let c = config.commands[i];
            if !c.states.contains(state) {
                done(503, "Bad sequence of commands"@, state)
            } else {
                spec_handle(c.handler->0, config.hostname, state, line.skip(c.start->0.len() as int))
            }
        },
    }
}

/// Finds the command of a line in the table: its position, the length of
/// its start string, and its handler.
pub fn find_command(config: &ServerConfig, line: &str) -> (res: Option<(usize, usize, Handler)>)
    ensures
        match res {
            Some((i, n, handler)) => {
                &&& spec_find_command(config@.commands, line@, 0) == Some(i as int)
                &&& i < config@.commands.len()
                &&& n == config@.commands[i as int].start->0.len()
                &&& n <= line@.len()
                &&& config@.commands[i as int].handler == Some(handler)
            },
            None => spec_find_command(config@.commands, line@, 0) is None,
        },
{
    let count = config.command_count();
    let mut i: usize = 0;
    while i < count
        invariant
            count == config@.commands.len(),
            i <= count,
            spec_find_command(config@.commands, line@, 0) == spec_find_command(
                config@.commands,
                line@,
                i as int,
            ),
        decreases count - i,
    {
        let c = config.command(i);
        if let Some(handler) = c.handler() {
            if let Some(start) = c.start() {
                if let Some(n) = starts_with_ignore_ascii_case(line, start) {
                    return Some((i, n, handler));
                }
            }
        }
        i += 1;
    }
    None
}

/// Says what a line asks in the given state.
pub fn request(config: &ServerConfig, state: TransactionState, line: &str) -> (r: Request)
    ensures
        r@ == spec_request(config@, state, line@),
{
    match find_command(config, line) {
        None => Request::Done(finish(500, "Command unrecognized", state)),
        Some((i, n, handler)) => {
            if !config.command(i).states().contains(state) {
                Request::Done(finish(503, "Bad sequence of commands", state))
            } else {
                let arg = line.substring_char(n, line.unicode_len());
                assert(arg@ == line@.skip(n as int));
                handle(handler, config.hostname(), state, arg)
            }
        },
    }
}

/// What a sender holds: a mailbox, or nothing for the null sender.
pub open spec fn sender_view(sender: Option<Mailbox>) -> Option<MailboxView> {
    match sender {
        Some(m) => Some(m@),
        None => None,
    }
}

/// How a line ends in the given state, where the event handler decides as
/// given on what the line asks, if it asks anything.
pub open spec fn spec_outcome(
    config: ServerConfigView,
    state: TransactionState,
    line: Seq<char>,
    accepted: bool,
) -> OutcomeView {
    match spec_request(config, state, line) {
        RequestView::Done(o) => o,
        r => spec_conclude(r.asked()->0, accepted, state),
    }
}

/// The reply to a line that is longer than a line may be.
pub open spec fn spec_line_too_long(config: ServerConfigView, state: TransactionState) -> OutcomeView {
    outcome(
        500,
        "Command line too long, max "@ + decimal_text(config.max_line_size as nat) + " bytes"@,
        state,
    )
}

/// The greeting of a server: its name.
pub open spec fn spec_greeting(config: ServerConfigView) -> crate::server::reply::ReplyView {
    reply(220, config.hostname)
}

/// The greeting to send when a connection opens.
pub fn greeting(config: &ServerConfig) -> (r: Reply)
    ensures
        r@ == spec_greeting(config@),
{
    Reply::new(220, config.hostname())
}

/// What a server needs of the event handler when a connection opens.
pub trait ConnectionHandler: Sized {
    /// A client has connected from the given address and port. An error
    /// refuses the client. Unless an event handler has its own, this does
    /// nothing and accepts the client.
    fn handle_connection(&mut self, peer: IpAddr, port: u16) -> (verdict: Result<(), ()>)
        default_ensures
            verdict is Ok,
            *final(self) == *old(self),
    {
        Ok(())
    }
}

/// One connection: the state of its transaction, and how far the transfer of
/// a body has come.
#[derive(Clone, Debug)]
pub struct Session {
    state: TransactionState,
    body: Body,
}

impl Session {
    /// The state of the transaction.
    pub closed spec fn spec_state(&self) -> TransactionState {
        self.state
    }

    /// How far the transfer of a body has come.
    pub closed spec fn spec_body(&self) -> Body {
        self.body
    }

    /// A connection at its start.
    pub fn new() -> (s: Session)
        ensures
            s.spec_state() == TransactionState::Init,
            s.spec_body() == fresh(TransactionState::Init),
    {
        Session { state: TransactionState::Init, body: Body::new(TransactionState::Init) }
    }

    /// Opens a connection from the given address and port. The event handler
    /// is handed the address and the port. If it accepts the client, there is
    /// a connection at its start and the greeting to send. If it refuses,
    /// there is nothing.
    pub fn open<H: ConnectionHandler>(
        config: &ServerConfig,
        handler: &mut H,
        peer: IpAddr,
        port: u16,
    ) -> (res: Option<(Session, Reply)>)
        ensures
            exists|h: &mut H, verdict: Result<(), ()>|
                *h == *old(handler) && *final(h) == *final(handler) && #[trigger] call_ensures(
                    H::handle_connection,
                    (h, peer, port),
                    verdict,
                ) && match res {
                    Some((s, r)) => verdict is Ok && s.spec_state() == TransactionState::Init
                        && s.spec_body() == fresh(TransactionState::Init) && r@ == spec_greeting(
                        config@,
                    ),
                    None => verdict is Err,
                },
    {
        match handler.handle_connection(peer, port) {
            Ok(_) => Some((Session::new(), greeting(config))),
            Err(_) => None,
        }
    }

    /// The state of the transaction.
    pub fn state(&self) -> (s: TransactionState)
        ensures
            s == self.spec_state(),
    {
        self.state
    }

    /// How far the transfer of a body has come.
    pub fn body(&self) -> (b: Body)
        ensures
            b == self.spec_body(),
    {
        self.body
    }

    /// Takes the outcome of a command: the transaction is in its state from
    /// now on, and where a body follows its transfer starts.
    pub fn settle(&mut self, outcome: &Outcome)
        ensures
            final(self).spec_state() == outcome@.state,
            final(self).spec_body() == (if outcome@.next == Next::Body {
                fresh(old(self).spec_state())
            } else {
                old(self).spec_body()
            }),
    {
        if outcome.next == Next::Body {
            self.body = Body::new(self.state);
        }
        self.state = outcome.state;
    }

    /// Runs the command of a line. Where the command has something for the
    /// event handler to decide on, the event handler is handed exactly that:
    /// the domain, the sender or the recipient. The command ends with its
    /// verdict. Any other line ends as it asks, and the event handler is left
    /// as it was.
    pub fn dispatch<H: HeloHandler + MailHandler + RcptHandler>(
        &mut self,
        config: &ServerConfig,
        handler: &mut H,
        line: &str,
    ) -> (out: Outcome)
        ensures
            match spec_request(config@, old(self).spec_state(), line@) {
                RequestView::Done(o) => out@ == o && *final(handler) == *old(handler),
                RequestView::Domain(d) => exists|h: &mut H, domain: &str, verdict: Result<(), ()>|
                    *h == *old(handler) && *final(h) == *final(handler) && domain@ == d
                        && #[trigger] call_ensures(H::handle_domain, (h, domain), verdict) && out@
                        == spec_conclude(Asked::Domain, verdict is Ok, old(self).spec_state()),
                RequestView::Sender(v) => exists|
                    h: &mut H,
                    sender: Option<Mailbox>,
                    verdict: Result<(), ()>,
                |
                    *h == *old(handler) && *final(h) == *final(handler) && sender_view(sender)
                        == v && #[trigger] call_ensures(
                        H::handle_sender_address,
                        (h, sender),
                        verdict,
                    ) && out@ == spec_conclude(
                        Asked::Sender,
                        verdict is Ok,
                        old(self).spec_state(),
                    ),
                RequestView::Recipient(v) => exists|
                    h: &mut H,
                    recipient: Mailbox,
                    verdict: Result<(), ()>,
                |
                    *h == *old(handler) && *final(h) == *final(handler) && recipient@ == v
                        && #[trigger] call_ensures(
                        H::handle_receiver_address,
                        (h, recipient),
                        verdict,
                    ) && out@ == spec_conclude(
                        Asked::Recipient,
                        verdict is Ok,
                        old(self).spec_state(),
                    ),
            },
            out@ == spec_outcome(config@, old(self).spec_state(), line@, true) || out@
                == spec_outcome(config@, old(self).spec_state(), line@, false),
            final(self).spec_state() == out@.state,
            final(self).spec_body() == (if out@.next == Next::Body {
                fresh(old(self).spec_state())
            } else {
                old(self).spec_body()
            }),
    {
        let state = self.state;
        let out = match request(config, state, line) {
            Request::Done(o) => o,
            Request::Domain(d) => conclude(Asked::Domain, handler.handle_domain(d.as_str()), state),
            Request::Sender(m) => conclude(Asked::Sender, handler.handle_sender_address(m), state),
            Request::Recipient(m) => conclude(
                Asked::Recipient,
                handler.handle_receiver_address(m),
                state,
            ),
        };
        self.settle(&out);
        out
    }

    /// Answers a line that was longer than a line may be. Nothing changes.
    pub fn line_too_long(&self, config: &ServerConfig) -> (out: Outcome)
        ensures
            out@ == spec_line_too_long(config@, self.spec_state()),
    {
        let mut text = "Command line too long, max ".to_owned();
        append_number(&mut text, config.max_line_size(), false);
        text.append(" bytes");
        Outcome { reply: Reply::with_text(500, text), state: self.state, next: Next::Command }
    }

    /// Tells the event handler that a body begins, once the reply to DATA is
    /// sent. The transfer goes on if the event handler accepts, and the
    /// connection closes if not. The connection itself stays as it is.
    pub fn body_start<H: DataHandler>(&mut self, handler: &mut H) -> (step: BodyStep)
        ensures
            exists|h: &mut H, verdict: Result<(), ()>|
                *h == *old(handler) && *final(h) == *final(handler) && #[trigger] call_ensures(
                    H::handle_body_start,
                    (h,),
                    verdict,
                ) && step@ == spec_begun(verdict is Ok),
            final(self).spec_state() == old(self).spec_state(),
            final(self).spec_body() == old(self).spec_body(),
    {
        begin(handler)
    }

    /// Takes a line of the body. The event handler gets it first, and if it
    /// aborts, the connection closes and nothing changes. Else the line that
    /// ends the body completes the transaction with `250 OK`, and a line that
    /// makes the body larger than it may be ends the transfer with a `552`. The
    /// transaction is in the state of that outcome then. Any other line is
    /// counted, and the next line follows.
    pub fn body_line<H: DataHandler>(
        &mut self,
        config: &ServerConfig,
        handler: &mut H,
        line: &[u8],
    ) -> (step: BodyStep)
        ensures
            is_end(old(self).spec_body(), line@) ==> exists|h: &mut H, verdict: Result<(), ()>|
                *h == *old(handler) && *final(h) == *final(handler) && #[trigger] call_ensures(
                    H::handle_body_end,
                    (h,),
                    verdict,
                ) && (final(self).spec_body(), step@) == spec_fed(
                    old(self).spec_body(),
                    verdict is Ok,
                    line@,
                    config@.max_message_size,
                ),
            !is_end(old(self).spec_body(), line@) ==> exists|h: &mut H, verdict: Result<(), ()>|
                *h == *old(handler) && *final(h) == *final(handler) && #[trigger] call_ensures(
                    H::handle_body_part,
                    (h, line),
                    verdict,
                ) && (final(self).spec_body(), step@) == spec_fed(
                    old(self).spec_body(),
                    verdict is Ok,
                    line@,
                    config@.max_message_size,
                ),
            final(self).spec_state() == (match step@ {
                BodyStepView::Done(o) => o.state,
                _ => old(self).spec_state(),
            }),
    {
        let step = feed(&mut self.body, handler, line, config.max_message_size());
        if let BodyStep::Done(o) = &step {
            self.state = o.state;
        }
        step
    }
}

/// The transaction moves in one order. With the commands of this library
/// as the table of the server, no line moves it but as follows: from `Init`
/// to `Helo`, from `Helo` to `Mail`, from `Mail` and from `Rcpt` to `Rcpt`,
/// from `Rcpt` to `Data`, and from any state to `Init`. It is moved by the
/// command of that step alone, and but for `RSET` and `DATA` only if the
/// event handler accepts.
pub proof fn lemma_transitions(
    config: ServerConfigView,
    state: TransactionState,
    line: Seq<char>,
    accepted: bool,
)
    requires
        config.commands == spec_defaults(),
    ensures
        ({
            let after = spec_outcome(config, state, line, accepted).state;
            let found = spec_find_command(config.commands, line, 0);
            let handler = config.commands[found->0].handler->0;
            after != state ==> found is Some && match after {
                TransactionState::Init => handler == Handler::Rset,
                TransactionState::Helo => state == TransactionState::Init && handler
                    == Handler::Helo && accepted,
                TransactionState::Mail => state == TransactionState::Helo && handler
                    == Handler::Mail && accepted,
                TransactionState::Rcpt => (state == TransactionState::Mail || state
                    == TransactionState::Rcpt) && handler == Handler::Rcpt && accepted,
                TransactionState::Data => state == TransactionState::Rcpt && handler
                    == Handler::Data,
            }
        }),
{
    lemma_find_command(config.commands, line, 0);
}

/// A command that may not run in the state of the transaction is answered
/// with `503 Bad sequence of commands`, and a line without a command with
/// `500 Command unrecognized`. Neither changes the state, and neither reaches
/// the event handler.
pub proof fn lemma_refused(config: ServerConfigView, state: TransactionState, line: Seq<char>)
    ensures
        match spec_find_command(config.commands, line, 0) {
            None => spec_request(config, state, line) == done(
                500,
                "Command unrecognized"@,
                state,
            ),
            Some(i) => !config.commands[i].states.contains(state) ==> spec_request(
                config,
                state,
                line,
            ) == done(503, "Bad sequence of commands"@, state),
        },
{
}

} // verus!
