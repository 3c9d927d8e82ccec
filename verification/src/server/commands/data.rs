//! The DATA command, by which a client sends the body of a message, and the
//! transfer of the body line by line.

use vstd::prelude::*;
use vstd::string::*;
use crate::server::commands::{finish, outcome, Next, Outcome, OutcomeView};
use crate::server::reply::{reply, Reply};
use crate::server::state::{StateSet, TransactionState};
use crate::server::{Command, CommandView, Handler};
use crate::text::{append_number, decimal_text};

verus! {

/// What the DATA command needs of the event handler. An error from any of
/// these aborts the connection. Unless an event handler has its own, each of
/// them does nothing and lets the transfer go on.
pub trait DataHandler: Sized {
    /// The body of a message begins.
    fn handle_body_start(&mut self) -> (verdict: Result<(), ()>)
        default_ensures
            verdict is Ok,
            *final(self) == *old(self),
    {
        Ok(())
    }

    /// One line of the body came in.
    fn handle_body_part(&mut self, part: &[u8]) -> (verdict: Result<(), ()>)
        default_ensures
            verdict is Ok,
            *final(self) == *old(self),
    {
        Ok(())
    }

    /// The body of the message is complete.
    fn handle_body_end(&mut self) -> (verdict: Result<(), ()>)
        default_ensures
            verdict is Ok,
            *final(self) == *old(self),
    {
        Ok(())
    }
}

/// How DATA ends: without an argument the body of the message follows, with
/// an argument nothing changes.
pub open spec fn spec_start(state: TransactionState, arg: Seq<char>) -> OutcomeView {
    if arg.len() == 0 {
        OutcomeView {
            reply: reply(354, "Start mail input; end with <CRLF>.<CRLF>"@),
            state: TransactionState::Data,
            next: Next::Body,
        }
    } else {
        outcome(501, "No arguments allowed"@, state)
    }
}

/// Runs DATA.
pub fn start(state: TransactionState, arg: &str) -> (o: Outcome)
    ensures
        o@ == spec_start(state, arg@),
{
    if arg.is_empty() {
        Outcome {
            reply: Reply::new(354, "Start mail input; end with <CRLF>.<CRLF>"),
            state: TransactionState::Data,
            next: Next::Body,
        }
    } else {
        finish(501, "No arguments allowed", state)
    }
}

/// The states in which a client may send the body: once a recipient is
/// known.
pub open spec fn states() -> StateSet {
    StateSet::none().with(TransactionState::Rcpt)
}

/// Returns the DATA command
pub fn get() -> (c: Command)
    ensures
        c@ == (CommandView {
            start: Some("DATA"@),
            states: states(),
            handler: Some(Handler::Data),
        }),
{
    let mut command = Command::new();
    command.starts_with("DATA");
    command.allowed_in(StateSet::none().with(TransactionState::Rcpt));
    command.middleware(Handler::Data);
    command
}

/// How far the transfer of a body has come.
#[derive(PartialEq, Eq, Clone, Copy, Debug, Structural)]
pub struct Body {
    /// The bytes of the lines taken so far.
    pub size: usize,
    /// Whether a line was taken yet.
    pub started: bool,
    /// The state of the transaction before the transfer.
    pub resume: TransactionState,
}

/// What follows a line of the body.
#[derive(PartialEq, Eq, Clone, Debug)]
pub enum BodyStep {
    /// The next line of the body.
    More,
    /// A reply, after which the connection reads commands again.
    Done(Outcome),
    /// Nothing: the connection is aborted.
    Close,
}

/// What a step holds.
pub enum BodyStepView {
    More,
    Done(OutcomeView),
    Close,
}

impl View for BodyStep {
    type V = BodyStepView;

    open spec fn view(&self) -> BodyStepView {
        match self {
            BodyStep::More => BodyStepView::More,
            BodyStep::Done(o) => BodyStepView::Done(o@),
            BodyStep::Close => BodyStepView::Close,
        }
    }
}

/// The transfer at its start.
pub open spec fn fresh(resume: TransactionState) -> Body {
    Body { size: 0, started: false, resume }
}

/// The line ends the body: it is a single dot, and not the first line.
pub open spec fn is_end(body: Body, line: Seq<u8>) -> bool {
    body.started && line == seq![46u8]
}

/// With this line the body is larger than it may be.
pub open spec fn is_too_large(body: Body, line: Seq<u8>, max: usize) -> bool {
    body.size + line.len() > max
}

/// The text of the reply to a body that is too large.
pub open spec fn too_much_data(max: usize) -> Seq<char> {
    "Too much mail data, max "@ + decimal_text(max as nat) + " bytes"@
}

/// What follows a line of the body, where the event handler took it. The
/// line that ends the body completes the transaction, which starts anew. A
/// line that makes the body too large ends the transfer, and the transaction
/// is where it was before. Any other line is counted.
pub open spec fn spec_taken(body: Body, line: Seq<u8>, max: usize) -> (Body, BodyStepView) {
    if is_end(body, line) {
        (body, BodyStepView::Done(outcome(250, "OK"@, TransactionState::Init)))
    } else if is_too_large(body, line, max) {
        (body, BodyStepView::Done(outcome(552, too_much_data(max), body.resume)))
    } else {
        (
            Body { size: (body.size + line.len()) as usize, started: true, resume: body.resume },
            BodyStepView::More,
        )
    }
}

impl Body {
    /// The transfer at its start.
    pub fn new(resume: TransactionState) -> (b: Body)
        ensures
            b == fresh(resume),
    {
        Body { size: 0, started: false, resume }
    }

    /// Whether the line ends the body.
    pub fn ends_with(&self, line: &[u8]) -> (b: bool)
        ensures
            b == is_end(*self, line@),
    {
        let b = self.started && line.len() == 1 && line[0] == 46;
        proof {
            if b {
                assert(line@ =~= seq![46u8]);
            }
        }
        b
    }

    /// Takes a line that the event handler took: says what follows it, and
    /// counts it.
    pub fn take(&mut self, line: &[u8], max: usize) -> (step: BodyStep)
        ensures
            (*final(self), step@) == spec_taken(*old(self), line@, max),
    {
        if self.ends_with(line) {
            BodyStep::Done(finish(250, "OK", TransactionState::Init))
        } else if self.size > max || line.len() > max - self.size {
            let mut text = "Too much mail data, max ".to_owned();
            append_number(&mut text, max, false);
            text.append(" bytes");
            BodyStep::Done(
                Outcome {
                    reply: Reply::with_text(552, text),
                    state: self.resume,
                    next: Next::Command,
                },
            )
        } else {
            self.size = self.size + line.len();
            self.started = true;
            BodyStep::More
        }
    }
}

/// What follows the start of a body: the transfer goes on if the event
/// handler accepts, and the connection closes if not.
pub open spec fn spec_begun(accepted: bool) -> BodyStepView {
    if accepted {
        BodyStepView::More
    } else {
        BodyStepView::Close
    }
}

/// What follows a line of the body. If the event handler accepts it, the
/// line is taken. If not, the connection closes and nothing is counted.
pub open spec fn spec_fed(body: Body, accepted: bool, line: Seq<u8>, max: usize) -> (
    Body,
    BodyStepView,
) {
    if accepted {
        spec_taken(body, line, max)
    } else {
        (body, BodyStepView::Close)
    }
}

/// Tells the event handler that a body begins. The transfer goes on if the
/// event handler accepts, and the connection closes if not.
pub fn begin<H: DataHandler>(handler: &mut H) -> (step: BodyStep)
    ensures
        exists|h: &mut H, verdict: Result<(), ()>|
            *h == *old(handler) && *final(h) == *final(handler) && #[trigger] call_ensures(
                H::handle_body_start,
                (h,),
                verdict,
            ) && step@ == spec_begun(verdict is Ok),
{
    match handler.handle_body_start() {
        Ok(_) => BodyStep::More,
        Err(_) => BodyStep::Close,
    }
}

/// Hands a line of the body to the event handler, and says what follows.
/// The line that ends the body is announced as the end, any other line is
/// handed over as a part. If the event handler accepts, the line is taken.
/// If it aborts, the connection closes and nothing is counted.
pub fn feed<H: DataHandler>(body: &mut Body, handler: &mut H, line: &[u8], max: usize) -> (step:
    BodyStep)
    ensures
        is_end(*old(body), line@) ==> exists|h: &mut H, verdict: Result<(), ()>|
            *h == *old(handler) && *final(h) == *final(handler) && #[trigger] call_ensures(
                H::handle_body_end,
                (h,),
                verdict,
            ) && (*final(body), step@) == spec_fed(*old(body), verdict is Ok, line@, max),
        !is_end(*old(body), line@) ==> exists|h: &mut H, verdict: Result<(), ()>|
            *h == *old(handler) && *final(h) == *final(handler) && #[trigger] call_ensures(
                H::handle_body_part,
                (h, line),
                verdict,
            ) && (*final(body), step@) == spec_fed(*old(body), verdict is Ok, line@, max),
{
    let verdict = if body.ends_with(line) {
        handler.handle_body_end()
    } else {
        handler.handle_body_part(line)
    };
    match verdict {
        Ok(_) => body.take(line, max),
        Err(_) => BodyStep::Close,
    }
}

} // verus!
