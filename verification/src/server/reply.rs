//! The replies of a server: a three-digit code and a text.

use vstd::prelude::*;
use vstd::string::*;
use crate::text::{append_number, decimal_text};

verus! {

/// One reply line, without its line terminator.
#[derive(PartialEq, Eq, Clone, Debug)]
pub struct Reply {
    code: u16,
    text: String,
}

/// What a reply holds.
pub struct ReplyView {
    pub code: u16,
    pub text: Seq<char>,
}

impl View for Reply {
    type V = ReplyView;

    closed spec fn view(&self) -> ReplyView {
        ReplyView { code: self.code, text: self.text@ }
    }
}

/// The reply with the given code and text.
pub open spec fn reply(code: u16, text: Seq<char>) -> ReplyView {
    ReplyView { code, text }
}

/// The line that a reply is sent as: the code, a space and the text.
pub open spec fn reply_line(r: ReplyView) -> Seq<char> {
    decimal_text(r.code as nat) + seq![' '] + r.text
}

impl Reply {
    /// Makes a reply of a code and a text.
    pub fn new(code: u16, text: &str) -> (r: Reply)
        ensures
            r@ == reply(code, text@),
    {
        Reply { code, text: text.to_owned() }
    }

    /// Makes a reply of a code and a text that was put together.
    pub fn with_text(code: u16, text: String) -> (r: Reply)
        ensures
            r@ == reply(code, text@),
    {
        Reply { code, text }
    }

    /// The code of the reply.
    pub fn code(&self) -> (c: u16)
        ensures
            c == self@.code,
    {
        self.code
    }

    /// The text of the reply.
    pub fn text(&self) -> (t: &str)
        ensures
            t@ == self@.text,
    {
        self.text.as_str()
    }

    /// The line to send: the code, a space and the text.
    pub fn to_line(&self) -> (line: String)
        ensures
            line@ == reply_line(self@),
    {
        let mut line = String::new();
        append_number(&mut line, self.code as usize, false);
        line.append(" ");
        line.append(self.text.as_str());
        proof {
            reveal_strlit(" ");
            assert(" "@ =~= seq![' ']);
            assert(line@ =~= reply_line(self@));
        }
        line
    }
}

} // verus!
