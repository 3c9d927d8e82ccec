//! How far the mail transaction of a connection has come.

use vstd::prelude::*;

verus! {

/// The progress of a connection through a mail transaction.
#[derive(PartialEq, Eq, Clone, Copy, Debug, Structural)]
pub enum TransactionState {
    /// Nothing was said yet, or the last transaction is over.
    Init,
    /// The client has given its name.
    Helo,
    /// The sender is known.
    Mail,
    /// One recipient or more is known.
    Rcpt,
    /// The body of the message is coming in.
    Data,
}

/// A set of transaction states: those in which a command may run.
#[derive(PartialEq, Eq, Clone, Copy, Debug, Structural)]
pub struct StateSet {
    pub init: bool,
    pub helo: bool,
    pub mail: bool,
    pub rcpt: bool,
    pub data: bool,
}

impl StateSet {
    /// Whether the state is in the set.
    pub open spec fn spec_contains(self, state: TransactionState) -> bool {
        match state {
            TransactionState::Init => self.init,
            TransactionState::Helo => self.helo,
            TransactionState::Mail => self.mail,
            TransactionState::Rcpt => self.rcpt,
            TransactionState::Data => self.data,
        }
    }

    /// Whether the state is in the set.
    #[verifier::when_used_as_spec(spec_contains)]
    pub fn contains(self, state: TransactionState) -> (b: bool)
        ensures
            b == self.spec_contains(state),
    {
        match state {
            TransactionState::Init => self.init,
            TransactionState::Helo => self.helo,
            TransactionState::Mail => self.mail,
            TransactionState::Rcpt => self.rcpt,
            TransactionState::Data => self.data,
        }
    }

    /// The empty set.
    pub open spec fn spec_none() -> StateSet {
        StateSet { init: false, helo: false, mail: false, rcpt: false, data: false }
    }

    /// The empty set.
    #[verifier::when_used_as_spec(spec_none)]
    pub fn none() -> (s: StateSet)
        ensures
            s == Self::spec_none(),
    {
        StateSet { init: false, helo: false, mail: false, rcpt: false, data: false }
    }

    /// The set of all states.
    pub open spec fn spec_all() -> StateSet {
        StateSet { init: true, helo: true, mail: true, rcpt: true, data: true }
    }

    /// The set of all states.
    #[verifier::when_used_as_spec(spec_all)]
    pub fn all() -> (s: StateSet)
        ensures
            s == Self::spec_all(),
    {
        StateSet { init: true, helo: true, mail: true, rcpt: true, data: true }
    }

    /// The set with the state added.
    pub open spec fn spec_with(self, state: TransactionState) -> StateSet {
        match state {
            TransactionState::Init => StateSet { init: true, ..self },
            TransactionState::Helo => StateSet { helo: true, ..self },
            TransactionState::Mail => StateSet { mail: true, ..self },
            TransactionState::Rcpt => StateSet { rcpt: true, ..self },
            TransactionState::Data => StateSet { data: true, ..self },
        }
    }

    /// The set with the state added.
    #[verifier::when_used_as_spec(spec_with)]
    pub fn with(self, state: TransactionState) -> (s: StateSet)
        ensures
            s == self.spec_with(state),
    {
        let mut s = self;
        match state {
            TransactionState::Init => {
                s.init = true;
            },
            TransactionState::Helo => {
                s.helo = true;
            },
            TransactionState::Mail => {
                s.mail = true;
            },
            TransactionState::Rcpt => {
                s.rcpt = true;
            },
            TransactionState::Data => {
                s.data = true;
            },
        }
        s
    }
}

} // verus!
