//! The driver: the control-flow state machine that sequences one
//! conversation. It is fed plain events (a line of input, the end of the
//! input stream, the completion port's choice list) and answers with the
//! next action for the surrounding process (call the port, show or print a
//! reply, stop), committing every turn to the ledger as it goes. Two modes
//! share the machine: the interactive line-by-line loop and the single
//! piped batch round trip.

use vstd::prelude::*;

use crate::ledger::{all_observed, broadcast_stopped_at, ChatMessageListener, ChatMessages, SinkError};
use crate::turn::{ChatGptMessage, Role, TurnView};

verus! {

/// How the driver was started: an interactive terminal session, or one
/// batch round trip over piped input.
#[derive(Clone, Copy, PartialEq, Eq, Structural, Debug)]
pub enum DriverMode {
    Interactive,
    Batch,
}

/// Where the driver stands in its conversation cycle.
#[derive(Clone, Copy, PartialEq, Eq, Structural, Debug)]
pub enum DriverState {
    WaitingForInput,
    AwaitingReply,
    Closed,
}

/// What the surrounding process feeds the driver: user text (one line, or in
/// batch mode the whole input), the end of the input stream, or the
/// completion port's choice list. A port failure aborts the driver before
/// any event is made of it, so no event carries one.
pub enum DriverEvent {
    Line(String),
    EndOfInput,
    Reply(Vec<ChatGptMessage>),
}

/// What the driver asks the surrounding process to do next: invoke the
/// completion port with the ledger's full history, show a reply and read
/// further input, print the batch reply, or stop.
#[derive(Debug)]
pub enum DriverAction {
    Complete,
    Show(String),
    Emit(String),
    Finish,
}

/// Which events a driver state accepts: text or end of input while waiting
/// for input, a non-empty choice list while awaiting the reply, and nothing
/// once closed.
pub open spec fn accepts(state: DriverState, event: &DriverEvent) -> bool {
    match state {
        DriverState::WaitingForInput => event is Line || event is EndOfInput,
        DriverState::AwaitingReply => event matches DriverEvent::Reply(choices)
            && choices@.len() > 0,
        DriverState::Closed => false,
    }
}

/// The turn an event commits: a user turn made of the event's text, or the
/// last choice of the completion port's list - never the first, by the
/// callers' agreed tie-break rule.
pub open spec fn event_turn(event: &DriverEvent) -> TurnView {
    match event {
        DriverEvent::Line(text) => TurnView { role: Role::User, content: text@ },
        DriverEvent::Reply(choices) => choices@.last()@,
        DriverEvent::EndOfInput => TurnView { role: Role::User, content: Seq::empty() },
    }
}

/// The conversation driver.
pub struct Driver {
    pub mode: DriverMode,
    pub state: DriverState,
}

impl Driver {
    /// A driver in the given mode, about to read its first input.
    pub fn new(mode: DriverMode) -> (r: Driver)
        ensures
            r.mode == mode,
            r.state == DriverState::WaitingForInput,
    {
        Driver { mode, state: DriverState::WaitingForInput }
    }

    /// Whether the conversation is over.
    pub fn done(&self) -> (b: bool)
        ensures
            b == (self.state == DriverState::Closed),
    {
        match self.state {
            DriverState::Closed => true,
            _ => false,
        }
    }

    /// Advance the conversation by one event.
    ///
    /// End of input closes the driver without touching the ledger and
    /// without a completion-port call. A line of text commits a user turn
    /// and asks for the port to be called on the full history. A reply
    /// commits the last choice of the port's list and hands its content
    /// back: to be shown before the next line in interactive mode, to be
    /// printed as the final answer in batch mode. A push failure aborts the
    /// driver with the ledger's history unchanged.
    pub fn step<L: ChatMessageListener>(
        &mut self,
        ledger: &mut ChatMessages<L>,
        event: DriverEvent,
    ) -> (r: Result<DriverAction, SinkError>)
        requires
            accepts(old(self).state, &event),
        ensures
            final(self).mode == old(self).mode,
            final(ledger).sinks().len() == old(ledger).sinks().len(),
            match r {
                Ok(action) => match event {
                    DriverEvent::EndOfInput => {
                        &&& final(self).state == DriverState::Closed
                        &&& action == DriverAction::Finish
                        &&& *final(ledger) == *old(ledger)
                    },
                    DriverEvent::Line(text) => {
                        &&& final(self).state == DriverState::AwaitingReply
                        &&& action == DriverAction::Complete
                        &&& final(ledger).turns() == old(ledger).turns().push(
                            TurnView { role: Role::User, content: text@ },
                        )
                        &&& all_observed(
                            old(ledger).sinks(),
                            final(ledger).sinks(),
                            TurnView { role: Role::User, content: text@ },
                        )
                    },
                    DriverEvent::Reply(choices) => {
                        &&& final(ledger).turns() == old(ledger).turns().push(choices@.last()@)
                        &&& all_observed(old(ledger).sinks(), final(ledger).sinks(), choices@.last()@)
                        &&& old(self).mode == DriverMode::Interactive ==> {
                            &&& final(self).state == DriverState::WaitingForInput
                            &&& action matches DriverAction::Show(shown) && shown@
                                == choices@.last()@.content
                        }
                        &&& old(self).mode == DriverMode::Batch ==> {
                            &&& final(self).state == DriverState::Closed
                            &&& action matches DriverAction::Emit(shown) && shown@
                                == choices@.last()@.content
                        }
                    },
                },
                Err(_) => {
                    &&& *final(self) == *old(self)
                    &&& !(event is EndOfInput)
                    &&& final(ledger).turns() == old(ledger).turns()
                    &&& exists|k: int|
                        #[trigger] broadcast_stopped_at(
                            old(ledger).sinks(),
                            final(ledger).sinks(),
                            event_turn(&event),
                            k,
                        )
                },
            },
    {
        match event {
            DriverEvent::EndOfInput => {
                self.state = DriverState::Closed;
                Ok(DriverAction::Finish)
            },
            DriverEvent::Line(text) => {
                let m = ChatGptMessage::new(Role::User, text);
                match ledger.push(m) {
                    Ok(()) => {
                        self.state = DriverState::AwaitingReply;
                        Ok(DriverAction::Complete)
                    },
                    Err(e) => Err(e),
                }
            },
            DriverEvent::Reply(choices) => {
                let last = choices[choices.len() - 1].clone();
                let shown = last.content.clone();
                match ledger.push(last) {
                    Ok(()) => match self.mode {
                        DriverMode::Interactive => {
                            self.state = DriverState::WaitingForInput;
                            Ok(DriverAction::Show(shown))
                        },
                        DriverMode::Batch => {
                            self.state = DriverState::Closed;
                            Ok(DriverAction::Emit(shown))
                        },
                    },
                    Err(e) => Err(e),
                }
            },
        }
    }
}

} // verus!
