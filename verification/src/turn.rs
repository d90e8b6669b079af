use vstd::prelude::*;

verus! {

/// The speaker of a turn: a fixed, closed set. Unknown role values must fail
/// decoding of the durable log rather than defaulting.
#[derive(Clone, Copy, PartialEq, Eq, Structural, Debug)]
pub enum Role {
    Assistant,
    System,
    User,
}

/// Mathematical value of one conversation turn: a role plus the text content.
pub struct TurnView {
    pub role: Role,
    pub content: Seq<char>,
}

/// One immutable message of the conversation. Created from user input or from
/// a completion reply, then only ever appended, never changed.
#[derive(Debug)]
pub struct ChatGptMessage {
    pub role: Role,
    pub content: String,
}

impl View for ChatGptMessage {
    type V = TurnView;

    open spec fn view(&self) -> TurnView {
        TurnView { role: self.role, content: self.content@ }
    }
}

impl DeepView for ChatGptMessage {
    type V = TurnView;

    open spec fn deep_view(&self) -> TurnView {
        self@
    }
}

impl Clone for ChatGptMessage {
    fn clone(&self) -> (r: Self)
        ensures
            r@ == self@,
    {
        ChatGptMessage { role: self.role, content: self.content.clone() }
    }
}

impl ChatGptMessage {
    /// Build a turn from its two fields.
    pub fn new(role: Role, content: String) -> (r: Self)
        ensures
            r@ == (TurnView { role, content: content@ }),
    {
        ChatGptMessage { role, content }
    }
}

} // verus!
