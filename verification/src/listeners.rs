//! Verified in-memory listeners. They give the ledger's broadcast contract
//! concrete, fully checked implementations: a plain collector, a collector
//! with a refusal quota (to exercise the all-or-nothing push), and an
//! in-memory durable-log sink that holds the canonical encoded line of each
//! observed turn.

use vstd::prelude::*;
use vstd::string::StringExecFns;

use crate::codec::{encode_line, lemma_decode_encode, spec_decode_line, spec_encode_line};
use crate::ledger::{ChatMessageListener, SinkError};
use crate::turn::{ChatGptMessage, Role, TurnView};

verus! {

/// A listener that keeps every turn it observes in memory, in order.
#[derive(Debug)]
pub struct MemoryListener {
    turns: Vec<ChatGptMessage>,
}

impl MemoryListener {
    pub fn new() -> (r: MemoryListener)
        ensures
            r.observed() == Seq::<TurnView>::empty(),
    {
        MemoryListener { turns: Vec::new() }
    }

    /// The observed turns, oldest first.
    pub fn turns(&self) -> (r: &Vec<ChatGptMessage>)
        ensures
            r.deep_view() == self.observed(),
    {
        &self.turns
    }
}

impl ChatMessageListener for MemoryListener {
    closed spec fn observed(&self) -> Seq<TurnView> {
        self.turns.deep_view()
    }

    fn on_message(&mut self, message: &ChatGptMessage) -> (r: Result<(), SinkError>) {
        let ghost pre = self.turns.deep_view();
        self.turns.push(message.clone());
        proof {
            assert(self.turns.deep_view() =~= pre.push(message@));
        }
        Ok(())
    }
}

/// A listener that accepts only a fixed number of turns and refuses every
/// turn beyond that quota. It exercises the ledger's all-or-nothing push
/// without any file in play.
#[derive(Debug)]
pub struct QuotaListener {
    turns: Vec<ChatGptMessage>,
    quota: usize,
}

impl QuotaListener {
    /// How many turns the listener accepts in all.
    pub closed spec fn quota_of(&self) -> usize {
        self.quota
    }

    pub fn new(quota: usize) -> (r: QuotaListener)
        ensures
            r.observed() == Seq::<TurnView>::empty(),
            r.quota_of() == quota,
    {
        QuotaListener { turns: Vec::new(), quota }
    }

    /// The observed turns, oldest first.
    pub fn turns(&self) -> (r: &Vec<ChatGptMessage>)
        ensures
            r.deep_view() == self.observed(),
    {
        &self.turns
    }
}

impl ChatMessageListener for QuotaListener {
    closed spec fn observed(&self) -> Seq<TurnView> {
        self.turns.deep_view()
    }

    fn on_message(&mut self, message: &ChatGptMessage) -> (r: Result<(), SinkError>)
        ensures
            final(self).quota_of() == old(self).quota_of(),
            r is Ok <==> old(self).observed().len() < old(self).quota_of() as nat,
            r is Err ==> *final(self) == *old(self),
    {
        if self.turns.len() < self.quota {
            let ghost pre = self.turns.deep_view();
            self.turns.push(message.clone());
            proof {
                assert(self.turns.deep_view() =~= pre.push(message@));
            }
            Ok(())
        } else {
            Err(SinkError::new(String::from_str("listener quota exhausted")))
        }
    }
}

/// The turn a session-log line denotes; a line that does not decode (which
/// this module never writes) denotes an empty user turn.
pub open spec fn decoded_turn(l: Seq<char>) -> TurnView {
    match spec_decode_line(l) {
        Some(t) => t,
        None => TurnView { role: Role::User, content: Seq::empty() },
    }
}

/// An in-memory durable-log sink: it appends the canonical encoded line of
/// every observed turn, exactly as the file-backed session sink writes
/// them. Its lines always replay to exactly its observed turns.
#[derive(Debug)]
pub struct SessionBufferListener {
    lines: Vec<String>,
}

impl SessionBufferListener {
    pub fn new() -> (r: SessionBufferListener)
        ensures
            r.observed() == Seq::<TurnView>::empty(),
    {
        let r = SessionBufferListener { lines: Vec::new() };
        proof {
            assert(r.observed() =~= Seq::<TurnView>::empty());
        }
        r
    }

    /// The written lines, one per observed turn, in order; decoding them
    /// yields exactly the observed turns.
    pub fn lines(&self) -> (r: &Vec<String>)
        ensures
            r.deep_view().map_values(|l: Seq<char>| decoded_turn(l)) == self.observed(),
            r.deep_view().len() == self.observed().len(),
    {
        &self.lines
    }
}

impl ChatMessageListener for SessionBufferListener {
    closed spec fn observed(&self) -> Seq<TurnView> {
        self.lines.deep_view().map_values(|l: Seq<char>| decoded_turn(l))
    }

    fn on_message(&mut self, message: &ChatGptMessage) -> (r: Result<(), SinkError>) {
        let ghost pre = self.lines.deep_view();
        let line = encode_line(message);
        self.lines.push(line);
        proof {
            lemma_decode_encode(message@);
            assert(self.lines.deep_view() =~= pre.push(spec_encode_line(message@)));
            assert(self.observed() =~= old(self).observed().push(message@));
        }
        Ok(())
    }
}

} // verus!
