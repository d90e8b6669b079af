use vstd::prelude::*;

use crate::codec::{decode_line, prepend_loaded, spec_load, spec_load_from};
use crate::turn::{ChatGptMessage, TurnView};

verus! {

/// Failure reported by a listener that could not durably observe a turn.
#[derive(Debug)]
pub struct SinkError {
    pub detail: String,
}

impl SinkError {
    pub fn new(detail: String) -> (r: Self)
        ensures
            r.detail@ == detail@,
    {
        SinkError { detail }
    }
}

/// A capability that observes every turn as it is committed to the ledger
/// (a durable session log, a plain-text transcript, ...).
///
/// `observed()` is the listener's model: the turns it has observed so far,
/// oldest first. A successful `on_message` appends exactly the given turn to
/// that model; after a failure nothing is promised of the listener itself,
/// but the ledger will not commit the turn.
pub trait ChatMessageListener: Sized {
    open spec fn observed(&self) -> Seq<TurnView> {
        Seq::empty()
    }

    fn on_message(&mut self, message: &ChatGptMessage) -> (r: Result<(), SinkError>)
        ensures
            r is Ok ==> final(self).observed() == old(self).observed().push(message@),
    ;
}

/// Every listener of the list `post` (previously `pre`) observed turn `t`:
/// its observed sequence grew by exactly that turn.
pub open spec fn all_observed<L: ChatMessageListener>(pre: Seq<L>, post: Seq<L>, t: TurnView) -> bool {
    &&& post.len() == pre.len()
    &&& forall|i: int|
        0 <= i < post.len() ==> (#[trigger] post[i]).observed() == pre[i].observed().push(t)
}

/// The broadcast to the listener list `post` (previously `pre`) stopped at
/// listener `k`: the listeners before `k` observed turn `t`, listener `k`
/// refused it, and the listeners after `k` were not invoked at all.
pub open spec fn broadcast_stopped_at<L: ChatMessageListener>(
    pre: Seq<L>,
    post: Seq<L>,
    t: TurnView,
    k: int,
) -> bool {
    &&& 0 <= k < post.len()
    &&& forall|i: int|
        0 <= i < k ==> (#[trigger] post[i]).observed() == pre[i].observed().push(t)
    &&& forall|i: int| k < i < post.len() ==> #[trigger] post[i] == pre[i]
}

/// Failure to replay a session log: the index of the first line that would
/// not decode.
#[derive(Debug)]
pub struct LoadError {
    pub line: usize,
}

/// The conversation ledger: an ordered, append-only sequence of turns plus
/// the listeners it exclusively owns. A turn is committed to the in-memory
/// sequence only after every registered listener has observed it; if any
/// listener fails, the push fails and the sequence is left unchanged.
#[derive(Debug)]
pub struct ChatMessages<L> {
    messages: Vec<ChatGptMessage>,
    listeners: Vec<L>,
}

impl<L: ChatMessageListener> ChatMessages<L> {
    /// The full conversation history, in push order.
    pub closed spec fn turns(&self) -> Seq<TurnView> {
        self.messages.deep_view()
    }

    /// The registered listeners, in registration order.
    pub closed spec fn sinks(&self) -> Seq<L> {
        self.listeners@
    }

    /// An empty ledger with no listeners.
    pub fn new() -> (r: ChatMessages<L>)
        ensures
            r.turns() == Seq::<TurnView>::empty(),
            r.sinks() == Seq::<L>::empty(),
    {
        ChatMessages { messages: Vec::new(), listeners: Vec::new() }
    }

    /// Attach a listener; listeners are invoked in registration order and
    /// cannot be removed.
    pub fn register(&mut self, listener: L)
        ensures
            final(self).turns() == old(self).turns(),
            final(self).sinks() == old(self).sinks().push(listener),
    {
        self.listeners.push(listener);
    }

    /// Broadcast `message` to every listener in registration order, then
    /// append it to the history.
    ///
    /// On success the history grows by exactly this turn and every listener
    /// has observed it. On failure the history is unchanged: some listener
    /// `k` refused the turn, the listeners before `k` observed it (their
    /// files may already carry it - an accepted limitation), and the
    /// listeners after `k` were not invoked at all.
    pub fn push(&mut self, message: ChatGptMessage) -> (r: Result<(), SinkError>)
        ensures
            final(self).sinks().len() == old(self).sinks().len(),
            r is Ok ==> {
                &&& final(self).turns() == old(self).turns().push(message@)
                &&& all_observed(old(self).sinks(), final(self).sinks(), message@)
            },
            r is Err ==> {
                &&& final(self).turns() == old(self).turns()
                &&& exists|k: int|
                    #[trigger] broadcast_stopped_at(
                        old(self).sinks(),
                        final(self).sinks(),
                        message@,
                        k,
                    )
            },
    {
        let n = self.listeners.len();
        let mut idx: usize = 0;
        while idx < n
            invariant
                idx <= n,
                n == self.listeners@.len(),
                self.messages == old(self).messages,
                self.listeners@.len() == old(self).listeners@.len(),
                forall|i: int|
                    0 <= i < idx ==> (#[trigger] self.listeners@[i]).observed()
                        == old(self).listeners@[i].observed().push(message@),
                forall|i: int|
                    idx <= i < n ==> #[trigger] self.listeners@[i] == old(self).listeners@[i],
            decreases n - idx,
        {
            let r = self.listeners[idx].on_message(&message);
            if let Err(e) = r {
                proof {
                    assert(broadcast_stopped_at(
                        old(self).sinks(),
                        self.sinks(),
                        message@,
                        idx as int,
                    ));
                }
                return Err(e);
            }
            idx = idx + 1;
        }
        self.messages.push(message);
        Ok(())
    }

    /// Rebuild a ledger's starting history by replaying the lines of a
    /// durable session log, with no listeners attached yet. Strict: empty
    /// lines are skipped, and any other line that does not decode fails the
    /// whole load, reporting the first bad line.
    pub fn from_file(lines: &Vec<String>) -> (r: Result<ChatMessages<L>, LoadError>)
        ensures
            match r {
                Ok(lg) => {
                    &&& spec_load(lines.deep_view()) == Ok::<Seq<TurnView>, int>(lg.turns())
                    &&& lg.sinks().len() == 0
                },
                Err(e) => spec_load(lines.deep_view()) == Err::<Seq<TurnView>, int>(
                    e.line as int,
                ),
            },
    {
        let ghost lv = lines.deep_view();
        let n = lines.len();
        let mut msgs: Vec<ChatGptMessage> = Vec::new();
        let mut i: usize = 0;
        proof {
            assert(Seq::<TurnView>::empty() + msgs.deep_view() =~= msgs.deep_view());
        }
        while i < n
            invariant
                i <= n,
                n == lines@.len(),
                lv == lines.deep_view(),
                lv.len() == n,
                spec_load(lv) == prepend_loaded(msgs.deep_view(), spec_load_from(lv, i as int)),
            decreases n - i,
        {
            proof {
                assert(lv[i as int] == lines@[i as int]@);
            }
            let line = &lines[i];
            if !line.as_str().is_empty() {
                match decode_line(line.as_str()) {
                    Some(m) => {
                        let ghost pre = msgs.deep_view();
                        proof {
                            match spec_load_from(lv, i as int + 1) {
                                Ok(ts) => {
                                    assert(spec_load_from(lv, i as int) == Ok::<
                                        Seq<TurnView>,
                                        int,
                                    >(seq![m@] + ts));
                                    assert(pre + (seq![m@] + ts) =~= pre.push(m@) + ts);
                                },
                                Err(_) => {},
                            }
                        }
                        msgs.push(m);
                        proof {
                            assert(msgs.deep_view() =~= pre.push(m@));
                        }
                    },
                    None => {
                        return Err(LoadError { line: i });
                    },
                }
            }
            i = i + 1;
        }
        proof {
            assert(msgs.deep_view() + Seq::<TurnView>::empty() =~= msgs.deep_view());
        }
        Ok(ChatMessages { messages: msgs, listeners: Vec::new() })
    }

    /// Read-only view of the full ordered history, used verbatim as the
    /// request context for the completion port.
    pub fn history(&self) -> (r: &Vec<ChatGptMessage>)
        ensures
            r.deep_view() == self.turns(),
    {
        &self.messages
    }

    /// Read-only view of the registered listeners, in registration order.
    pub fn listeners(&self) -> (r: &Vec<L>)
        ensures
            r@ == self.sinks(),
    {
        &self.listeners
    }
}

} // verus!
