//! Conversation history: an ordered store of turns with a pluggable policy.
use vstd::prelude::*;
use crate::types::TimedMessage;

verus! {

/// `s` cut down to its last `bound` turns, when there is a bound.
pub open spec fn keep_last(s: Seq<TimedMessage>, bound: Option<nat>) -> Seq<TimedMessage> {
    match bound {
        Some(n) => if s.len() <= n { s } else { s.subrange(s.len() - n, s.len() as int) },
        None => s,
    }
}

proof fn lemma_keep_last_push(s: Seq<TimedMessage>, m: TimedMessage, bound: Option<nat>)
    ensures
        keep_last(keep_last(s, bound).push(m), bound) == keep_last(s.push(m), bound),
{
    assert(keep_last(keep_last(s, bound).push(m), bound) =~= keep_last(s.push(m), bound));
}

/// Stores the turns of a conversation, oldest first.
///
/// A store may keep only the latest turns; it then drops the oldest first.
/// Dropping a tool result without the assistant turn that asked for it can
/// break the pairing of calls and results that strict providers enforce; an
/// implementation that bounds its size takes that risk knowingly.
pub trait History {
    /// The turns kept, oldest first.
    spec fn turns(&self) -> Seq<TimedMessage>;

    /// How many turns are kept at most; `None` when all are.
    spec fn bound(&self) -> Option<nat>;

    /// Adds one turn at the end.
    fn add(&mut self, message: TimedMessage)
        ensures
            final(self).bound() == old(self).bound(),
            final(self).turns() == keep_last(old(self).turns().push(message), old(self).bound()),
    ;

    /// Adds several turns at the end, in their order, one by one.
    fn add_batch(&mut self, messages: Vec<TimedMessage>)
        ensures
            final(self).bound() == old(self).bound(),
            messages@.len() > 0 ==> final(self).turns() == keep_last(old(self).turns() + messages@, old(self).bound()),
            messages@.len() == 0 ==> final(self).turns() == old(self).turns(),
    {
        let ghost start = self.turns();
        let ghost bound = self.bound();
        let ghost all = messages@;
        let mut rest = messages;
        let ghost mut i: int = 0;
        assert(start + all.subrange(0, 0) =~= start);
        while rest.len() > 0
            invariant
                0 <= i <= all.len(),
                rest@ == all.subrange(i, all.len() as int),
                self.bound() == bound,
                i == 0 ==> self.turns() == start,
                i > 0 ==> self.turns() == keep_last(start + all.subrange(0, i), bound),
            decreases rest@.len(),
        {
            let m = rest.remove(0);
            proof {
                if i > 0 {
                    lemma_keep_last_push(start + all.subrange(0, i), m, bound);
                }
                assert(start + all.subrange(0, i + 1) =~= (start + all.subrange(0, i)).push(m));
            }
            self.add(m);
            proof {
                i = i + 1;
            }
            assert(rest@ =~= all.subrange(i, all.len() as int));
        }
        assert(all.subrange(0, i) =~= all);
    }

    /// All the turns kept, oldest first.
    fn get_all(&self) -> (r: &[TimedMessage])
        ensures
            r@ == self.turns(),
    ;
}

/// A history that keeps every turn.
pub struct InfiniteHistory {
    messages: Vec<TimedMessage>,
}

impl InfiniteHistory {
    /// An empty history.
    pub fn new() -> (r: Self)
        ensures
            r.turns() == Seq::<TimedMessage>::empty(),
            r.bound() is None,
    {
        InfiniteHistory { messages: Vec::new() }
    }
}

impl History for InfiniteHistory {
    closed spec fn turns(&self) -> Seq<TimedMessage> {
        self.messages@
    }

    open spec fn bound(&self) -> Option<nat> {
        None
    }

    fn add(&mut self, message: TimedMessage) {
        self.messages.push(message);
    }

    fn get_all(&self) -> (r: &[TimedMessage]) {
        self.messages.as_slice()
    }
}

} // verus!
