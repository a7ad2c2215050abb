//! Offering a source's packets to the transport, one after another, until it has no
//! more or the transport takes no more.
use crate::shared_sender::{SharedSender, SharedSenderSlot, lists_kept, one_more};
use vstd::prelude::*;

verus! {

/// Whether one packet went out on the first `legs` legs of a slot.
pub open spec fn sent_once(was: SharedSenderSlot, now: SharedSenderSlot, legs: usize) -> bool {
    &&& now == (SharedSenderSlot { stats: now.stats, ..was })
    &&& now.stats@.len() == was.stats@.len()
    &&& forall|i: int|
        0 <= i < was.stats@.len() ==> #[trigger] now.stats@[i] == if i < legs {
            one_more(was.stats@[i])
        } else {
            was.stats@[i]
        }
}

/// One round of offering.
#[derive(Clone, Copy, PartialEq, Eq, Debug, Structural)]
pub struct Offering {
    /// What the source had ready.
    pub pending: u32,
    /// What the transport took.
    pub accepted: u32,
    /// The transport would not take the next one.
    pub refused: bool,
}

impl Offering {
    pub open spec fn wf(self) -> bool {
        self.accepted <= self.pending && (self.refused ==> self.accepted < self.pending)
    }

    pub fn new(pending: u32) -> (r: Self)
        ensures
            r.wf(),
            r == (Offering { pending, accepted: 0, refused: false }),
    {
        Offering { pending, accepted: 0, refused: false }
    }

    /// Whether there is another packet to offer.
    pub fn open(&self) -> (r: bool)
        requires
            self.wf(),
        ensures
            r == (!self.refused && self.accepted < self.pending),
    {
        !self.refused && self.accepted < self.pending
    }

    /// Takes in what became of the packet that was offered: the number of legs that it
    /// went out on, or nothing where it was refused.
    pub fn answered(&mut self, sender: &mut SharedSender, slot_id: usize, legs: Option<usize>)
        requires
            old(self).wf(),
            !old(self).refused,
            old(self).accepted < old(self).pending,
            old(sender).wf(),
            slot_id < old(sender).slots@.len(),
        ensures
            final(self).wf(),
            final(self).pending == old(self).pending,
            final(self).accepted == old(self).accepted + if legs is Some {
                1int
            } else {
                0
            },
            final(self).refused == (legs is None),
            final(sender).wf(),
            legs is None ==> *final(sender) == *old(sender),
            legs is Some ==> sent_once(
                old(sender).slots@[slot_id as int],
                final(sender).slots@[slot_id as int],
                legs->0,
            ) && final(sender).slots@ == old(sender).slots@.update(
                slot_id as int,
                final(sender).slots@[slot_id as int],
            ),
            lists_kept(old(sender), final(sender)),
            final(sender).closing_set == old(sender).closing_set,
            final(sender).deadlines == old(sender).deadlines,
            final(sender).terminal_count == old(sender).terminal_count,
            final(sender).socket_id_to_slot == old(sender).socket_id_to_slot,
            final(sender).held() == old(sender).held(),
    {
        match legs {
            Some(n) => {
                sender.record_sent(slot_id, n);
                self.accepted = self.accepted + 1;
            },
            None => {
                self.refused = true;
            },
        }
    }
}

} // verus!
