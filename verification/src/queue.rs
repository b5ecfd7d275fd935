//! The bounded work queue between producers and the update worker.
//!
//! Admission is best-effort: when the queue is full a new message is dropped
//! on the floor rather than blocking the producer. Messages come out in the
//! order they were accepted.

use vstd::prelude::*;

use crate::updater::UpdateMessage;
use crate::updater::UpdateMessageView;

verus! {

/// How many update messages may wait in the queue at once.
pub const QUEUE_BOUND: usize = 100;

/// A bounded first-in-first-out queue of update messages.
pub struct UpdateQueue {
    items: Vec<UpdateMessage>,
    bound: usize,
}

impl View for UpdateQueue {
    type V = Seq<UpdateMessageView>;

    closed spec fn view(&self) -> Seq<UpdateMessageView> {
        self.items.deep_view()
    }
}

impl UpdateQueue {
    /// The admission bound the queue was created with.
    pub closed spec fn capacity(&self) -> nat {
        self.bound as nat
    }

    pub fn new(bound: usize) -> (q: Self)
        ensures
            q@ == Seq::<UpdateMessageView>::empty(),
            q.capacity() == bound as nat,
    {
        let q = UpdateQueue { items: Vec::new(), bound };
        proof {
            assert(q@ =~= Seq::<UpdateMessageView>::empty());
        }
        q
    }

    pub fn len(&self) -> (n: usize)
        ensures
            n as nat == self@.len(),
    {
        self.items.len()
    }

    /// Best-effort admission: the message is appended when there is room and
    /// dropped otherwise; the producer is never blocked.
    pub fn enqueue(&mut self, message: UpdateMessage) -> (accepted: bool)
        ensures
            accepted == (old(self)@.len() < old(self).capacity()),
            accepted ==> final(self)@ == old(self)@.push(message@),
            !accepted ==> final(self)@ == old(self)@,
            final(self).capacity() == old(self).capacity(),
    {
        if self.items.len() < self.bound {
            self.items.push(message);
            proof {
                assert(self@ =~= old(self)@.push(message@));
            }
            true
        } else {
            false
        }
    }

    /// Takes the oldest waiting message, if any.
    pub fn dequeue(&mut self) -> (r: Option<UpdateMessage>)
        ensures
            final(self).capacity() == old(self).capacity(),
            old(self)@.len() == 0 ==> r is None && final(self)@ == old(self)@,
            old(self)@.len() > 0 ==> (r matches Some(m) && m@ == old(self)@[0] && final(self)@
                == old(self)@.drop_first()),
    {
        if self.items.len() == 0 {
            Option::None
        } else {
            let m = self.items.remove(0);
            proof {
                assert(self@ =~= old(self)@.drop_first());
            }
            Option::Some(m)
        }
    }
}

} // verus!
