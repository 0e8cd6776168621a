use crate::item::WorkItem;
use vstd::prelude::*;

verus! {

/// The dispatch channel: an unbounded FIFO queue of work items.
///
/// `send` enqueues at the tail and never blocks; receiving removes the head,
/// so items come out in the exact order they went in and no item is delivered
/// twice. In the running pool the receiving end is shared by all workers
/// under mutual exclusion; this model is driven sequentially, so that
/// exclusion is implicit in `&mut` access. Both ends live in one value here,
/// so the `ChannelClosed` failure of a real channel (one end dropped while
/// the other is still in use) has no counterpart in the model: `send` always
/// succeeds, and `try_receive` returns `None` where a real worker would block
/// on an empty queue.
pub struct Channel {
    items: Vec<WorkItem>,
}

impl View for Channel {
    type V = Seq<WorkItem>;

    closed spec fn view(&self) -> Seq<WorkItem> {
        self.items@
    }
}

impl Channel {
    /// An empty channel.
    pub fn new() -> (c: Channel)
        ensures
            c@ == Seq::<WorkItem>::empty(),
    {
        Channel { items: Vec::new() }
    }

    /// Enqueues `item` at the tail. Never blocks and never fails: the queue
    /// is unbounded and the model's receiving end always exists.
    pub fn send(&mut self, item: WorkItem)
        ensures
            final(self)@ == old(self)@.push(item),
    {
        self.items.push(item);
    }

    /// Removes and returns the head item, or returns `None` on an empty
    /// queue, where a real worker would block until something arrives.
    pub fn try_receive(&mut self) -> (r: Option<WorkItem>)
        ensures
            old(self)@.len() == 0 ==> r is None && *final(self) == *old(self),
            old(self)@.len() > 0 ==> r == Some(old(self)@[0]) && final(self)@ == old(
                self,
            )@.drop_first(),
    {
        if self.items.len() == 0 {
            None
        } else {
            let item = self.items.remove(0);
            proof {
                assert(old(self)@.remove(0) =~= old(self)@.drop_first());
            }
            Some(item)
        }
    }

    /// How many items are queued right now.
    pub fn len(&self) -> (n: usize)
        ensures
            n == self@.len(),
    {
        self.items.len()
    }
}

} // verus!
