//! Signal bus: named channels with ordered handler fan-out.
//!
//! Subsystems discover activation, deactivation and add/remove events without
//! direct coupling: each channel holds the subscriber identities in
//! registration order, and emission hands them back in that same order so the
//! caller can invoke the matching handlers.  Handlers that want to emit while
//! an emission is being delivered enqueue the event instead; the queue drains
//! in first-in first-out order, which keeps delivery free of reentrant
//! iteration.

use vstd::prelude::*;

verus! {

/// The named channels of the bus.
#[derive(Clone, Copy, Debug, PartialEq, Eq, Structural)]
pub enum Channel {
    BodyActivated,
    BodyDeactivated,
    BodyAdded,
    BodyRemoved,
    ConstraintAdded,
    ConstraintRemoved,
}

/// The signal bus.  Subscriber identity is a stable integer chosen by the
/// subscriber, allowing unsubscribe on teardown.
pub struct SignalBus {
    pub body_activated: Vec<usize>,
    pub body_deactivated: Vec<usize>,
    pub body_added: Vec<usize>,
    pub body_removed: Vec<usize>,
    pub constraint_added: Vec<usize>,
    pub constraint_removed: Vec<usize>,
    /// Events queued by handlers during a delivery, oldest first.
    pub pending: Vec<Channel>,
}

/// The subscribers of `channel` on a bus with the given channel vectors, in
/// registration order.
pub open spec fn spec_subscribers(bus: SignalBus, channel: Channel) -> Seq<usize> {
    match channel {
        Channel::BodyActivated => bus.body_activated@,
        Channel::BodyDeactivated => bus.body_deactivated@,
        Channel::BodyAdded => bus.body_added@,
        Channel::BodyRemoved => bus.body_removed@,
        Channel::ConstraintAdded => bus.constraint_added@,
        Channel::ConstraintRemoved => bus.constraint_removed@,
    }
}

/// `s` with every occurrence of `id` removed, order otherwise kept.
pub open spec fn without_subscriber(s: Seq<usize>, id: usize) -> Seq<usize>
    decreases s.len(),
{
    if s.len() == 0 {
        Seq::empty()
    } else if s.last() == id {
        without_subscriber(s.drop_last(), id)
    } else {
        without_subscriber(s.drop_last(), id).push(s.last())
    }
}

/// Removes every occurrence of `id` from `list`, keeping the order of the
/// remaining elements.
fn remove_all(list: &mut Vec<usize>, id: usize)
    ensures
        final(list)@ == without_subscriber(old(list)@, id),
{
    let ghost orig = list@;
    let mut kept: Vec<usize> = Vec::new();
    let n = list.len();
    let mut i: usize = 0;
    while i < n
        invariant
            i <= n,
            n == list@.len(),
            list@ == orig,
            kept@ == without_subscriber(orig.take(i as int), id),
        decreases n - i,
    {
        proof {
            assert(orig.take(i as int + 1).drop_last() =~= orig.take(i as int));
        }
        if list[i] != id {
            kept.push(list[i]);
        }
        i += 1;
    }
    proof {
        assert(orig.take(n as int) =~= orig);
    }
    *list = kept;
}

impl SignalBus {
    /// The subscribers of `channel`, in registration order.
    pub open spec fn subscribers(self, channel: Channel) -> Seq<usize> {
        spec_subscribers(self, channel)
    }

    /// A bus with no subscribers and no pending events.
    pub fn new() -> (r: SignalBus)
        ensures
            forall|c: Channel| r.subscribers(c) == Seq::<usize>::empty(),
            r.pending@ == Seq::<Channel>::empty(),
    {
        SignalBus {
            body_activated: Vec::new(),
            body_deactivated: Vec::new(),
            body_added: Vec::new(),
            body_removed: Vec::new(),
            constraint_added: Vec::new(),
            constraint_removed: Vec::new(),
            pending: Vec::new(),
        }
    }

    /// Appends `id` to the subscriber list of `channel`; every other channel
    /// and the pending queue are untouched.
    pub fn subscribe(&mut self, channel: Channel, id: usize)
        ensures
            final(self).subscribers(channel) == old(self).subscribers(channel).push(id),
            forall|c: Channel| c != channel ==> final(self).subscribers(c) == old(self).subscribers(c),
            final(self).pending@ == old(self).pending@,
    {
        match channel {
            Channel::BodyActivated => self.body_activated.push(id),
            Channel::BodyDeactivated => self.body_deactivated.push(id),
            Channel::BodyAdded => self.body_added.push(id),
            Channel::BodyRemoved => self.body_removed.push(id),
            Channel::ConstraintAdded => self.constraint_added.push(id),
            Channel::ConstraintRemoved => self.constraint_removed.push(id),
        }
    }

    /// Removes every occurrence of `id` from `channel`, keeping the order of
    /// the remaining subscribers; every other channel and the pending queue
    /// are untouched.
    pub fn unsubscribe(&mut self, channel: Channel, id: usize)
        ensures
            final(self).subscribers(channel) == without_subscriber(old(self).subscribers(channel), id),
            forall|c: Channel| c != channel ==> final(self).subscribers(c) == old(self).subscribers(c),
            final(self).pending@ == old(self).pending@,
    {
        match channel {
            Channel::BodyActivated => remove_all(&mut self.body_activated, id),
            Channel::BodyDeactivated => remove_all(&mut self.body_deactivated, id),
            Channel::BodyAdded => remove_all(&mut self.body_added, id),
            Channel::BodyRemoved => remove_all(&mut self.body_removed, id),
            Channel::ConstraintAdded => remove_all(&mut self.constraint_added, id),
            Channel::ConstraintRemoved => remove_all(&mut self.constraint_removed, id),
        }
    }

    /// Delivery order for an emission on `channel`: the subscribers in
    /// registration order.  The caller invokes the matching handlers.
    pub fn fan_out(&self, channel: Channel) -> (r: Vec<usize>)
        ensures
            r@ == self.subscribers(channel),
    {
        let list = match channel {
            Channel::BodyActivated => &self.body_activated,
            Channel::BodyDeactivated => &self.body_deactivated,
            Channel::BodyAdded => &self.body_added,
            Channel::BodyRemoved => &self.body_removed,
            Channel::ConstraintAdded => &self.constraint_added,
            Channel::ConstraintRemoved => &self.constraint_removed,
        };
        let mut out: Vec<usize> = Vec::new();
        let n = list.len();
        let mut i: usize = 0;
        while i < n
            invariant
                i <= n,
                n == list@.len(),
                out@ == list@.take(i as int),
            decreases n - i,
        {
            proof {
                assert(list@.take(i as int + 1).drop_last() =~= list@.take(i as int));
            }
            out.push(list[i]);
            i += 1;
        }
        proof {
            assert(list@.take(n as int) =~= list@);
        }
        out
    }

    /// Queues an emission raised while another one is being delivered.
    pub fn enqueue(&mut self, channel: Channel)
        ensures
            final(self).pending@ == old(self).pending@.push(channel),
            forall|c: Channel| final(self).subscribers(c) == old(self).subscribers(c),
    {
        self.pending.push(channel);
    }

    /// Takes the oldest queued emission, if any: the queue drains in
    /// first-in first-out order.
    pub fn drain_next(&mut self) -> (r: Option<Channel>)
        ensures
            old(self).pending@.len() == 0 ==> r is None && final(self).pending@ == old(self).pending@,
            old(self).pending@.len() > 0 ==> r == Some(old(self).pending@.first())
                && final(self).pending@ == old(self).pending@.drop_first(),
            forall|c: Channel| final(self).subscribers(c) == old(self).subscribers(c),
    {
        if self.pending.len() == 0 {
            None
        } else {
            let c = self.pending.remove(0);
            proof {
                assert(self.pending@ =~= old(self).pending@.drop_first());
            }
            Some(c)
        }
    }
}

} // verus!
