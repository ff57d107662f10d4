//! The bounded, order-preserving hand-off between the session and the sink, and
//! the consumer that groups records into batches.
use vstd::prelude::*;

verus! {

/// Why a record could not be handed off; the record comes back with it.
pub enum SendError<T> {
    /// The buffer is at capacity: the producer must wait and offer the record again.
    Full(T),
    /// The consumer is gone: the hand-off can never succeed again.
    Closed(T),
}

/// A bounded first-in first-out buffer with one producer and one consumer.
pub struct HandOff<T> {
    items: Vec<T>,
    capacity: usize,
    receiver_open: bool,
}

impl<T> HandOff<T> {
    /// The records waiting, oldest first.
    pub closed spec fn queued(&self) -> Seq<T> {
        self.items@
    }

    pub closed spec fn spec_capacity(&self) -> nat {
        self.capacity as nat
    }

    pub closed spec fn is_open(&self) -> bool {
        self.receiver_open
    }

    pub open spec fn wf(&self) -> bool {
        &&& self.spec_capacity() > 0
        &&& self.queued().len() <= self.spec_capacity()
    }

    /// An empty buffer that holds at most `capacity` records.
    pub fn new(capacity: usize) -> (r: Self)
        requires
            capacity > 0,
        ensures
            r.wf(),
            r.queued() == Seq::<T>::empty(),
            r.spec_capacity() == capacity,
            r.is_open(),
    {
        HandOff { items: Vec::new(), capacity, receiver_open: true }
    }

    pub fn len(&self) -> (r: usize)
        ensures
            r == self.queued().len(),
    {
        self.items.len()
    }

    pub fn capacity(&self) -> (r: usize)
        ensures
            r == self.spec_capacity(),
    {
        self.capacity
    }

    pub fn receiver_open(&self) -> (r: bool)
        ensures
            r == self.is_open(),
    {
        self.receiver_open
    }

    /// Offers `item` to the consumer. A full buffer hands the item back as `Full`
    /// (never drops it), a closed one as `Closed`; otherwise it joins the end.
    pub fn try_send(&mut self, item: T) -> (r: Result<(), SendError<T>>)
        requires
            old(self).wf(),
        ensures
            final(self).wf(),
            final(self).spec_capacity() == old(self).spec_capacity(),
            final(self).is_open() == old(self).is_open(),
            !old(self).is_open() ==> (r == Err::<(), SendError<T>>(SendError::Closed(item))
                && final(self).queued() == old(self).queued()),
            old(self).is_open() && old(self).queued().len() == old(self).spec_capacity()
                ==> (r == Err::<(), SendError<T>>(SendError::Full(item))
                && final(self).queued() == old(self).queued()),
            old(self).is_open() && old(self).queued().len() < old(self).spec_capacity()
                ==> (r == Ok::<(), SendError<T>>(())
                && final(self).queued() == old(self).queued().push(item)),
    {
        if !self.receiver_open {
            return Err(SendError::Closed(item));
        }
        if self.items.len() >= self.capacity {
            return Err(SendError::Full(item));
        }
        self.items.push(item);
        Ok(())
    }

    /// Takes the oldest waiting record, if any.
    pub fn recv(&mut self) -> (r: Option<T>)
        requires
            old(self).wf(),
        ensures
            final(self).wf(),
            final(self).spec_capacity() == old(self).spec_capacity(),
            final(self).is_open() == old(self).is_open(),
            old(self).queued().len() == 0 ==> (r is None && final(self).queued() == old(self).queued()),
            old(self).queued().len() > 0 ==> (r == Some(old(self).queued()[0])
                && final(self).queued() == old(self).queued().drop_first()),
    {
        if self.items.len() == 0 {
            return None;
        }
        let first = self.items.remove(0);
        proof {
            assert(self.items@ =~= old(self).items@.drop_first());
        }
        Some(first)
    }

    /// Marks the consumer as gone: every later offer fails with `Closed`.
    pub fn close_receiver(&mut self)
        requires
            old(self).wf(),
        ensures
            final(self).wf(),
            final(self).spec_capacity() == old(self).spec_capacity(),
            final(self).queued() == old(self).queued(),
            !final(self).is_open(),
    {
        self.receiver_open = false;
    }
}

/// The consumer's reaction to one record: the batch to commit, if the record
/// filled it, and the records still held.
pub open spec fn batch_step<T>(pending: Seq<T>, record: T, size: nat) -> (Option<Seq<T>>, Seq<T>) {
    let p = pending.push(record);
    if p.len() >= size {
        (Some(p), Seq::empty())
    } else {
        (None, p)
    }
}

/// The batches committed and the records held after a fresh consumer has taken
/// `records` in order.
pub open spec fn batch_run<T>(records: Seq<T>, size: nat) -> (Seq<Seq<T>>, Seq<T>)
    decreases records.len(),
{
    if records.len() == 0 {
        (Seq::empty(), Seq::empty())
    } else {
        let prev = batch_run(records.drop_last(), size);
        let next = batch_step(prev.1, records.last(), size);
        match next.0 {
            Some(b) => (prev.0.push(b), next.1),
            None => (prev.0, next.1),
        }
    }
}

/// The batches laid end to end.
pub open spec fn concat<T>(batches: Seq<Seq<T>>) -> Seq<T>
    decreases batches.len(),
{
    if batches.len() == 0 {
        Seq::empty()
    } else {
        concat(batches.drop_last()) + batches.last()
    }
}

/// Groups records into batches of a fixed size for the sink.
pub struct BatchingConsumer<T> {
    batch: Vec<T>,
    batch_size: usize,
}

impl<T> BatchingConsumer<T> {
    /// The records accepted since the last commit, in arrival order.
    pub closed spec fn pending(&self) -> Seq<T> {
        self.batch@
    }

    pub closed spec fn spec_batch_size(&self) -> nat {
        self.batch_size as nat
    }

    pub open spec fn wf(&self) -> bool {
        &&& self.spec_batch_size() > 0
        &&& self.pending().len() < self.spec_batch_size()
    }

    /// A consumer that commits every `batch_size` records.
    pub fn new(batch_size: usize) -> (r: Self)
        requires
            batch_size > 0,
        ensures
            r.wf(),
            r.pending() == Seq::<T>::empty(),
            r.spec_batch_size() == batch_size,
    {
        BatchingConsumer { batch: Vec::new(), batch_size }
    }

    pub fn pending_len(&self) -> (r: usize)
        ensures
            r == self.pending().len(),
    {
        self.batch.len()
    }

    /// Adds a record; once the batch reaches the threshold it is returned whole,
    /// for one commit, and the consumer starts an empty one.
    pub fn accept(&mut self, record: T) -> (r: Option<Vec<T>>)
        requires
            old(self).wf(),
        ensures
            final(self).wf(),
            final(self).spec_batch_size() == old(self).spec_batch_size(),
            final(self).pending() == batch_step(
                old(self).pending(),
                record,
                old(self).spec_batch_size(),
            ).1,
            match r {
                Some(b) => batch_step(old(self).pending(), record, old(self).spec_batch_size()).0
                    == Some(b@),
                None => batch_step(
                    old(self).pending(),
                    record,
                    old(self).spec_batch_size(),
                ).0 is None,
            },
    {
        self.batch.push(record);
        if self.batch.len() >= self.batch_size {
            let mut full: Vec<T> = Vec::new();
            std::mem::swap(&mut full, &mut self.batch);
            proof {
                assert(self.batch@ =~= Seq::<T>::empty());
            }
            Some(full)
        } else {
            None
        }
    }
}

impl<T> BatchingConsumer<T> {
    /// Takes `records` in order and returns the batches they complete, oldest first.
    /// From an empty pending batch, the result is exactly `batch_run(records)`.
    pub fn accept_all(&mut self, records: Vec<T>) -> (r: Vec<Vec<T>>)
        requires
            old(self).wf(),
            old(self).pending().len() == 0,
        ensures
            final(self).wf(),
            final(self).spec_batch_size() == old(self).spec_batch_size(),
            r@.map_values(|b: Vec<T>| b@) == batch_run(records@, old(self).spec_batch_size()).0,
            final(self).pending() == batch_run(records@, old(self).spec_batch_size()).1,
    {
        let ghost all = records@;
        let ghost size = self.spec_batch_size();
        let mut rest = records;
        let mut out: Vec<Vec<T>> = Vec::new();
        let ghost mut i: int = 0;
        proof {
            assert(all.take(0) =~= Seq::<T>::empty());
            assert(out@.map_values(|b: Vec<T>| b@) =~= Seq::<Seq<T>>::empty());
        }
        while rest.len() > 0
            invariant
                self.wf(),
                self.spec_batch_size() == size,
                0 <= i <= all.len(),
                rest@ == all.skip(i),
                out@.map_values(|b: Vec<T>| b@) == batch_run(all.take(i), size).0,
                self.pending() == batch_run(all.take(i), size).1,
            decreases rest@.len(),
        {
            let x = rest.remove(0);
            proof {
                assert(x == all[i]);
                assert(all.take(i + 1).drop_last() =~= all.take(i));
                assert(all.take(i + 1).last() == all[i]);
            }
            let done = self.accept(x);
            match done {
                Some(b) => {
                    let ghost before = out@;
                    out.push(b);
                    proof {
                        assert(out@.map_values(|c: Vec<T>| c@) =~= before.map_values(
                            |c: Vec<T>| c@,
                        ).push(b@));
                    }
                },
                None => {},
            }
            proof {
                i = i + 1;
                assert(rest@ =~= all.skip(i));
            }
        }
        proof {
            assert(all.take(i) =~= all);
        }
        out
    }
}

impl<T> HandOff<T> {
    /// The consumer's side: takes every waiting record, oldest first, into
    /// `consumer` and returns the batches that fill up, oldest first. No record is
    /// lost or reordered: the batches laid end to end, followed by what the consumer
    /// then holds, are what it held before followed by what was waiting.
    pub fn drain_into(&mut self, consumer: &mut BatchingConsumer<T>) -> (r: Vec<Vec<T>>)
        requires
            old(self).wf(),
            old(consumer).wf(),
        ensures
            final(self).wf(),
            final(self).queued().len() == 0,
            final(self).spec_capacity() == old(self).spec_capacity(),
            final(self).is_open() == old(self).is_open(),
            final(consumer).wf(),
            final(consumer).spec_batch_size() == old(consumer).spec_batch_size(),
            concat(r@.map_values(|b: Vec<T>| b@)) + final(consumer).pending() == old(
                consumer,
            ).pending() + old(self).queued(),
            forall|i: int|
                0 <= i < r@.len() ==> (#[trigger] r@[i])@.len() == old(consumer).spec_batch_size(),
    {
        let ghost start = consumer.pending() + self.queued();
        let ghost size = consumer.spec_batch_size();
        let mut out: Vec<Vec<T>> = Vec::new();
        proof {
            assert(out@.map_values(|b: Vec<T>| b@) =~= Seq::<Seq<T>>::empty());
            assert(concat(Seq::<Seq<T>>::empty()) + consumer.pending() + self.queued() =~= start);
        }
        while self.len() > 0
            invariant
                self.wf(),
                consumer.wf(),
                self.spec_capacity() == old(self).spec_capacity(),
                self.is_open() == old(self).is_open(),
                consumer.spec_batch_size() == size,
                concat(out@.map_values(|b: Vec<T>| b@)) + consumer.pending() + self.queued() == start,
                forall|i: int| 0 <= i < out@.len() ==> (#[trigger] out@[i])@.len() == size,
            decreases self.queued().len(),
        {
            let ghost q = self.queued();
            let ghost pend = consumer.pending();
            let ghost before = out@.map_values(|b: Vec<T>| b@);
            let x = self.recv().unwrap();
            proof {
                assert(q =~= seq![x] + self.queued());
            }
            let done = consumer.accept(x);
            match done {
                Some(b) => {
                    let ghost outs = out@;
                    out.push(b);
                    proof {
                        let after = out@.map_values(|c: Vec<T>| c@);
                        assert(after =~= before.push(b@));
                        assert(after.drop_last() =~= before);
                        assert(b@ == pend.push(x));
                        assert(concat(after) =~= concat(before) + pend.push(x));
                        assert(concat(after) + consumer.pending() + self.queued() =~= start);
                        assert forall|i: int| 0 <= i < out@.len() implies (#[trigger] out@[i])@.len() == size by {
                            if i < outs.len() {
                                assert(out@[i] == outs[i]);
                            }
                        }
                    }
                },
                None => {
                    proof {
                        assert(concat(before) + consumer.pending() + self.queued() =~= start);
                    }
                },
            }
        }
        proof {
            assert(concat(out@.map_values(|b: Vec<T>| b@)) + consumer.pending() =~= start);
        }
        out
    }
}

/// Records reach the sink in the order they were handed off: the committed
/// batches laid end to end, followed by the held records, are exactly the input;
/// every committed batch has the configured size; and fewer than that many
/// records are held back uncommitted.
pub proof fn lemma_batches_in_order<T>(records: Seq<T>, size: nat)
    requires
        size > 0,
    ensures
        concat(batch_run(records, size).0) + batch_run(records, size).1 == records,
        forall|i: int|
            0 <= i < batch_run(records, size).0.len() ==> (#[trigger] batch_run(
                records,
                size,
            ).0[i]).len() == size,
        batch_run(records, size).1.len() < size,
    decreases records.len(),
{
    if records.len() == 0 {
        assert(concat(Seq::<Seq<T>>::empty()) + Seq::<T>::empty() =~= records);
    } else {
        let init = records.drop_last();
        lemma_batches_in_order(init, size);
        let prev = batch_run(init, size);
        let next = batch_step(prev.1, records.last(), size);
        assert(records =~= init.push(records.last()));
        match next.0 {
            Some(b) => {
                let bs = prev.0.push(b);
                assert(bs.drop_last() =~= prev.0);
                assert(concat(bs) + Seq::<T>::empty() =~= records);
                assert forall|i: int| 0 <= i < bs.len() implies (#[trigger] bs[i]).len()
                    == size by {
                    if i < prev.0.len() {
                        assert(bs[i] == prev.0[i]);
                    }
                }
            },
            None => {
                assert(concat(prev.0) + next.1 =~= records);
            },
        }
    }
}

} // verus!
