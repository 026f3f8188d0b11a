//! The timing table: for each query, when it was sent and when its answer
//! came. Times are nanoseconds on a clock of the caller's choice.

use vstd::prelude::*;

verus! {

/// The timing record of one query.
#[derive(Debug, Clone, Copy, PartialEq, Eq)]
pub struct Slot {
    /// When the query was sent, once it has been.
    pub start: Option<u64>,
    /// When its answer was taken, once one has been.
    pub end: Option<u64>,
}

impl Slot {
    /// The record of a query that has not been sent.
    pub open spec fn unset() -> Slot {
        Slot { start: None, end: None }
    }

    /// Both times are set.
    pub open spec fn is_complete(self) -> bool {
        self.start is Some && self.end is Some
    }

    /// An end is set only behind a start, and is no earlier than it.
    pub open spec fn wf(self) -> bool {
        self.end is Some ==> self.start is Some && self.start->0 <= self.end->0
    }

    /// The time from sending to answer, of a complete record.
    pub open spec fn elapsed(self) -> u64
        recommends
            self.is_complete(),
            self.wf(),
    {
        (self.end->0 - self.start->0) as u64
    }
}

/// The elapsed times of the complete records among `slots`, in their order.
pub open spec fn elapsed_of(slots: Seq<Slot>) -> Seq<u64>
    decreases slots.len(),
{
    if slots.len() == 0 {
        Seq::empty()
    } else if slots.last().is_complete() {
        elapsed_of(slots.drop_last()).push(slots.last().elapsed())
    } else {
        elapsed_of(slots.drop_last())
    }
}

/// There are no more elapsed times than records.
pub proof fn lemma_elapsed_len(slots: Seq<Slot>)
    ensures
        elapsed_of(slots).len() <= slots.len(),
    decreases slots.len(),
{
    if slots.len() > 0 {
        lemma_elapsed_len(slots.drop_last());
    }
}

/// A record that is not complete, put in place of one that is not complete
/// either, changes no elapsed time.
pub proof fn lemma_elapsed_unchanged(slots: Seq<Slot>, id: int, slot: Slot)
    requires
        0 <= id < slots.len(),
        !slots[id].is_complete(),
        !slot.is_complete(),
    ensures
        elapsed_of(slots.update(id, slot)) == elapsed_of(slots),
    decreases slots.len(),
{
    let after = slots.update(id, slot);
    if id == slots.len() - 1 {
        assert(after.drop_last() =~= slots.drop_last());
    } else {
        assert(after.drop_last() =~= slots.drop_last().update(id, slot));
        lemma_elapsed_unchanged(slots.drop_last(), id, slot);
    }
}

/// A complete record, put in place of one that is not, adds one elapsed
/// time.
pub proof fn lemma_elapsed_grows(slots: Seq<Slot>, id: int, slot: Slot)
    requires
        0 <= id < slots.len(),
        !slots[id].is_complete(),
        slot.is_complete(),
    ensures
        elapsed_of(slots.update(id, slot)).len() == elapsed_of(slots).len() + 1,
    decreases slots.len(),
{
    let after = slots.update(id, slot);
    if id == slots.len() - 1 {
        assert(after.drop_last() =~= slots.drop_last());
    } else {
        assert(after.drop_last() =~= slots.drop_last().update(id, slot));
        lemma_elapsed_grows(slots.drop_last(), id, slot);
    }
}

/// Records of which none is complete give no elapsed time.
pub proof fn lemma_elapsed_none(slots: Seq<Slot>)
    requires
        forall|i: int| 0 <= i < slots.len() ==> !slots[i].is_complete(),
    ensures
        elapsed_of(slots).len() == 0,
    decreases slots.len(),
{
    if slots.len() > 0 {
        lemma_elapsed_none(slots.drop_last());
    }
}

/// A table of timing records, one per query, found by the query's id.
pub struct TimingStore {
    slots: Vec<Slot>,
}

impl View for TimingStore {
    type V = Seq<Slot>;

    closed spec fn view(&self) -> Seq<Slot> {
        self.slots@
    }
}

impl TimingStore {
    /// Every record of the table is well-formed.
    pub open spec fn wf(&self) -> bool {
        forall|i: int| 0 <= i < self@.len() ==> (#[trigger] self@[i]).wf()
    }

    /// A table of `count` records, none of them set.
    pub fn new(count: usize) -> (r: Self)
        ensures
            r.wf(),
            r@ == Seq::new(count as nat, |i: int| Slot::unset()),
    {
        let mut slots: Vec<Slot> = Vec::with_capacity(count);
        let mut i: usize = 0;
        while i < count
            invariant
                i <= count,
                slots@ == Seq::new(i as nat, |k: int| Slot::unset()),
            decreases count - i,
        {
            slots.push(Slot { start: None, end: None });
            assert(slots@ =~= Seq::new((i + 1) as nat, |k: int| Slot::unset()));
            i += 1;
        }
        TimingStore { slots }
    }

    /// The number of records.
    pub fn len(&self) -> (n: usize)
        ensures
            n == self@.len(),
    {
        self.slots.len()
    }

    /// The record of query `id`, where the table has one.
    pub fn slot(&self, id: usize) -> (r: Option<Slot>)
        ensures
            r == if id < self@.len() {
                Some(self@[id as int])
            } else {
                None
            },
    {
        if id < self.slots.len() {
            Some(self.slots[id])
        } else {
            None
        }
    }

    /// Sets the start of query `id` to `now`. Nothing is recorded where the
    /// table has no such record, or the record has a start already.
    pub fn record_start(&mut self, id: usize, now: u64) -> (recorded: bool)
        requires
            old(self).wf(),
        ensures
            final(self).wf(),
            recorded == (id < old(self)@.len() && old(self)@[id as int].start is None),
            recorded ==> final(self)@ == old(self)@.update(
                id as int,
                Slot { start: Some(now), end: old(self)@[id as int].end },
            ),
            !recorded ==> final(self)@ == old(self)@,
    {
        if id >= self.slots.len() {
            return false;
        }
        let slot = self.slots[id];
        if slot.start.is_some() {
            return false;
        }
        assert(old(self)@[id as int].wf());
        self.slots[id] = Slot { start: Some(now), end: slot.end };
        assert forall|i: int| 0 <= i < self@.len() implies (#[trigger] self@[i]).wf() by {
            assert(old(self)@[i].wf());
        }
        true
    }

    /// Sets the end of query `id` to `now`. Nothing is recorded where the
    /// table has no such record, the record has no start or has an end
    /// already, or `now` lies before its start.
    pub fn record_end(&mut self, id: usize, now: u64) -> (recorded: bool)
        requires
            old(self).wf(),
        ensures
            final(self).wf(),
            recorded == (id < old(self)@.len() && old(self)@[id as int].start is Some && old(
                self,
            )@[id as int].end is None && old(self)@[id as int].start->0 <= now),
            recorded ==> final(self)@ == old(self)@.update(
                id as int,
                Slot { start: old(self)@[id as int].start, end: Some(now) },
            ),
            !recorded ==> final(self)@ == old(self)@,
    {
        if id >= self.slots.len() {
            return false;
        }
        let slot = self.slots[id];
        match slot.start {
            None => false,
            Some(start) => {
                if slot.end.is_some() || now < start {
                    false
                } else {
                    self.slots[id] = Slot { start: slot.start, end: Some(now) };
                    assert forall|i: int| 0 <= i < self@.len() implies (#[trigger] self@[i]).wf() by {
                        assert(old(self)@[i].wf());
                    }
                    true
                }
            },
        }
    }

    /// The elapsed times of the queries that were answered, in the order of
    /// their ids.
    pub fn elapsed(&self) -> (r: Vec<u64>)
        requires
            self.wf(),
        ensures
            r@ == elapsed_of(self@),
    {
        let mut out: Vec<u64> = Vec::new();
        let n = self.slots.len();
        let mut i: usize = 0;
        while i < n
            invariant
                i <= n,
                n == self@.len(),
                self.wf(),
                out@ == elapsed_of(self@.take(i as int)),
            decreases n - i,
        {
            let slot = self.slots[i];
            assert(self@.take(i + 1).drop_last() =~= self@.take(i as int));
            assert(self@.take(i + 1).last() == self@[i as int]);
            assert(self@[i as int].wf());
            match (slot.start, slot.end) {
                (Some(start), Some(end)) => {
                    out.push(end - start);
                },
                _ => {},
            }
            i += 1;
        }
        assert(self@.take(n as int) =~= self@);
        out
    }
}

} // verus!
