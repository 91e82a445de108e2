//! The bounded history of press intervals, kept in a `ringbuf` ring buffer
//! that overwrites its oldest record when full.
use vstd::prelude::*;
use ringbuf::LocalRb;
use ringbuf::storage::Heap;
use ringbuf::traits::{Consumer, RingBuffer};

verus! {

/// A `ringbuf` ring buffer of interval records, which Verus sees only
/// through `ring_contents` and `ring_capacity`.
#[verifier::external_body]
pub struct IntervalRing {
    rb: LocalRb<Heap<(u64, bool)>>,
}

/// The records a ring buffer holds, oldest first.
pub uninterp spec fn ring_contents(rb: IntervalRing) -> Seq<(u64, bool)>;

/// The number of records a ring buffer was made to hold.
pub uninterp spec fn ring_capacity(rb: IntervalRing) -> nat;

/// Relies on `LocalRb::new`: an empty buffer of exactly `capacity` slots
/// (it panics on a zero capacity).
#[verifier::external_body]
fn rb_new(capacity: usize) -> (r: IntervalRing)
    requires
        capacity > 0,
    ensures
        ring_contents(r) == Seq::<(u64, bool)>::empty(),
        ring_capacity(r) == capacity,
{
    IntervalRing { rb: LocalRb::new(capacity) }
}

/// Relies on `RingBuffer::push_overwrite`: when the buffer is full the oldest
/// record is popped first, then the new one is pushed at the end.
#[verifier::external_body]
fn rb_push_overwrite(rb: &mut IntervalRing, item: (u64, bool))
    ensures
        ring_capacity(*final(rb)) == ring_capacity(*old(rb)),
        ring_contents(*final(rb)) == after_push(ring_contents(*old(rb)), ring_capacity(*old(rb)), item),
{
    rb.rb.push_overwrite(item);
}

/// Relies on `Consumer::clear`: every record is removed.
#[verifier::external_body]
fn rb_clear(rb: &mut IntervalRing)
    ensures
        ring_capacity(*final(rb)) == ring_capacity(*old(rb)),
        ring_contents(*final(rb)) == Seq::<(u64, bool)>::empty(),
{
    rb.rb.clear();
}

/// Relies on `Consumer::as_slices`: the two slices hold, in order, the
/// buffer's records.
#[verifier::external_body]
fn rb_as_slices<'a>(rb: &'a IntervalRing) -> (r: (&'a [(u64, bool)], &'a [(u64, bool)]))
    ensures
        r.0@ + r.1@ == ring_contents(*rb),
{
    rb.rb.as_slices()
}

/// The records held after appending `x` to `s` in a buffer of `cap` slots:
/// the oldest record is dropped when the buffer is full.
pub open spec fn after_push(s: Seq<(u64, bool)>, cap: nat, x: (u64, bool)) -> Seq<(u64, bool)> {
    if s.len() < cap {
        s.push(x)
    } else {
        s.drop_first().push(x)
    }
}

/// The records held after appending each of `xs` in order.
pub open spec fn after_push_all(s: Seq<(u64, bool)>, cap: nat, xs: Seq<(u64, bool)>) -> Seq<
    (u64, bool),
>
    decreases xs.len(),
{
    if xs.len() == 0 {
        s
    } else {
        after_push(after_push_all(s, cap, xs.drop_last()), cap, xs.last())
    }
}

/// The last `min(cap, len)` records of `s`.
pub open spec fn last_n(s: Seq<(u64, bool)>, cap: nat) -> Seq<(u64, bool)> {
    if s.len() <= cap {
        s
    } else {
        s.subrange(s.len() - cap, s.len() as int)
    }
}

/// Appending to a buffer that holds at most `cap` records keeps exactly the
/// last `cap` records of everything appended, in order.
pub proof fn lemma_keeps_last(s: Seq<(u64, bool)>, cap: nat, xs: Seq<(u64, bool)>)
    requires
        cap > 0,
        s.len() <= cap,
    ensures
        after_push_all(s, cap, xs) == last_n(s + xs, cap),
    decreases xs.len(),
{
    if xs.len() > 0 {
        let p = xs.drop_last();
        lemma_keeps_last(s, cap, p);
        let before = last_n(s + p, cap);
        let all = s + xs;
        assert((s + p) =~= all.drop_last());
        assert(all.last() == xs.last());
        if all.len() - 1 <= cap {
            assert(before == all.drop_last());
            if all.len() <= cap {
                assert(after_push(before, cap, xs.last()) =~= all);
            } else {
                assert(after_push(before, cap, xs.last()) =~= all.subrange(
                    all.len() - cap,
                    all.len() as int,
                ));
            }
        } else {
            assert(after_push(before, cap, xs.last()) =~= all.subrange(
                all.len() - cap,
                all.len() as int,
            ));
        }
    }
}

/// Appending more records than an empty history has room for leaves it
/// full, holding exactly the last `cap` records appended, in order.
pub proof fn lemma_overflow_keeps_last(cap: nat, xs: Seq<(u64, bool)>)
    requires
        cap > 0,
        xs.len() > cap,
    ensures
        after_push_all(Seq::empty(), cap, xs).len() == cap,
        after_push_all(Seq::empty(), cap, xs) == xs.subrange(xs.len() - cap, xs.len() as int),
{
    lemma_keeps_last(Seq::empty(), cap, xs);
    assert(Seq::<(u64, bool)>::empty() + xs =~= xs);
}

/// Capacity of the history kept while practising.
pub const HISTORY_CAPACITY: usize = 10_000;

/// The shared history of press intervals: `(duration, is_z)` records in
/// order of arrival, at most a fixed number of them; appending to a full
/// history drops the oldest record.
pub struct Shared {
    last_presses: IntervalRing,
}

impl Shared {
    /// The records held, oldest first.
    pub closed spec fn view(&self) -> Seq<(u64, bool)> {
        ring_contents(self.last_presses)
    }

    /// The number of records the history can hold.
    pub closed spec fn capacity_spec(&self) -> nat {
        ring_capacity(self.last_presses)
    }

    /// The history holds no more records than it has room for.
    pub open spec fn wf(&self) -> bool {
        &&& self.capacity_spec() > 0
        &&& self.view().len() <= self.capacity_spec()
    }

    /// An empty history of `HISTORY_CAPACITY` records.
    pub fn new() -> (r: Self)
        ensures
            r.wf(),
            r.view() == Seq::<(u64, bool)>::empty(),
            r.capacity_spec() == HISTORY_CAPACITY,
    {
        Self::with_capacity(HISTORY_CAPACITY)
    }

    /// An empty history of `capacity` records.
    pub fn with_capacity(capacity: usize) -> (r: Self)
        requires
            capacity > 0,
        ensures
            r.wf(),
            r.view() == Seq::<(u64, bool)>::empty(),
            r.capacity_spec() == capacity,
    {
        Shared { last_presses: rb_new(capacity) }
    }

    /// Appends a record, dropping the oldest one when the history is full.
    pub fn push_overwrite(&mut self, record: (u64, bool))
        requires
            old(self).wf(),
        ensures
            final(self).wf(),
            final(self).capacity_spec() == old(self).capacity_spec(),
            final(self).view() == after_push(old(self).view(), old(self).capacity_spec(), record),
    {
        rb_push_overwrite(&mut self.last_presses, record);
    }

    /// Removes every record.
    pub fn clear(&mut self)
        requires
            old(self).wf(),
        ensures
            final(self).wf(),
            final(self).capacity_spec() == old(self).capacity_spec(),
            final(self).view() == Seq::<(u64, bool)>::empty(),
    {
        rb_clear(&mut self.last_presses);
    }

    /// A copy of the records, oldest first.
    pub fn snapshot(&self) -> (r: Vec<(u64, bool)>)
        ensures
            r@ == self.view(),
    {
        let (a, b) = rb_as_slices(&self.last_presses);
        let mut out: Vec<(u64, bool)> = Vec::new();
        let mut i: usize = 0;
        while i < a.len()
            invariant
                0 <= i <= a@.len(),
                out@ == a@.take(i as int),
            decreases a@.len() - i,
        {
            out.push(a[i]);
            i = i + 1;
            proof {
                assert(out@ =~= a@.take(i as int));
            }
        }
        let mut j: usize = 0;
        while j < b.len()
            invariant
                0 <= j <= b@.len(),
                out@ == a@ + b@.take(j as int),
            decreases b@.len() - j,
        {
            out.push(b[j]);
            j = j + 1;
            proof {
                assert(out@ =~= a@ + b@.take(j as int));
            }
        }
        proof {
            assert(a@.take(a@.len() as int) =~= a@);
            assert(b@.take(b@.len() as int) =~= b@);
        }
        out
    }
}

} // verus!
