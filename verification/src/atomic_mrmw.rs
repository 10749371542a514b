use vstd::prelude::*;

use crate::atomic_mrsw::{mrsw_pack, AtomicMRSW, AtomicMRSWReader};
use crate::stamped_values::{newest_index, spec_newest, StampedValue};

verus! {

/// The newest (by stamp) of the observed packed bytes, whose three low bits hold the
/// value and whose high bits hold the stamp.
pub open spec fn mrmw_newest(obs: Seq<u8>) -> u8 {
    obs[spec_newest(obs, 3usize)]
}

/// The packed byte a writer that observed `obs` writes for `value`: the value with
/// the stamp after the newest observed one. Only five stamp bits fit above the value, so
/// the stamp after 31 is 0.
pub open spec fn spec_next_stamped(obs: Seq<u8>, value: u8) -> u8 {
    StampedValue::<u8, 3>::pack(((mrmw_newest(obs) >> 3usize) + 1) as u8, value)
}

proof fn lemma_three_bit_mask()
    ensures
        StampedValue::<u8, 3>::value_mask() == 7,
{
    assert(((1u16 << 3usize) - 1) as u8 == 7u8) by (bit_vector);
}

proof fn lemma_stamp_room(x: u8)
    by (bit_vector)
    ensures
        (x >> 3usize) < 32u8,
{
}

proof fn lemma_pack3(stamp: u8, value: u8)
    by (bit_vector)
    requires
        value <= 7u8,
        stamp <= 31u8,
    ensures
        ((stamp << 3usize) | value) & 7u8 == value,
        ((stamp << 3usize) | value) >> 3usize == stamp,
{
}

/// Law: unless the newest stamp observed is the last one that fits (31), a write
/// carries a stamp newer than every stamp observed, so that every later read that
/// sees it prefers it.
pub proof fn lemma_next_stamp_is_newer(obs: Seq<u8>, value: u8)
    requires
        obs.len() > 0,
        value <= 7,
        mrmw_newest(obs) >> 3usize < 31,
    ensures
        forall|j: int| 0 <= j < obs.len() ==> (#[trigger] obs[j]) >> 3usize < spec_next_stamped(obs, value) >> 3usize,
        spec_next_stamped(obs, value) & 7u8 == value,
{
    crate::stamped_values::lemma_newest_exists(obs, 3usize);
    let k = spec_newest(obs, 3usize);
    let s = obs[k] >> 3usize;
    lemma_pack3((s + 1) as u8, value);
}

/// Law: a participant reads the value of the latest write when the newest stamp
/// among its observations is that write's and every observation with that stamp is
/// that write's packed byte.
pub proof fn lemma_read_returns_written(obs: Seq<u8>, i: int, stamp: u8, value: u8)
    requires
        0 <= i < obs.len(),
        value <= 7,
        stamp <= 31,
        obs[i] == StampedValue::<u8, 3>::pack(stamp, value),
        forall|j: int| 0 <= j < obs.len() ==> (#[trigger] obs[j]) >> 3usize <= obs[i] >> 3usize,
        forall|j: int| 0 <= j < obs.len() && (#[trigger] obs[j]) >> 3usize == obs[i] >> 3usize ==> obs[j] == obs[i],
    ensures
        mrmw_newest(obs) & 7u8 == value,
{
    crate::stamped_values::lemma_newest_is_latest(obs, i, 3usize);
    lemma_pack3(stamp, value);
}

/// The value of the newest (by stamp) of the observed packed bytes.
pub fn newest_value(seen: &Vec<u8>) -> (r: u8)
    requires
        seen@.len() > 0,
    ensures
        r == mrmw_newest(seen@) & 7u8,
{
    proof {
        lemma_three_bit_mask();
    }
    let k = newest_index(seen, 3);
    let stamped = StampedValue::<u8, 3>::from_raw(seen[k]);
    stamped.value()
}

/// The packed byte to write for `value` after observing `seen`: the stamp after the
/// newest observed one (0 after 31).
pub fn next_stamped(seen: &Vec<u8>, value: u8) -> (r: u8)
    requires
        seen@.len() > 0,
        value <= 7,
    ensures
        r == spec_next_stamped(seen@, value),
{
    proof {
        lemma_three_bit_mask();
    }
    let k = newest_index(seen, 3);
    let most_recent_stamp = seen[k] >> 3;
    proof {
        lemma_stamp_room(seen@[k as int]);
    }
    let stamped_val = StampedValue::<u8, 3>::new(most_recent_stamp + 1, value);
    stamped_val.into_u8()
}

/// One participant of an atomic multi-reader multi-writer register: it owns one
/// atomic multi-reader single-writer register, which it writes, and holds a reader
/// end of every participant's register.
pub struct AtomicMRMWReaderWriter {
    writer: AtomicMRSW,
    readers: Vec<AtomicMRSWReader>,
}

/// An atomic multi-reader multi-writer register of 3-bit values, for a fixed number
/// of participants.
pub struct AtomicMRMW {
    readers_writers: Vec<Option<AtomicMRMWReaderWriter>>,
}

impl AtomicMRMWReaderWriter {
    /// The register this participant writes.
    pub closed spec fn own_register(&self) -> AtomicMRSW {
        self.writer
    }

    /// The reader ends this participant reads, one per participant.
    pub closed spec fn reader_ends(&self) -> Seq<AtomicMRSWReader> {
        self.readers@
    }

    pub open spec fn width(&self) -> nat {
        self.reader_ends().len()
    }

    pub open spec fn wf(&self) -> bool {
        &&& self.own_register().wf()
        &&& self.width() > 0
        &&& forall|k: int| 0 <= k < self.width() ==> (#[trigger] self.reader_ends()[k]).wf()
    }

    /// Reader end `k` answered `seen[k]` to a read that started from `before`, having
    /// observed what its column entries returned.
    pub open spec fn answered_at(&self, before: &Self, seen: Seq<u8>, k: int) -> bool {
        exists|obs: Seq<u16>|
            #[trigger] self.reader_ends()[k].answered(&before.reader_ends()[k], obs, seen[k])
                && self.reader_ends()[k].saw_columns(obs)
    }

    /// Starting from `before`, every reader end `k` answered `seen[k]`.
    pub open spec fn observed(&self, before: &Self, seen: Seq<u8>) -> bool {
        &&& seen.len() == before.width()
        &&& forall|k: int| 0 <= k < before.width() ==> #[trigger] self.answered_at(before, seen, k)
    }

    /// Every reader end has row stamps left for `reads` more reads and one after them.
    pub open spec fn readers_room(&self, reads: nat) -> bool {
        forall|k: int| 0 <= k < self.width() ==> (#[trigger] self.reader_ends()[k]).rows_room(reads)
    }

    /// No reader end is out of stamps.
    pub open spec fn readers_have_room(&self) -> bool {
        self.readers_room(0)
    }

    /// Whether a read fits: no reader end may run out of stamps.
    pub fn can_read(&self) -> (r: bool)
        ensures
            r == self.readers_have_room(),
    {
        let n = self.readers.len();
        let mut k: usize = 0;
        while k < n
            invariant
                k <= n,
                n == self.width(),
                forall|t: int| 0 <= t < k ==> (#[trigger] self.reader_ends()[t]).rows_have_room(),
            decreases n - k,
        {
            if !self.readers[k].can_read() {
                return false;
            }
            k = k + 1;
        }
        true
    }

    /// Reads every participant's register once, returning what was seen.
    fn observe(&mut self) -> (seen: Vec<u8>)
        requires
            old(self).wf(),
            old(self).readers_have_room(),
        ensures
            final(self).wf(),
            final(self).own_register() == old(self).own_register(),
            final(self).width() == old(self).width(),
            final(self).observed(old(self), seen@),
            forall|reads: nat| old(self).readers_room(reads + 1) ==> #[trigger] final(self).readers_room(reads),
    {
        let ghost before = *self;
        let n = self.readers.len();
        let mut seen: Vec<u8> = Vec::with_capacity(n);
        let mut k: usize = 0;
        while k < n
            invariant
                k <= n,
                n == self.width(),
                n == before.width(),
                seen@.len() == k,
                before.wf(),
                before.readers_have_room(),
                self.own_register() == before.own_register(),
                forall|t: int| 0 <= t < n ==> (#[trigger] self.reader_ends()[t]).wf(),
                forall|t: int| k <= t < n ==> #[trigger] self.reader_ends()[t] == before.reader_ends()[t],
                forall|t: int| 0 <= t < k ==> #[trigger] self.answered_at(&before, seen@, t),
                forall|t: int, reads: nat| 0 <= t < k && before.reader_ends()[t].rows_room(reads + 1)
                    ==> #[trigger] self.reader_ends()[t].rows_room(reads),
            decreases n - k,
        {
            let ghost prev = *self;
            let ghost prev_seen = seen@;
            let v = self.readers[k].read();
            seen.push(v);
            proof {
                assert forall|t: int| 0 <= t < k + 1 implies #[trigger] self.answered_at(&before, seen@, t) by {
                    assert(seen@[t] == (if t < k { prev_seen[t] } else { v }));
                    if t < k {
                        assert(self.reader_ends()[t] == prev.reader_ends()[t]);
                        assert(prev.answered_at(&before, prev_seen, t));
                        let obs = choose|obs: Seq<u16>|
                            #[trigger] prev.reader_ends()[t].answered(&before.reader_ends()[t], obs, prev_seen[t])
                                && prev.reader_ends()[t].saw_columns(obs);
                        assert(self.reader_ends()[t].answered(&before.reader_ends()[t], obs, seen@[t]));
                        assert(self.reader_ends()[t].saw_columns(obs));
                    } else {
                        let obs = choose|obs: Seq<u16>|
                            #[trigger] self.reader_ends()[t].answered(&prev.reader_ends()[t], obs, v)
                                && self.reader_ends()[t].saw_columns(obs);
                        assert(self.reader_ends()[t].answered(&before.reader_ends()[t], obs, seen@[t]));
                        assert(self.reader_ends()[t].saw_columns(obs));
                    }
                }
            }
            k = k + 1;
        }
        seen
    }

    /// Reads the register: reads every participant's register once and returns the
    /// value of the newest (by stamp) observation.
    pub fn read(&mut self) -> (r: u8)
        requires
            old(self).wf(),
            old(self).readers_have_room(),
        ensures
            final(self).wf(),
            final(self).own_register() == old(self).own_register(),
            final(self).width() == old(self).width(),
            exists|seen: Seq<u8>| #[trigger] final(self).observed(old(self), seen) && r == mrmw_newest(seen) & 7u8,
            forall|reads: nat| old(self).readers_room(reads + 1) ==> #[trigger] final(self).readers_room(reads),
    {
        let seen = self.observe();
        let r = newest_value(&seen);
        assert(final(self).observed(old(self), seen@) && r == mrmw_newest(seen@) & 7u8);
        r
    }

    /// Whether a write fits: no reader end may run out of stamps, nor the register
    /// this participant writes.
    pub fn can_write(&self) -> (r: bool)
        ensures
            r == (self.readers_have_room() && self.own_register().stamp() < u8::MAX),
    {
        self.can_read() && self.writer.can_write()
    }

    /// Writes `value`: reads every participant's register, then writes `value` with the
    /// stamp after the newest one seen to this participant's register. The stamp has
    /// five bits: after 31 it wraps to 0, and reads may then prefer an older value.
    pub fn write(&mut self, value: u8)
        requires
            old(self).wf(),
            old(self).readers_have_room(),
            old(self).own_register().stamp() < u8::MAX,
            value <= 7,
        ensures
            final(self).wf(),
            final(self).width() == old(self).width(),
            forall|reads: nat| old(self).readers_room(reads + 1) ==> #[trigger] final(self).readers_room(reads),
            final(self).own_register().stamp() == old(self).own_register().stamp() + 1,
            exists|obs: Seq<u8>| {
                &&& #[trigger] final(self).observed(old(self), obs)
                &&& forall|i: int| 0 <= i < final(self).own_register().capacity() ==>
                    (#[trigger] final(self).own_register().diagonal_writers()[i]).value()
                        == mrsw_pack(final(self).own_register().stamp(), spec_next_stamped(obs, value))
            },
    {
        let seen = self.observe();
        let packed = next_stamped(&seen, value);
        let ghost observed_state = *self;
        self.writer.write(packed);
        assert(self.reader_ends() == observed_state.reader_ends());
        assert forall|reads: nat| old(self).readers_room(reads + 1) implies #[trigger] self.readers_room(reads) by {
            assert(observed_state.readers_room(reads));
        }
        assert(self.observed(old(self), seen@)) by {
            assert forall|k: int| 0 <= k < old(self).width() implies #[trigger] self.answered_at(old(self), seen@, k) by {
                assert(observed_state.answered_at(old(self), seen@, k));
            }
        }
    }
}

impl AtomicMRMW {
    /// The participants not handed out yet (`None` once taken).
    pub closed spec fn slots(&self) -> Seq<Option<AtomicMRMWReaderWriter>> {
        self.readers_writers@
    }

    pub open spec fn capacity(&self) -> nat {
        self.slots().len()
    }

    /// Creates the register for `capacity` participants, all holding 0 with stamp 0.
    /// Participant `k` writes its own register, which participant `j` reads through
    /// its reader end `k`, wired as reader `j` of that register.
    pub fn new(capacity: usize) -> (r: Self)
        ensures
            r.capacity() == capacity,
            forall|j: int| 0 <= j < capacity ==> {
                &&& (#[trigger] r.slots()[j]) is Some
                &&& r.slots()[j].unwrap().wf()
                &&& r.slots()[j].unwrap().width() == capacity
                &&& r.slots()[j].unwrap().own_register().capacity() == capacity
                &&& r.slots()[j].unwrap().own_register().stamp() == 0
                &&& r.slots()[j].unwrap().readers_have_room()
                &&& forall|reads: nat| reads < u16::MAX ==> #[trigger] r.slots()[j].unwrap().readers_room(reads)
            },
            forall|k: int| 0 <= k < capacity ==> (#[trigger] r.slots()[k]).unwrap().own_register().wired(
                Seq::new(capacity as nat, |j: int| r.slots()[j].unwrap().reader_ends()[k]),
            ),
    {
        let mut mrsws: Vec<AtomicMRSW> = Vec::new();
        let mut t: usize = 0;
        while t < capacity
            invariant
                t <= capacity,
                mrsws@.len() == t,
                forall|a: int| 0 <= a < t ==> {
                    &&& (#[trigger] mrsws@[a]).wf()
                    &&& mrsws@[a].capacity() == capacity
                    &&& mrsws@[a].stamp() == 0
                    &&& forall|j: int| 0 <= j < capacity ==> (#[trigger] mrsws@[a].reader_slots()[j]) is Some
                        && mrsws@[a].reader_slots()[j].unwrap().fresh()
                    &&& mrsws@[a].wired(Seq::new(capacity as nat, |j: int| mrsws@[a].reader_slots()[j].unwrap()))
                },
            decreases capacity - t,
        {
            mrsws.push(AtomicMRSW::new(capacity));
            t = t + 1;
        }
        let ghost initial = mrsws@;
        let mut readers_rows: Vec<Vec<AtomicMRSWReader>> = Vec::new();
        let mut t: usize = 0;
        while t < capacity
            invariant
                t <= capacity,
                readers_rows@.len() == t,
                forall|a: int| 0 <= a < t ==> (#[trigger] readers_rows@[a])@.len() == 0,
            decreases capacity - t,
        {
            readers_rows.push(Vec::new());
            t = t + 1;
        }
        let mut i: usize = 0;
        while i < capacity
            invariant
                i <= capacity,
                initial.len() == capacity,
                mrsws@.len() == capacity,
                readers_rows@.len() == capacity,
                forall|a: int| 0 <= a < capacity ==> {
                    &&& (#[trigger] mrsws@[a]).wf()
                    &&& mrsws@[a].capacity() == capacity
                    &&& mrsws@[a].stamp() == 0
                    &&& mrsws@[a].diagonal_writers() == initial[a].diagonal_writers()
                    &&& forall|j: int| i <= j < capacity ==> (#[trigger] mrsws@[a].reader_slots()[j]) == initial[a].reader_slots()[j]
                },
                forall|a: int| 0 <= a < capacity ==> {
                    &&& initial[a].wf()
                    &&& initial[a].capacity() == capacity
                    &&& forall|j: int| 0 <= j < capacity ==> (#[trigger] initial[a].reader_slots()[j]) is Some
                        && initial[a].reader_slots()[j].unwrap().fresh()
                    &&& initial[a].wired(Seq::new(capacity as nat, |j: int| initial[a].reader_slots()[j].unwrap()))
                },
                forall|j: int| 0 <= j < capacity ==> (#[trigger] readers_rows@[j])@.len() == (if j < i { capacity as int } else { 0 }),
                forall|j: int, k: int| 0 <= j < i && 0 <= k < capacity ==>
                    (#[trigger] readers_rows@[j]@[k]) == initial[k].reader_slots()[j].unwrap(),
            decreases capacity - i,
        {
            let mut k: usize = 0;
            while k < capacity
                invariant
                    i < capacity,
                    k <= capacity,
                    initial.len() == capacity,
                    mrsws@.len() == capacity,
                    readers_rows@.len() == capacity,
                    forall|a: int| 0 <= a < capacity ==> {
                        &&& (#[trigger] mrsws@[a]).wf()
                        &&& mrsws@[a].capacity() == capacity
                        &&& mrsws@[a].stamp() == 0
                        &&& mrsws@[a].diagonal_writers() == initial[a].diagonal_writers()
                        &&& forall|j: int| i < j < capacity ==> (#[trigger] mrsws@[a].reader_slots()[j]) == initial[a].reader_slots()[j]
                        &&& a >= k ==> mrsws@[a].reader_slots()[i as int] == initial[a].reader_slots()[i as int]
                    },
                    forall|a: int| 0 <= a < capacity ==> {
                        &&& initial[a].wf()
                        &&& initial[a].capacity() == capacity
                        &&& forall|j: int| 0 <= j < capacity ==> (#[trigger] initial[a].reader_slots()[j]) is Some
                        && initial[a].reader_slots()[j].unwrap().fresh()
                        &&& initial[a].wired(Seq::new(capacity as nat, |j: int| initial[a].reader_slots()[j].unwrap()))
                    },
                    forall|j: int| 0 <= j < capacity ==> (#[trigger] readers_rows@[j])@.len() == (if j < i { capacity as int } else if j == i { k as int } else { 0 }),
                    forall|j: int, b: int| 0 <= j < i && 0 <= b < capacity ==>
                        (#[trigger] readers_rows@[j]@[b]) == initial[b].reader_slots()[j].unwrap(),
                    forall|b: int| 0 <= b < k ==>
                        (#[trigger] readers_rows@[i as int]@[b]) == initial[b].reader_slots()[i as int].unwrap(),
                decreases capacity - k,
            {
                assert(initial[k as int].reader_slots()[i as int] is Some);
                let reader = mrsws[k].get_nth_reader(i).unwrap();
                readers_rows[i].push(reader);
                k = k + 1;
            }
            i = i + 1;
        }
        let ghost all_mrsws = mrsws@;
        let ghost all_rows = readers_rows@;
        let mut readers_writers: Vec<Option<AtomicMRMWReaderWriter>> = Vec::with_capacity(capacity);
        let mut t: usize = 0;
        while t < capacity
            invariant
                t <= capacity,
                all_mrsws.len() == capacity,
                all_rows.len() == capacity,
                mrsws@ == all_mrsws.subrange(t as int, capacity as int),
                readers_rows@ == all_rows.subrange(t as int, capacity as int),
                readers_writers@.len() == t,
                forall|a: int| 0 <= a < t ==> (#[trigger] readers_writers@[a]) is Some
                    && readers_writers@[a].unwrap().own_register() == all_mrsws[a]
                    && readers_writers@[a].unwrap().reader_ends() == all_rows[a]@,
            decreases capacity - t,
        {
            let writer = mrsws.remove(0);
            let readers = readers_rows.remove(0);
            readers_writers.push(Some(AtomicMRMWReaderWriter { writer, readers }));
            t = t + 1;
        }
        let r = AtomicMRMW { readers_writers };
        proof {
            assert forall|j: int| 0 <= j < capacity implies {
                &&& (#[trigger] r.slots()[j]) is Some
                &&& r.slots()[j].unwrap().wf()
                &&& r.slots()[j].unwrap().width() == capacity
                &&& r.slots()[j].unwrap().own_register().capacity() == capacity
                &&& r.slots()[j].unwrap().own_register().stamp() == 0
                &&& r.slots()[j].unwrap().readers_have_room()
            } by {
                let node = r.slots()[j].unwrap();
                assert forall|k: int| 0 <= k < node.width() implies (#[trigger] node.reader_ends()[k]).wf() by {
                    assert(node.reader_ends()[k] == initial[k].reader_slots()[j].unwrap());
                }
                assert forall|k: int| 0 <= k < node.width() implies (#[trigger] node.reader_ends()[k]).rows_have_room() by {
                    assert(node.reader_ends()[k] == initial[k].reader_slots()[j].unwrap());
                }
                assert forall|reads: nat| reads < u16::MAX implies #[trigger] node.readers_room(reads) by {
                    assert forall|k: int| 0 <= k < node.width() implies (#[trigger] node.reader_ends()[k]).rows_room(reads) by {
                        assert(node.reader_ends()[k] == initial[k].reader_slots()[j].unwrap());
                        assert(initial[k].reader_slots()[j].unwrap().fresh());
                    }
                }
            }
            assert forall|k: int| 0 <= k < capacity implies (#[trigger] r.slots()[k]).unwrap().own_register().wired(
                Seq::new(capacity as nat, |j: int| r.slots()[j].unwrap().reader_ends()[k]),
            ) by {
                let own = r.slots()[k].unwrap().own_register();
                let got = Seq::new(capacity as nat, |j: int| r.slots()[j].unwrap().reader_ends()[k]);
                let orig = Seq::new(capacity as nat, |j: int| initial[k].reader_slots()[j].unwrap());
                assert(got =~= orig);
                assert(own.diagonal_writers() == initial[k].diagonal_writers());
            }
        }
        r
    }

    /// Law: a participant is handed out once; asking for it again gives nothing.
    pub proof fn lemma_participant_handed_out_once(before: Self, after: Self, n: int)
        requires
            0 <= n < before.capacity(),
            after.slots() == before.slots().update(n, None),
        ensures
            after.slots()[n] is None,
    {
    }

    /// Hands out participant `n`, once: `None` when `n` is out of range or that
    /// participant was already handed out.
    pub fn get_nth_reader(&mut self, n: usize) -> (r: Option<AtomicMRMWReaderWriter>)
        ensures
            n < old(self).capacity() ==> {
                &&& r == old(self).slots()[n as int]
                &&& final(self).slots() == old(self).slots().update(n as int, None)
            },
            n >= old(self).capacity() ==> r is None && final(self).slots() == old(self).slots(),
    {
        if n < self.readers_writers.len() {
            self.readers_writers[n].take()
        } else {
            None
        }
    }
}

} // verus!
