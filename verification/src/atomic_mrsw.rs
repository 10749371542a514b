use vstd::prelude::*;

use crate::atomic_srsw::{self, lemma_feeds_kept, srsw_newer, AtomicSRSWReader, AtomicSRSWWriter};
use crate::stamped_values::{newest_index_u16, spec_newest_u16, StampedValue};

verus! {

/// The packed integer for `stamp` and `value` as the multi-reader register stores
/// it: eight value bits, and the low four bits of the stamp above them, twelve bits in
/// all, which is what the single-reader registers underneath carry.
pub open spec fn mrsw_pack(stamp: u8, value: u8) -> u16 {
    StampedValue::<u16, 8>::pack((stamp & 15u8) as u16, value as u16)
}

proof fn lemma_eight_bit_mask()
    ensures
        StampedValue::<u16, 8>::value_mask() == 255,
{
    assert(((1u32 << 8usize) - 1) as u16 == 255u16) by (bit_vector);
}

proof fn lemma_pack8(stamp: u16, value: u16)
    by (bit_vector)
    requires
        stamp <= 15u16,
        value <= 255u16,
    ensures
        ((stamp << 8usize) | value) & 255u16 == value,
        ((stamp << 8usize) | value) >> 8usize == stamp,
        ((stamp << 8usize) | value) <= 4095u16,
{
}

proof fn lemma_low_nibble(stamp: u8)
    by (bit_vector)
    ensures
        stamp & 15u8 <= 15u8,
{
}

proof fn lemma_byte_fits(x: u16)
    by (bit_vector)
    ensures
        x & 255u16 <= 255u16,
{
}

/// Law: a reader returns the value of the latest write when the newest stamp among
/// its observations is that write's and every observation with that stamp is that
/// write's packed integer: what a read gives back of the write it follows.
pub proof fn lemma_read_returns_written(obs: Seq<u16>, i: int, stamp: u8, value: u8)
    requires
        0 <= i < obs.len(),
        obs[i] == mrsw_pack(stamp, value),
        forall|j: int| 0 <= j < obs.len() ==> (#[trigger] obs[j]) >> 8usize <= obs[i] >> 8usize,
        forall|j: int| 0 <= j < obs.len() && (#[trigger] obs[j]) >> 8usize == obs[i] >> 8usize ==> obs[j] == obs[i],
    ensures
        obs[spec_newest_u16(obs, 8usize)] & 255u16 == value as u16,
{
    crate::stamped_values::lemma_newest_is_latest_u16(obs, i, 8usize);
    lemma_low_nibble(stamp);
    lemma_pack8((stamp & 15u8) as u16, value as u16);
}

/// The read end `me` of an atomic multi-reader single-writer register: it reads the
/// column `me` of a matrix of atomic single-reader registers and writes the row `me`
/// (all but the diagonal entry, which the writer writes).
pub struct AtomicMRSWReader {
    column: Vec<AtomicSRSWReader>,
    row: Vec<Option<AtomicSRSWWriter>>,
}

/// An atomic multi-reader single-writer register of bytes, built from a
/// square matrix of atomic single-reader single-writer registers.
pub struct AtomicMRSW {
    last_stamp: u8,
    readers: Vec<Option<AtomicMRSWReader>>,
    diagonal: Vec<AtomicSRSWWriter>,
}

impl AtomicMRSWReader {
    /// The column entries this reader reads, one per row of the matrix.
    pub closed spec fn columns(&self) -> Seq<AtomicSRSWReader> {
        self.column@
    }

    /// The row entries this reader writes; `None` at its own (diagonal) index.
    pub closed spec fn rows(&self) -> Seq<Option<AtomicSRSWWriter>> {
        self.row@
    }

    pub open spec fn width(&self) -> nat {
        self.columns().len()
    }

    pub open spec fn wf(&self) -> bool {
        &&& self.width() > 0
        &&& self.rows().len() == self.width()
        &&& forall|i: int| 0 <= i < self.width() ==> (#[trigger] self.columns()[i]).wf()
        &&& forall|j: int| 0 <= j < self.width() && (#[trigger] self.rows()[j]) is Some ==> self.rows()[j].unwrap().wf()
    }

    /// As built: every column entry has returned 0 with stamp 0, every row entry
    /// has written nothing yet, so there is room for reads.
    pub open spec fn fresh(&self) -> bool {
        &&& forall|i: int| 0 <= i < self.width() ==> (#[trigger] self.columns()[i]).last().raw() == 0
        &&& forall|j: int| 0 <= j < self.rows().len() && (#[trigger] self.rows()[j]) is Some ==> self.rows()[j].unwrap().stamp() == 0
        &&& self.rows_have_room()
        &&& forall|reads: nat| reads < u16::MAX ==> #[trigger] self.rows_room(reads)
    }

    /// No row entry is out of stamps.
    pub open spec fn rows_have_room(&self) -> bool {
        self.rows_room(0)
    }

    /// Every row entry has stamps left for `reads` more reads and one after them.
    pub open spec fn rows_room(&self, reads: nat) -> bool {
        forall|j: int| 0 <= j < self.rows().len() && (#[trigger] self.rows()[j]) is Some ==> self.rows()[j].unwrap().stamp() + reads < u16::MAX
    }

    /// Having observed `obs` in its column, starting from `before`, this reader
    /// returned `r`, the value of the newest observation, and wrote that observation to
    /// every row entry it holds.
    pub open spec fn answered(&self, before: &Self, obs: Seq<u16>, r: u8) -> bool {
        let newest = obs[spec_newest_u16(obs, 8usize)];
        &&& obs.len() == before.width()
        &&& r == newest & 255u16
        &&& self.rows().len() == before.rows().len()
        &&& forall|j: int| 0 <= j < self.rows().len() ==> {
            &&& ((#[trigger] self.rows()[j]) is Some <==> before.rows()[j] is Some)
            &&& self.rows()[j] is Some ==> {
                &&& self.rows()[j].unwrap().wf()
                &&& self.rows()[j].unwrap().value() == newest
                &&& self.rows()[j].unwrap().stamp() == before.rows()[j].unwrap().stamp() + 1
                &&& self.rows()[j].unwrap().register().same_wiring(&before.rows()[j].unwrap().register())
            }
        }
    }

    /// Column entry `i` made one new observation of its register since `before`, and
    /// what it keeps is the newer of that observation and what it kept before.
    pub open spec fn read_column_anew(&self, before: &Self, i: int) -> bool {
        let now = self.columns()[i];
        let then = before.columns()[i];
        &&& now.observations().len() == then.observations().len() + 1
        &&& now.observations().drop_last() == then.observations()
        &&& now.last().raw() == srsw_newer(then.last().raw(), now.observations().last())
    }

    /// `obs` is what the column entries returned last, in order.
    pub open spec fn saw_columns(&self, obs: Seq<u16>) -> bool {
        &&& obs.len() == self.width()
        &&& forall|i: int| 0 <= i < self.width() ==> #[trigger] obs[i] == self.columns()[i].last().spec_value()
    }

    /// Whether a read fits: no row entry may run out of stamps.
    pub fn can_read(&self) -> (r: bool)
        ensures
            r == self.rows_have_room(),
    {
        let n = self.row.len();
        let mut j: usize = 0;
        while j < n
            invariant
                j <= n,
                n == self.rows().len(),
                forall|k: int| 0 <= k < j && (#[trigger] self.rows()[k]) is Some ==> self.rows()[k].unwrap().stamp() < u16::MAX,
            decreases n - j,
        {
            match &self.row[j] {
                Some(w) => {
                    if !w.can_write() {
                        return false;
                    }
                },
                None => {},
            }
            j = j + 1;
        }
        true
    }

    /// Takes in one observation of every column entry, returns the value of the
    /// newest one (by stamp; the last among equals) and writes that observation to the
    /// row entries, so that later readers see it.
    pub fn accept_observations(&mut self, seen: &Vec<u16>) -> (r: u8)
        requires
            old(self).wf(),
            old(self).rows_have_room(),
            seen@.len() == old(self).width(),
            forall|i: int| 0 <= i < seen@.len() ==> #[trigger] seen@[i] <= 4095,
        ensures
            final(self).wf(),
            final(self).columns() == old(self).columns(),
            final(self).answered(old(self), seen@, r),
            forall|reads: nat| old(self).rows_room(reads + 1) ==> #[trigger] final(self).rows_room(reads),
    {
        let ghost before = *self;
        let k = newest_index_u16(seen, 8);
        let most_recent = seen[k];
        let n = self.row.len();
        let mut j: usize = 0;
        while j < n
            invariant
                j <= n,
                n == self.rows().len(),
                n == before.rows().len(),
                before.wf(),
                before.rows_have_room(),
                most_recent <= 4095,
                self.columns() == before.columns(),
                forall|i: int| 0 <= i < n ==> {
                    &&& ((#[trigger] self.rows()[i]) is Some <==> before.rows()[i] is Some)
                    &&& i >= j ==> self.rows()[i] == before.rows()[i]
                    &&& (i < j && self.rows()[i] is Some) ==> {
                        &&& self.rows()[i].unwrap().wf()
                        &&& self.rows()[i].unwrap().value() == most_recent
                        &&& self.rows()[i].unwrap().stamp() == before.rows()[i].unwrap().stamp() + 1
                        &&& self.rows()[i].unwrap().register().same_wiring(&before.rows()[i].unwrap().register())
                    }
                },
            decreases n - j,
        {
            let taken = self.row[j].take();
            match taken {
                Some(mut writer) => {
                    writer.write(most_recent);
                    self.row.set(j, Some(writer));
                },
                None => {},
            }
            j = j + 1;
        }
        proof {
            lemma_eight_bit_mask();
            lemma_byte_fits(most_recent);
        }
        let stamped = StampedValue::<u16, 8>::from_raw(most_recent);
        let v = stamped.value();
        v as u8
    }

    /// Reads the register: reads every column entry once, then returns the value of
    /// the newest observation and writes it to the row entries. What the column
    /// entries return depends on the writers; the contract says what holds of every
    /// observation.
    pub fn read(&mut self) -> (r: u8)
        requires
            old(self).wf(),
            old(self).rows_have_room(),
        ensures
            final(self).wf(),
            final(self).width() == old(self).width(),
            forall|i: int| 0 <= i < final(self).width() ==> {
                &&& (#[trigger] final(self).columns()[i]).register() == old(self).columns()[i].register()
                &&& final(self).columns()[i].last().spec_stamp() >= old(self).columns()[i].last().spec_stamp()
            },
            exists|obs: Seq<u16>| #[trigger] final(self).answered(old(self), obs, r) && final(self).saw_columns(obs),
            forall|i: int| 0 <= i < final(self).width() ==> #[trigger] final(self).read_column_anew(old(self), i),
            forall|reads: nat| old(self).rows_room(reads + 1) ==> #[trigger] final(self).rows_room(reads),
    {
        let ghost before = *self;
        let n = self.column.len();
        let mut seen: Vec<u16> = Vec::with_capacity(n);
        let mut i: usize = 0;
        while i < n
            invariant
                i <= n,
                n == self.columns().len(),
                seen@.len() == i,
                forall|t: int| 0 <= t < i ==> #[trigger] seen@[t] == self.columns()[t].last().spec_value() && seen@[t] <= 4095,
                self.rows() == before.rows(),
                self.width() == before.width(),
                before.wf(),
                forall|t: int| 0 <= t < n ==> {
                    &&& (#[trigger] self.columns()[t]).wf()
                    &&& self.columns()[t].register() == before.columns()[t].register()
                    &&& self.columns()[t].last().spec_stamp() >= before.columns()[t].last().spec_stamp()
                },
                forall|t: int| 0 <= t < i ==> #[trigger] self.read_column_anew(&before, t),
                forall|t: int| i <= t < n ==> #[trigger] self.columns()[t] == before.columns()[t],
            decreases n - i,
        {
            let ghost prev = *self;
            let v = self.column[i].read();
            seen.push(v);
            proof {
                assert(prev.columns()[i as int] == before.columns()[i as int]);
                assert forall|t: int| 0 <= t < i + 1 implies #[trigger] self.read_column_anew(&before, t) by {
                    if t < i {
                        assert(self.columns()[t] == prev.columns()[t]);
                        assert(prev.read_column_anew(&before, t));
                    }
                }
            }
            i = i + 1;
        }
        let ghost read_state = *self;
        let r = self.accept_observations(&seen);
        assert forall|t: int| 0 <= t < self.width() implies #[trigger] self.read_column_anew(&before, t) by {
            assert(self.columns()[t] == read_state.columns()[t]);
            assert(read_state.read_column_anew(&before, t));
        }
        assert(self.answered(&before, seen@, r) && self.saw_columns(seen@));
        r
    }
}

/// Law: no new-old inversion through the rows. Reader `j` propagates what it returns
/// to column entry `j` of every other reader. When a read's new observation of
/// column entry `j` is the pair that the entry's writer holds (no write to the entry
/// overlapping it), with a stamp not behind what the entry kept, the read takes that
/// pair's value, returns a value whose stamp is at least as new, and returns that
/// very value when every other observation at least as new is the same pair.
pub proof fn lemma_read_sees_propagated(
    after: AtomicMRSWReader,
    before: AtomicMRSWReader,
    obs: Seq<u16>,
    r: u8,
    j: int,
    stamp: u16,
    value: u16,
)
    requires
        after.answered(&before, obs, r),
        after.saw_columns(obs),
        0 <= j < before.width(),
        after.read_column_anew(&before, j),
        after.columns()[j].observations().last() == Some(atomic_srsw::srsw_pack(stamp, value) as usize),
        (stamp & 15u16) >= before.columns()[j].last().spec_stamp(),
        value <= 4095,
    ensures
        obs[j] == value,
        obs[spec_newest_u16(obs, 8usize)] >> 8usize >= value >> 8usize,
        (forall|i: int| 0 <= i < obs.len() && (#[trigger] obs[i]) >> 8usize >= value >> 8usize ==> obs[i] == value)
            ==> r == value & 255u16,
{
    let then = before.columns()[j].last().raw();
    atomic_srsw::lemma_read_returns_written(then, stamp, value);
    let packed = atomic_srsw::srsw_pack(stamp, value);
    assert((packed as usize) as u16 == packed);
    assert(after.columns()[j].last().raw() == packed);
    assert(((1u32 << 12usize) - 1) as u16 == 4095u16) by (bit_vector);
    assert(obs[j] == after.columns()[j].last().spec_value());
    crate::stamped_values::lemma_newest_exists_u16(obs, 8usize);
}

impl AtomicMRSW {
    /// The stamp of the last write.
    pub closed spec fn stamp(&self) -> u8 {
        self.last_stamp
    }

    /// The reader ends that have not been handed out yet (`None` once taken).
    pub closed spec fn reader_slots(&self) -> Seq<Option<AtomicMRSWReader>> {
        self.readers@
    }

    /// The diagonal entries of the matrix, which the writer writes.
    pub closed spec fn diagonal_writers(&self) -> Seq<AtomicSRSWWriter> {
        self.diagonal@
    }

    pub open spec fn capacity(&self) -> nat {
        self.diagonal_writers().len()
    }

    pub open spec fn wf(&self) -> bool {
        &&& self.reader_slots().len() == self.capacity()
        &&& forall|i: int| 0 <= i < self.capacity() ==> {
            &&& (#[trigger] self.diagonal_writers()[i]).wf()
            &&& self.diagonal_writers()[i].stamp() == self.stamp() as u16
        }
        &&& forall|i: int| 0 <= i < self.capacity() && (#[trigger] self.reader_slots()[i]) is Some ==> {
            &&& self.reader_slots()[i].unwrap().wf()
            &&& self.reader_slots()[i].unwrap().width() == self.capacity()
        }
    }

    /// The matrix wiring of the readers handed out so far: reader `j` reads entry
    /// `(i, j)` of the matrix, which the writer writes when `i == j` and reader `i`
    /// writes otherwise.
    pub open spec fn wired(&self, readers: Seq<AtomicMRSWReader>) -> bool {
        &&& readers.len() == self.capacity()
        &&& forall|i: int, j: int| 0 <= i < self.capacity() && 0 <= j < self.capacity() ==> {
            &&& (i == j ==> (#[trigger] readers[j].rows()[i]) is None
                && self.diagonal_writers()[i].feeds(&readers[j].columns()[i]))
            &&& (i != j ==> readers[i].rows()[j] is Some
                && readers[i].rows()[j].unwrap().feeds(&readers[j].columns()[i]))
        }
    }

    /// Whether another write fits: the stamp must not overflow.
    pub fn can_write(&self) -> (r: bool)
        ensures
            r == (self.stamp() < u8::MAX),
    {
        self.last_stamp < u8::MAX
    }

    /// Creates the register for `capacity` readers, holding 0 with stamp 0.
    pub fn new(capacity: usize) -> (r: Self)
        ensures
            r.wf(),
            r.capacity() == capacity,
            r.stamp() == 0,
            forall|j: int| 0 <= j < capacity ==> (#[trigger] r.reader_slots()[j]) is Some,
            r.wired(Seq::new(capacity as nat, |j: int| r.reader_slots()[j].unwrap())),
            forall|i: int| 0 <= i < capacity ==> (#[trigger] r.diagonal_writers()[i]).value() == 0,
            forall|j: int| 0 <= j < capacity ==> (#[trigger] r.reader_slots()[j]).unwrap().fresh(),
    {
        // For clarity, first build the columns and rows of the matrix.
        let mut columns: Vec<Vec<AtomicSRSWReader>> = Vec::with_capacity(capacity);
        let mut rows: Vec<Vec<Option<AtomicSRSWWriter>>> = Vec::with_capacity(capacity);
        let mut k: usize = 0;
        while k < capacity
            invariant
                k <= capacity,
                columns@.len() == k,
                rows@.len() == k,
                forall|t: int| 0 <= t < k ==> (#[trigger] columns@[t])@.len() == 0,
                forall|t: int| 0 <= t < k ==> (#[trigger] rows@[t])@.len() == 0,
            decreases capacity - k,
        {
            columns.push(Vec::new());
            rows.push(Vec::new());
            k = k + 1;
        }
        let mut diagonal: Vec<AtomicSRSWWriter> = Vec::with_capacity(capacity);
        let mut i: usize = 0;
        while i < capacity
            invariant
                i <= capacity,
                columns@.len() == capacity,
                rows@.len() == capacity,
                diagonal@.len() == i,
                forall|a: int| 0 <= a < capacity ==> (#[trigger] columns@[a])@.len() == i,
                forall|a: int| 0 <= a < capacity ==> (#[trigger] rows@[a])@.len() == (if a < i { capacity as int } else { 0 }),
                forall|a: int| 0 <= a < i ==> (#[trigger] diagonal@[a]).wf() && diagonal@[a].stamp() == 0 && diagonal@[a].value() == 0,
                forall|a: int, b: int| 0 <= a < i && 0 <= b < capacity ==> (#[trigger] columns@[b]@[a]).wf()
                    && columns@[b]@[a].last().raw() == 0,
                forall|a: int, b: int| 0 <= a < i && 0 <= b < capacity ==> {
                    &&& (a == b ==> (#[trigger] rows@[a]@[b]) is None && diagonal@[a].feeds(&columns@[b]@[a]))
                    &&& (a != b ==> rows@[a]@[b] is Some && rows@[a]@[b].unwrap().wf()
                        && rows@[a]@[b].unwrap().stamp() == 0
                        && rows@[a]@[b].unwrap().feeds(&columns@[b]@[a]))
                },
            decreases capacity - i,
        {
            let mut j: usize = 0;
            while j < capacity
                invariant
                    i < capacity,
                    j <= capacity,
                    columns@.len() == capacity,
                    rows@.len() == capacity,
                    diagonal@.len() == (if j > i { i + 1 } else { i as int }),
                    forall|b: int| 0 <= b < capacity ==> (#[trigger] columns@[b])@.len() == (if b < j { i + 1 } else { i as int }),
                    forall|a: int| 0 <= a < capacity ==> (#[trigger] rows@[a])@.len() == (if a < i { capacity as int } else if a == i { j as int } else { 0 }),
                    forall|a: int| 0 <= a < diagonal@.len() ==> (#[trigger] diagonal@[a]).wf() && diagonal@[a].stamp() == 0 && diagonal@[a].value() == 0,
                    forall|a: int, b: int| 0 <= b < capacity && 0 <= a < columns@[b]@.len() ==> (#[trigger] columns@[b]@[a]).wf()
                        && columns@[b]@[a].last().raw() == 0,
                    forall|a: int, b: int| 0 <= a < i && 0 <= b < capacity ==> {
                        &&& (a == b ==> (#[trigger] rows@[a]@[b]) is None && diagonal@[a].feeds(&columns@[b]@[a]))
                        &&& (a != b ==> rows@[a]@[b] is Some && rows@[a]@[b].unwrap().wf()
                            && rows@[a]@[b].unwrap().stamp() == 0
                            && rows@[a]@[b].unwrap().feeds(&columns@[b]@[a]))
                    },
                    forall|b: int| 0 <= b < j ==> {
                        &&& (i == b ==> (#[trigger] rows@[i as int]@[b]) is None && diagonal@[i as int].feeds(&columns@[b]@[i as int]))
                        &&& (i != b ==> rows@[i as int]@[b] is Some && rows@[i as int]@[b].unwrap().wf()
                            && rows@[i as int]@[b].unwrap().stamp() == 0
                            && rows@[i as int]@[b].unwrap().feeds(&columns@[b]@[i as int]))
                    },
                decreases capacity - j,
            {
                let (r, w) = atomic_srsw::new();
                if i == j {
                    diagonal.push(w);
                    rows[i].push(None);
                } else {
                    rows[i].push(Some(w));
                }
                columns[j].push(r);
                j = j + 1;
            }
            i = i + 1;
        }
        let ghost all_columns = columns@;
        let ghost all_rows = rows@;
        let mut readers: Vec<Option<AtomicMRSWReader>> = Vec::with_capacity(capacity);
        let mut k: usize = 0;
        while k < capacity
            invariant
                k <= capacity,
                all_columns.len() == capacity,
                all_rows.len() == capacity,
                columns@ == all_columns.subrange(k as int, capacity as int),
                rows@ == all_rows.subrange(k as int, capacity as int),
                readers@.len() == k,
                forall|a: int| 0 <= a < k ==> (#[trigger] readers@[a]) is Some
                    && readers@[a].unwrap().columns() == all_columns[a]@
                    && readers@[a].unwrap().rows() == all_rows[a]@,
            decreases capacity - k,
        {
            let column = columns.remove(0);
            let row = rows.remove(0);
            readers.push(Some(AtomicMRSWReader { column, row }));
            k = k + 1;
        }
        let r = AtomicMRSW { last_stamp: 0, readers, diagonal };
        proof {
            let rs = Seq::new(capacity as nat, |j: int| r.reader_slots()[j].unwrap());
            assert forall|a: int, b: int| 0 <= a < capacity && 0 <= b < capacity implies {
                &&& (a == b ==> (#[trigger] rs[b].rows()[a]) is None
                    && r.diagonal_writers()[a].feeds(&rs[b].columns()[a]))
                &&& (a != b ==> rs[a].rows()[b] is Some
                    && rs[a].rows()[b].unwrap().feeds(&rs[b].columns()[a]))
            } by {
                assert(rs[b].columns() == all_columns[b]@);
                assert(rs[a].rows() == all_rows[a]@);
                assert(rs[b].rows() == all_rows[b]@);
            }
            assert forall|a: int| 0 <= a < capacity && (#[trigger] r.reader_slots()[a]) is Some implies {
                &&& r.reader_slots()[a].unwrap().wf()
                &&& r.reader_slots()[a].unwrap().width() == r.capacity()
            } by {
                let rd = r.reader_slots()[a].unwrap();
                assert(rd.columns() == all_columns[a]@);
                assert(rd.rows() == all_rows[a]@);
                assert forall|b: int| 0 <= b < rd.width() implies (#[trigger] rd.columns()[b]).wf() by {}
                assert forall|b: int| 0 <= b < rd.width() && (#[trigger] rd.rows()[b]) is Some implies rd.rows()[b].unwrap().wf() by {}
                assert(rd.width() > 0);
            }
            assert forall|a: int| 0 <= a < capacity implies (#[trigger] r.reader_slots()[a]).unwrap().fresh() by {
                let rd = r.reader_slots()[a].unwrap();
                assert(rd.columns() == all_columns[a]@);
                assert(rd.rows() == all_rows[a]@);
                assert forall|b: int| 0 <= b < rd.width() && (#[trigger] rd.rows()[b]) is Some implies rd.rows()[b].unwrap().stamp() == 0 by {}
                assert forall|b: int| 0 <= b < rd.width() implies (#[trigger] rd.columns()[b]).last().raw() == 0 by {}
                assert forall|reads: nat| reads < u16::MAX implies #[trigger] rd.rows_room(reads) by {}
            }
        }
        r
    }

    /// Law: a reader end is handed out once; asking for it again gives nothing.
    pub proof fn lemma_reader_handed_out_once(before: Self, after: Self, n: int)
        requires
            before.wf(),
            0 <= n < before.capacity(),
            after.reader_slots() == before.reader_slots().update(n, None),
        ensures
            after.reader_slots()[n] is None,
    {
    }

    /// Hands out the reader end `n`, once: `None` when `n` is out of range or that
    /// end was already handed out.
    pub fn get_nth_reader(&mut self, n: usize) -> (r: Option<AtomicMRSWReader>)
        requires
            old(self).wf(),
        ensures
            final(self).wf(),
            final(self).stamp() == old(self).stamp(),
            final(self).diagonal_writers() == old(self).diagonal_writers(),
            n < old(self).capacity() ==> {
                &&& r == old(self).reader_slots()[n as int]
                &&& final(self).reader_slots() == old(self).reader_slots().update(n as int, None)
            },
            n >= old(self).capacity() ==> r is None && final(self).reader_slots() == old(self).reader_slots(),
    {
        if n < self.readers.len() {
            self.readers[n].take()
        } else {
            None
        }
    }

    /// Writes `value` with the next stamp to every diagonal entry of the matrix. The
    /// packed integer keeps only the low four bits of the stamp, so after 15 writes the
    /// stamp wraps and a reader may then prefer an older value that it saw propagated.
    pub fn write(&mut self, value: u8)
        requires
            old(self).wf(),
            old(self).stamp() < u8::MAX,
        ensures
            final(self).wf(),
            final(self).stamp() == old(self).stamp() + 1,
            final(self).capacity() == old(self).capacity(),
            final(self).reader_slots() == old(self).reader_slots(),
            forall|i: int| 0 <= i < final(self).capacity() ==> {
                &&& (#[trigger] final(self).diagonal_writers()[i]).value() == mrsw_pack(final(self).stamp(), value)
                &&& final(self).diagonal_writers()[i].register().same_wiring(&old(self).diagonal_writers()[i].register())
            },
    {
        proof {
            lemma_eight_bit_mask();
        }
        let ghost before = *self;
        self.last_stamp = self.last_stamp + 1;
        let stamp_bits = self.last_stamp & 15;
        proof {
            lemma_low_nibble(self.last_stamp);
            lemma_pack8(stamp_bits as u16, value as u16);
        }
        let stamped_value = StampedValue::<u16, 8>::new(stamp_bits as u16, value as u16);
        let packed = stamped_value.to_u16();
        let n = self.diagonal.len();
        let mut k: usize = 0;
        while k < n
            invariant
                k <= n,
                n == self.diagonal@.len(),
                n == before.capacity(),
                before.wf(),
                self.last_stamp == before.stamp() + 1,
                self.last_stamp < u8::MAX + 1,
                self.readers@ == before.readers@,
                packed == mrsw_pack(self.last_stamp, value),
                packed <= 4095,
                forall|t: int| 0 <= t < n ==> {
                    &&& (#[trigger] self.diagonal@[t]).wf()
                    &&& self.diagonal@[t].register().same_wiring(&before.diagonal_writers()[t].register())
                    &&& t < k ==> self.diagonal@[t].stamp() == self.last_stamp as u16 && self.diagonal@[t].value() == packed
                    &&& t >= k ==> self.diagonal@[t] == before.diagonal_writers()[t]
                },
            decreases n - k,
        {
            self.diagonal[k].write(packed);
            k = k + 1;
        }
    }
}

} // verus!
