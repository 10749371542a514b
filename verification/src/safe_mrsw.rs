use vstd::prelude::*;

use crate::safe_registers::{safe_boolean_srsw, SafeReader, SafeWriter, FLICKER_NORMAL};

verus! {

/// A safe multi-reader single-writer boolean register: one safe single-reader
/// register per reader, all written together.
pub struct SafeMRSW {
    readers: Vec<Option<SafeReader>>,
    writers: Vec<SafeWriter>,
}

impl SafeMRSW {
    /// The reader ends that have not been handed out yet (`None` once taken).
    pub closed spec fn reader_slots(&self) -> Seq<Option<SafeReader>> {
        self.readers@
    }

    /// The write ends, one per reader.
    pub closed spec fn writer_ends(&self) -> Seq<SafeWriter> {
        self.writers@
    }

    pub open spec fn capacity(&self) -> nat {
        self.writer_ends().len()
    }

    /// Every reader end still held reads the cell of the writer with its index.
    pub open spec fn wf(&self) -> bool {
        &&& self.reader_slots().len() == self.writer_ends().len()
        &&& forall|i: int|
            0 <= i < self.reader_slots().len() && (#[trigger] self.reader_slots()[i]) is Some
                ==> self.reader_slots()[i].unwrap().cell() == self.writer_ends()[i].cell()
    }

    /// Every copy holds `value` as its last completed write.
    pub open spec fn holds(&self, value: bool) -> bool {
        forall|i: int| 0 <= i < self.capacity() ==> (#[trigger] self.writer_ends()[i]).last_written() == value
    }

    /// Same cells and flicker modes as `other`.
    pub open spec fn same_wiring(&self, other: &Self) -> bool {
        &&& self.capacity() == other.capacity()
        &&& forall|i: int|
            0 <= i < self.capacity() ==> (#[trigger] self.writer_ends()[i]).cell() == other.writer_ends()[i].cell()
                && self.writer_ends()[i].mode() == other.writer_ends()[i].mode()
    }

    /// Creates the register for `capacity` readers; every copy holds `false`.
    pub fn new(capacity: usize) -> (r: Self)
        ensures
            r.wf(),
            r.capacity() == capacity,
            r.holds(false),
            forall|i: int| 0 <= i < capacity ==> (#[trigger] r.reader_slots()[i]) is Some,
            forall|i: int| 0 <= i < capacity ==> (#[trigger] r.writer_ends()[i]).mode() == FLICKER_NORMAL,
    {
        let mut readers: Vec<Option<SafeReader>> = Vec::with_capacity(capacity);
        let mut writers: Vec<SafeWriter> = Vec::with_capacity(capacity);
        let mut k: usize = 0;
        while k < capacity
            invariant
                k <= capacity,
                readers@.len() == k,
                writers@.len() == k,
                forall|i: int| 0 <= i < k ==> (#[trigger] readers@[i]) is Some
                    && readers@[i].unwrap().cell() == writers@[i].cell(),
                forall|i: int| 0 <= i < k ==> (#[trigger] writers@[i]).last_written() == false
                    && writers@[i].mode() == FLICKER_NORMAL,
            decreases capacity - k,
        {
            let (r, w) = safe_boolean_srsw();
            readers.push(Some(r));
            writers.push(w);
            k = k + 1;
        }
        SafeMRSW { readers, writers }
    }

    /// Hands out the reader end `n`, once: `None` when `n` is out of range or that
    /// end was already handed out.
    pub fn get_nth_reader(&mut self, n: usize) -> (r: Option<SafeReader>)
        requires
            old(self).wf(),
        ensures
            final(self).wf(),
            final(self).writer_ends() == old(self).writer_ends(),
            n < old(self).capacity() ==> {
                &&& r == old(self).reader_slots()[n as int]
                &&& final(self).reader_slots() == old(self).reader_slots().update(n as int, None)
            },
            n >= old(self).capacity() ==> r is None && final(self).reader_slots() == old(self).reader_slots(),
            r matches Some(reader) ==> reader.cell() == old(self).writer_ends()[n as int].cell(),
    {
        if n < self.readers.len() {
            self.readers[n].take()
        } else {
            None
        }
    }

    /// Writes `value` to every copy, one after the other.
    pub fn write(&mut self, value: bool)
        requires
            old(self).wf(),
        ensures
            final(self).wf(),
            final(self).holds(value),
            final(self).same_wiring(old(self)),
            final(self).reader_slots() == old(self).reader_slots(),
            forall|i: int| 0 <= i < final(self).capacity() ==>
                (#[trigger] final(self).writer_ends()[i]).wrote(&old(self).writer_ends()[i], value),
    {
        let ghost old_self = *self;
        let n = self.writers.len();
        let mut k: usize = 0;
        while k < n
            invariant
                k <= n,
                n == self.writers@.len(),
                self.readers@ == old_self.readers@,
                self.same_wiring(&old_self),
                old_self.wf(),
                forall|i: int| 0 <= i < k ==> (#[trigger] self.writers@[i]).last_written() == value
                    && self.writers@[i].wrote(&old_self.writers@[i], value),
                forall|i: int| k <= i < n ==> #[trigger] self.writers@[i] == old_self.writers@[i],
            decreases n - k,
        {
            self.writers[k].write(value);
            k = k + 1;
        }
    }

    /// Sets the flicker mode of every copy's writer.
    pub fn set_flicker_mode(&mut self, mode: u8)
        requires
            old(self).wf(),
        ensures
            final(self).wf(),
            final(self).capacity() == old(self).capacity(),
            final(self).reader_slots() == old(self).reader_slots(),
            forall|i: int| 0 <= i < final(self).capacity() ==> {
                &&& (#[trigger] final(self).writer_ends()[i]).mode() == mode
                &&& final(self).writer_ends()[i].cell() == old(self).writer_ends()[i].cell()
                &&& final(self).writer_ends()[i].last_written() == old(self).writer_ends()[i].last_written()
            },
    {
        let ghost old_self = *self;
        let n = self.writers.len();
        let mut k: usize = 0;
        while k < n
            invariant
                k <= n,
                n == self.writers@.len(),
                self.readers@ == old_self.readers@,
                old_self.wf(),
                forall|i: int| 0 <= i < n ==> {
                    &&& (#[trigger] self.writers@[i]).cell() == old_self.writers@[i].cell()
                    &&& self.writers@[i].last_written() == old_self.writers@[i].last_written()
                    &&& i < k ==> self.writers@[i].mode() == mode
                    &&& i >= k ==> self.writers@[i].mode() == old_self.writers@[i].mode()
                },
            decreases n - k,
        {
            self.writers[k].set_flicker_mode(mode);
            k = k + 1;
        }
    }
}

} // verus!
