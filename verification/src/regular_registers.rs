use vstd::prelude::*;

use crate::safe_mrsw::SafeMRSW;
use crate::safe_registers::{SafeReader, FLICKER_NORMAL};

use std::sync::atomic::AtomicBool;
use std::sync::Arc;

verus! {

/// A regular multi-reader single-writer boolean register built on a safe one: the
/// writer only writes when the value changes, so a read that overlaps a write
/// returns either the old or the new value.
pub struct RegularMRSW {
    inner: SafeMRSW,
    last_written: bool,
}

/// The read end of a regular boolean register.
pub struct RegularReader(SafeReader);

impl RegularReader {
    /// The shared cell this reader observes.
    pub closed spec fn cell(&self) -> Arc<AtomicBool> {
        self.0.cell()
    }

    /// Reads the register. Nothing is promised of the result: it depends on the writer.
    pub fn read(&self) -> bool {
        self.0.read()
    }
}

impl RegularMRSW {
    /// The safe register underneath.
    pub closed spec fn safe(&self) -> SafeMRSW {
        self.inner
    }

    /// The value of the last completed write.
    pub closed spec fn value(&self) -> bool {
        self.last_written
    }

    pub open spec fn capacity(&self) -> nat {
        self.safe().capacity()
    }

    /// The safe register is well formed and every copy holds the last written value.
    pub open spec fn wf(&self) -> bool {
        &&& self.safe().wf()
        &&& self.safe().holds(self.value())
    }

    /// Same cells, flicker modes and reader ends still held as `other`.
    pub open spec fn same_wiring(&self, other: &Self) -> bool {
        &&& self.safe().same_wiring(&other.safe())
        &&& self.safe().reader_slots() == other.safe().reader_slots()
    }

    /// Whether reader end `n` is still held.
    pub open spec fn has_reader(&self, n: int) -> bool {
        0 <= n < self.capacity() && self.safe().reader_slots()[n] is Some
    }

    /// The cell that reader end `n` observes.
    pub open spec fn reader_cell(&self, n: int) -> Arc<AtomicBool> {
        self.safe().writer_ends()[n].cell()
    }

    /// Creates the register for `capacity` readers, holding `false`.
    pub fn new(capacity: usize) -> (r: Self)
        ensures
            r.wf(),
            r.capacity() == capacity,
            r.value() == false,
            forall|i: int| 0 <= i < capacity ==> #[trigger] r.has_reader(i),
            forall|i: int| 0 <= i < capacity ==> (#[trigger] r.safe().writer_ends()[i]).mode() == FLICKER_NORMAL,
    {
        let inner = SafeMRSW::new(capacity);
        proof {
            assert forall|i: int| 0 <= i < capacity implies #[trigger] inner.reader_slots()[i] is Some by {}
        }
        RegularMRSW { inner, last_written: false }
    }

    /// Hands out the reader end `n`, once: `None` when `n` is out of range or that
    /// end was already handed out.
    pub fn get_nth_reader(&mut self, n: usize) -> (r: Option<RegularReader>)
        requires
            old(self).wf(),
        ensures
            final(self).wf(),
            final(self).value() == old(self).value(),
            final(self).safe().same_wiring(&old(self).safe()),
            r is Some <==> old(self).has_reader(n as int),
            r matches Some(reader) ==> reader.cell() == old(self).reader_cell(n as int),
            forall|i: int| #[trigger] final(self).has_reader(i) <==> old(self).has_reader(i) && i != n,
    {
        let r = self.inner.get_nth_reader(n);
        match r {
            Some(reader) => Some(RegularReader(reader)),
            None => None,
        }
    }

    /// Writes `value`; the safe register underneath is written only when `value`
    /// differs from the last written value.
    pub fn write(&mut self, value: bool)
        requires
            old(self).wf(),
        ensures
            final(self).wf(),
            final(self).value() == value,
            final(self).same_wiring(old(self)),
            old(self).value() == value ==> *final(self) == *old(self),
            old(self).value() != value ==> forall|i: int| 0 <= i < old(self).capacity() ==>
                (#[trigger] final(self).safe().writer_ends()[i]).wrote(&old(self).safe().writer_ends()[i], value),
    {
        if value != self.last_written {
            self.inner.write(value);
            self.last_written = value;
        }
    }

    /// Sets the flicker mode of every safe copy's writer.
    pub fn set_flicker_mode(&mut self, mode: u8)
        requires
            old(self).wf(),
        ensures
            final(self).wf(),
            final(self).value() == old(self).value(),
            final(self).capacity() == old(self).capacity(),
            final(self).safe().reader_slots() == old(self).safe().reader_slots(),
            forall|i: int| 0 <= i < final(self).capacity() ==> {
                &&& (#[trigger] final(self).safe().writer_ends()[i]).mode() == mode
                &&& final(self).safe().writer_ends()[i].cell() == old(self).safe().writer_ends()[i].cell()
            },
    {
        self.inner.set_flicker_mode(mode);
    }
}

} // verus!
