use vstd::prelude::*;

use crate::m_regular::{
    lemma_write_then_first_true, spec_first_true, unary_write, MRegularMRSW, MRegularReader,
};
use crate::stamped_values::StampedValue;

verus! {

/// The number of components of the M-valued register underneath: one per packed
/// (stamp, value) pair.
pub open spec fn srsw_width() -> nat {
    65536
}

/// The packed integer for `stamp` and `value` as the single-reader register stores
/// it: twelve value bits, and the low four bits of the stamp above them.
pub open spec fn srsw_pack(stamp: u16, value: u16) -> u16 {
    StampedValue::<u16, 12>::pack(stamp, value)
}

/// What the reader keeps after observing `observed`, having kept `last`: the observed
/// packed value when its stamp is not older than the kept one, else the kept one. A
/// read that sees no component set observes nothing.
pub open spec fn srsw_newer(last: u16, observed: Option<usize>) -> u16 {
    match observed {
        Some(p) => if (p as u16) >> 12usize >= last >> 12usize { p as u16 } else { last },
        None => last,
    }
}

proof fn lemma_value_fits(x: u16)
    by (bit_vector)
    ensures
        x & 4095u16 <= 4095u16,
{
}

proof fn lemma_twelve_bit_mask()
    ensures
        StampedValue::<u16, 12>::value_mask() == 4095,
{
    assert(((1u32 << 12usize) - 1) as u16 == 4095u16) by (bit_vector);
}

/// The read end of an atomic single-reader single-writer register of 12-bit values,
/// built on an M-valued regular register whose values are (stamp, value) pairs.
pub struct AtomicSRSWReader {
    inner: MRegularReader,
    last_read: StampedValue<u16, 12>,
    seen: Ghost<Seq<Option<usize>>>,
}

/// The write end of an atomic single-reader single-writer register of 12-bit values.
pub struct AtomicSRSWWriter {
    inner: MRegularMRSW,
    last_stamp: u16,
    last_value: Ghost<u16>,
}

impl AtomicSRSWReader {
    /// The M-valued reader underneath.
    pub closed spec fn register(&self) -> MRegularReader {
        self.inner
    }

    /// The stamped value this reader returned last.
    pub closed spec fn last(&self) -> StampedValue<u16, 12> {
        self.last_read
    }

    /// What this reader's reads observed in the register underneath, in order: one
    /// entry per read.
    pub closed spec fn observations(&self) -> Seq<Option<usize>> {
        self.seen@
    }

    pub open spec fn wf(&self) -> bool {
        self.register().width() == srsw_width()
    }

    /// Takes in one observation of the register underneath (`None` when no component
    /// was seen set) and returns the value of the newer of it and the last returned
    /// stamped value, which it keeps. Stamps are compared alone.
    pub fn accept_observation(&mut self, observed: Option<usize>) -> (r: u16)
        requires
            old(self).wf(),
            observed matches Some(p) ==> p < srsw_width(),
        ensures
            final(self).wf(),
            final(self).register() == old(self).register(),
            final(self).last().raw() == srsw_newer(old(self).last().raw(), observed),
            final(self).observations() == old(self).observations(),
            final(self).last().spec_stamp() >= old(self).last().spec_stamp(),
            r == final(self).last().spec_value(),
            r <= 4095,
    {
        proof {
            lemma_twelve_bit_mask();
            lemma_value_fits(self.last_read.raw());
            if let Some(p) = observed {
                lemma_value_fits(p as u16);
            }
        }
        match observed {
            Some(p) => {
                let seen = StampedValue::<u16, 12>::from_raw(p as u16);
                if seen.stamp_at_least(&self.last_read) {
                    self.last_read.update(&seen);
                    seen.value()
                } else {
                    self.last_read.value()
                }
            },
            None => self.last_read.value(),
        }
    }

    /// Reads the register: observes the M-valued register underneath once and
    /// returns the value of the newer of that observation and the last value returned.
    /// What it observes depends on the writer; whatever it is, the stamp kept never
    /// goes back.
    pub fn read(&mut self) -> (r: u16)
        requires
            old(self).wf(),
        ensures
            final(self).wf(),
            final(self).register() == old(self).register(),
            exists|observed: Option<usize>|
                (observed matches Some(p) ==> p < srsw_width())
                && #[trigger] srsw_newer(old(self).last().raw(), observed) == final(self).last().raw(),
            final(self).observations().len() == old(self).observations().len() + 1,
            final(self).observations().drop_last() == old(self).observations(),
            final(self).observations().last() matches Some(p) ==> p < srsw_width(),
            srsw_newer(old(self).last().raw(), final(self).observations().last()) == final(self).last().raw(),
            final(self).last().spec_stamp() >= old(self).last().spec_stamp(),
            r == final(self).last().spec_value(),
            r <= 4095,
    {
        let observed = self.inner.read();
        self.seen = Ghost(self.seen@.push(observed));
        proof {
            let obs = choose|obs: Seq<bool>| obs.len() <= self.inner.width() && crate::m_regular::reads_as(obs, observed);
            if let Some(p) = observed {
                assert(p < obs.len());
            }
        }
        let r = self.accept_observation(observed);
        assert(srsw_newer(old(self).last().raw(), observed) == self.last().raw());
        assert(self.observations().drop_last() =~= old(self).observations());
        r
    }
}

impl AtomicSRSWWriter {
    /// The M-valued register underneath.
    pub closed spec fn register(&self) -> MRegularMRSW {
        self.inner
    }

    /// The stamp of the last write.
    pub closed spec fn stamp(&self) -> u16 {
        self.last_stamp
    }

    /// The value of the last write.
    pub closed spec fn value(&self) -> u16 {
        self.last_value@
    }

    /// The register underneath holds the packed last stamp and value.
    pub open spec fn wf(&self) -> bool {
        &&& self.register().wf()
        &&& self.register().width() == srsw_width()
        &&& self.register().capacity() == 1
        &&& spec_first_true(self.register().bits()) == Some(srsw_pack(self.stamp(), self.value()) as int)
    }

    /// `reader` reads what this writer writes.
    pub open spec fn feeds(&self, reader: &AtomicSRSWReader) -> bool {
        self.register().serves(&reader.register(), 0)
    }

    /// Whether another write fits: the stamp must not overflow.
    pub fn can_write(&self) -> (r: bool)
        ensures
            r == (self.stamp() < u16::MAX),
    {
        self.last_stamp < u16::MAX
    }

    /// Writes `value` with the next stamp: the packed pair goes to the M-valued
    /// register underneath. The packed pair keeps only the low four bits of the stamp,
    /// so after 15 writes the stamp wraps and the reader keeps its older value.
    pub fn write(&mut self, value: u16)
        requires
            old(self).wf(),
            old(self).stamp() < u16::MAX,
            value <= 4095,
        ensures
            final(self).wf(),
            final(self).stamp() == old(self).stamp() + 1,
            final(self).value() == value,
            final(self).register().same_wiring(&old(self).register()),
            final(self).register().capacity() == old(self).register().capacity(),
            forall|i: int| #[trigger] final(self).register().has_reader(i) == old(self).register().has_reader(i),
    {
        proof {
            lemma_twelve_bit_mask();
        }
        let new_stamp = self.last_stamp + 1;
        let stamped_value = StampedValue::<u16, 12>::new(new_stamp, value);
        let packed = stamped_value.to_u16();
        let ghost old_bits = self.inner.bits();
        let res = self.inner.write(packed as usize);
        proof {
            assert(res is Ok);
            lemma_write_then_first_true(old_bits, packed as int);
        }
        self.last_stamp = new_stamp;
        self.last_value = Ghost(value);
    }
}

proof fn lemma_pack12(stamp: u16, value: u16)
    by (bit_vector)
    requires
        value <= 4095u16,
    ensures
        ((stamp << 12usize) | value) & 4095u16 == value,
        ((stamp << 12usize) | value) >> 12usize == stamp & 15u16,
{
}

/// Law: a reader that observes the writer's latest packed pair, with a stamp not
/// older than the one it kept, returns the latest value: what a read gives back of the
/// write it follows.
pub proof fn lemma_read_returns_written(last: u16, stamp: u16, value: u16)
    requires
        value <= 4095,
        (stamp & 15u16) >= last >> 12usize,
    ensures
        srsw_newer(last, Some(srsw_pack(stamp, value) as usize)) == srsw_pack(stamp, value),
        srsw_pack(stamp, value) & 4095u16 == value,
{
    lemma_pack12(stamp, value);
}

/// Law: writes keep the wiring, so a writer keeps feeding the reader it fed: the
/// matrix of a multi-reader register stays connected as it was built.
pub proof fn lemma_feeds_kept(before: &AtomicSRSWWriter, after: &AtomicSRSWWriter, reader: &AtomicSRSWReader)
    requires
        before.wf(),
        before.feeds(reader),
        after.register().same_wiring(&before.register()),
    ensures
        after.feeds(reader),
{
    assert forall|t: int| 0 <= t < after.register().width() implies
        #[trigger] reader.register().cells()[t] == after.register().components()[t].reader_cell(0) by {
        assert(after.register().components()[t].same_wiring(&before.register().components()[t]));
        assert(before.register().components()[t].capacity() == 1);
    }
}

/// Creates an atomic single-reader single-writer register holding 0 with stamp 0,
/// and returns its two ends.
pub fn new() -> (r: (AtomicSRSWReader, AtomicSRSWWriter))
    ensures
        r.0.wf(),
        r.1.wf(),
        r.1.feeds(&r.0),
        r.0.last().raw() == 0,
        r.0.observations().len() == 0,
        r.1.stamp() == 0,
        r.1.value() == 0,
{
    assert((1usize << 16usize) == 65536usize) by (bit_vector);
    let mut m_reg = MRegularMRSW::new(1, 1 << 16);
    proof {
        lemma_write_then_first_true(Seq::new(65536nat, |t: int| false), 0);
        assert(m_reg.has_reader(0));
    }
    let ghost before = m_reg;
    let reader = m_reg.get_nth_reader(0).unwrap();
    let writer = AtomicSRSWWriter { inner: m_reg, last_stamp: 0, last_value: Ghost(0) };
    proof {
        assert((0u16 << 12usize) | 0u16 == 0u16) by (bit_vector);
        assert(srsw_pack(0, 0) == 0);
        assert forall|t: int| 0 <= t < writer.register().width() implies
            #[trigger] reader.cells()[t] == writer.register().components()[t].reader_cell(0) by {
            assert(writer.register().components()[t].safe().same_wiring(&before.components()[t].safe()));
        }
    }
    (AtomicSRSWReader { inner: reader, last_read: StampedValue::<u16, 12>::from_raw(0), seen: Ghost(Seq::empty()) }, writer)
}

} // verus!
