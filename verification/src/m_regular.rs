use vstd::prelude::*;

use crate::regular_registers::{RegularMRSW, RegularReader};
use crate::safe_registers::FLICKER_NORMAL;

use std::sync::atomic::AtomicBool;
use std::sync::Arc;

verus! {

/// An M-valued regular multi-reader single-writer register, built from `m` regular
/// boolean registers in unary: the value is the index of the first one that holds
/// `true`.
pub struct MRegularMRSW {
    inner: Vec<RegularMRSW>,
    states: Ghost<Seq<Seq<bool>>>,
}

/// The read end of an M-valued regular register: one regular reader per component.
pub struct MRegularReader {
    inner: Vec<RegularReader>,
}

/// The writer refuses a value that is not below `m`.
#[derive(Debug, PartialEq, Eq)]
pub enum WriterError {
    MValueExceeded,
}

/// `i` is the index of the first `true` in `bits`.
pub open spec fn first_true_at(bits: Seq<bool>, i: int) -> bool {
    &&& 0 <= i < bits.len()
    &&& bits[i]
    &&& forall|j: int| 0 <= j < i ==> !(#[trigger] bits[j])
}

/// The index of the first `true` in `bits`, if there is one.
pub open spec fn spec_first_true(bits: Seq<bool>) -> Option<int> {
    if exists|i: int| first_true_at(bits, i) {
        Some(choose|i: int| first_true_at(bits, i))
    } else {
        None
    }
}

/// What a writer leaves in the components when it writes `value`: `true` at
/// `value`, `false` below it, and the components above it untouched.
pub open spec fn unary_write(bits: Seq<bool>, value: int) -> Seq<bool> {
    Seq::new(bits.len(), |j: int| if j < value { false } else if j == value { true } else { bits[j] })
}

/// The components after step `k` of a write of `value`: step 0 writes `true` to
/// component `value`; step `k >= 1` writes `false` to component `value - k`.
pub open spec fn unary_step(bits: Seq<bool>, value: int, k: int) -> Seq<bool> {
    Seq::new(bits.len(), |j: int| if value - k <= j < value { false } else if j == value { true } else { bits[j] })
}

/// The components after each step of a write of `value`, in order.
pub open spec fn unary_write_steps(bits: Seq<bool>, value: int) -> Seq<Seq<bool>> {
    Seq::new((value + 1) as nat, |k: int| unary_step(bits, value, k))
}

/// Law: at every step of a write of `value` some component at or below `value` holds
/// `true` (component `value` itself), and the last step leaves what the write leaves:
/// a reader scanning up from 0 always finds a set component.
pub proof fn lemma_write_keeps_a_true(bits: Seq<bool>, value: int)
    requires
        0 <= value < bits.len(),
    ensures
        forall|k: int| 0 <= k <= value ==> {
            &&& (#[trigger] unary_write_steps(bits, value)[k])[value]
            &&& spec_first_true(unary_write_steps(bits, value)[k]) matches Some(j) && j <= value
        },
        unary_write_steps(bits, value)[value] == unary_write(bits, value),
{
    assert forall|k: int| 0 <= k <= value implies {
        &&& (#[trigger] unary_write_steps(bits, value)[k])[value]
        &&& spec_first_true(unary_write_steps(bits, value)[k]) matches Some(j) && j <= value
    } by {
        let st = unary_write_steps(bits, value)[k];
        assert(st[value]);
        lemma_some_first_true(st, value);
    }
    assert(unary_write_steps(bits, value)[value] =~= unary_write(bits, value));
}

/// A sequence with a `true` at `i` has a first `true`, at or below `i`.
pub proof fn lemma_some_first_true(bits: Seq<bool>, i: int)
    requires
        0 <= i < bits.len(),
        bits[i],
    ensures
        spec_first_true(bits) matches Some(j) && j <= i,
    decreases i,
{
    if forall|j: int| 0 <= j < i ==> !(#[trigger] bits[j]) {
        assert(first_true_at(bits, i));
        lemma_first_true_unique(bits, i);
    } else {
        let j = choose|j: int| 0 <= j < i && #[trigger] bits[j];
        lemma_some_first_true(bits, j);
    }
}

/// A read that observed `obs` in the components (in order, stopping at the first
/// `true`) returns `r`.
pub open spec fn reads_as(obs: Seq<bool>, r: Option<usize>) -> bool {
    match r {
        Some(i) => first_true_at(obs, i as int),
        None => forall|j: int| 0 <= j < obs.len() ==> !(#[trigger] obs[j]),
    }
}

/// The first `true` of a sequence is unique.
pub proof fn lemma_first_true_unique(bits: Seq<bool>, i: int)
    requires
        first_true_at(bits, i),
    ensures
        spec_first_true(bits) == Some(i),
{
    let k = choose|k: int| first_true_at(bits, k);
    assert(first_true_at(bits, k));
    if k < i {
        assert(!bits[k]);
    } else if i < k {
        assert(!bits[i]);
    }
}

/// Law: after a write of `value` below `m`, the first `true` among the components
/// is at `value`, whatever they held before: reading the writer's components gives
/// back the value written.
pub proof fn lemma_write_then_first_true(bits: Seq<bool>, value: int)
    requires
        0 <= value < bits.len(),
    ensures
        spec_first_true(unary_write(bits, value)) == Some(value),
{
    let w = unary_write(bits, value);
    assert(first_true_at(w, value));
    lemma_first_true_unique(w, value);
}

impl MRegularReader {
    /// The cells observed, one per component.
    pub closed spec fn cells(&self) -> Seq<Arc<AtomicBool>> {
        Seq::new(self.inner@.len(), |t: int| self.inner@[t].cell())
    }

    pub open spec fn width(&self) -> nat {
        self.cells().len()
    }

    /// Reads the components in order, stopping at the first one that reads `true`,
    /// and returns its index, or `None` when none does. The component reads depend
    /// on the writer, so the contract says that the result is what `first_set`
    /// gives on the bits observed, in order, of which there are at most `width`.
    pub fn read(&self) -> (r: Option<usize>)
        ensures
            exists|obs: Seq<bool>|
                obs.len() <= self.width() && reads_as(obs, r) && (r is None ==> obs.len()
                    == self.width()),
            r matches Some(i) ==> i < self.width(),
    {
        let n = self.inner.len();
        let mut observed: Vec<bool> = Vec::new();
        let mut k: usize = 0;
        while k < n
            invariant_except_break
                k <= n,
                observed@.len() == k,
            invariant
                n == self.inner@.len(),
            ensures
                observed@.len() <= n,
                observed@.len() == n || (observed@.len() > 0 && observed@[observed@.len() - 1]),
            decreases n - k,
        {
            let bit = self.inner[k].read();
            observed.push(bit);
            if bit {
                break;
            }
            k = k + 1;
        }
        let r = first_set(&observed);
        proof {
            if r is None && observed@.len() < n {
                let last = observed@.len() - 1;
                assert(!observed@[last]);
            }
        }
        r
    }
}

/// The index of the first `true` among the observed bits, or `None` when every
/// bit is `false`.
pub fn first_set(observed: &Vec<bool>) -> (r: Option<usize>)
    ensures
        reads_as(observed@, r),
{
    let mut k: usize = 0;
    while k < observed.len()
        invariant
            k <= observed@.len(),
            forall|j: int| 0 <= j < k ==> !(#[trigger] observed@[j]),
        decreases observed.len() - k,
    {
        if observed[k] {
            return Some(k);
        }
        k = k + 1;
    }
    None
}

impl MRegularMRSW {
    /// The regular boolean components.
    pub closed spec fn components(&self) -> Seq<RegularMRSW> {
        self.inner@
    }

    pub open spec fn width(&self) -> nat {
        self.components().len()
    }

    /// The components after every component write of every write so far, in order.
    pub closed spec fn history(&self) -> Seq<Seq<bool>> {
        self.states@
    }

    /// The last written value of each component.
    pub open spec fn bits(&self) -> Seq<bool> {
        Seq::new(self.width(), |t: int| self.components()[t].value())
    }

    /// The number of readers the register was made for.
    pub open spec fn capacity(&self) -> nat {
        self.components()[0].capacity()
    }

    /// Whether reader end `n` is still held (it is held in every component or in none).
    pub open spec fn has_reader(&self, n: int) -> bool {
        self.components()[0].has_reader(n)
    }

    /// At least one component, all well formed, made for the same readers, with the
    /// same reader ends still held.
    pub open spec fn wf(&self) -> bool {
        &&& self.width() > 0
        &&& forall|t: int| 0 <= t < self.width() ==> {
            &&& (#[trigger] self.components()[t]).wf()
            &&& self.components()[t].capacity() == self.capacity()
            &&& forall|n: int| #[trigger] self.components()[t].has_reader(n) == self.has_reader(n)
        }
    }

    /// Same components wired to the same cells, with the same reader ends held.
    pub open spec fn same_wiring(&self, other: &Self) -> bool {
        &&& self.width() == other.width()
        &&& forall|t: int| 0 <= t < self.width() ==> (#[trigger] self.components()[t]).same_wiring(&other.components()[t])
    }

    /// `reader` observes the components' cells for reader end `n`.
    pub open spec fn serves(&self, reader: &MRegularReader, n: int) -> bool {
        &&& reader.width() == self.width()
        &&& forall|t: int| 0 <= t < self.width() ==> #[trigger] reader.cells()[t] == self.components()[t].reader_cell(n)
    }

    /// Creates a register of `m` components for `capacity` readers, holding 0.
    pub fn new(capacity: usize, m: usize) -> (r: Self)
        requires
            m > 0,
        ensures
            r.wf(),
            r.width() == m,
            r.capacity() == capacity,
            r.bits() == unary_write(Seq::new(m as nat, |t: int| false), 0),
            forall|n: int| 0 <= n < capacity ==> #[trigger] r.has_reader(n),
            forall|t: int, i: int| 0 <= t < m && 0 <= i < capacity
                ==> (#[trigger] r.components()[t].safe().writer_ends()[i]).mode() == FLICKER_NORMAL,
    {
        let mut inner: Vec<RegularMRSW> = Vec::with_capacity(m);
        let mut k: usize = 0;
        while k < m
            invariant
                k <= m,
                inner@.len() == k,
                forall|t: int| 0 <= t < k ==> {
                    &&& (#[trigger] inner@[t]).wf()
                    &&& inner@[t].capacity() == capacity
                    &&& inner@[t].value() == false
                    &&& forall|n: int| #[trigger] inner@[t].has_reader(n) <==> 0 <= n < capacity
                    &&& forall|i: int| 0 <= i < capacity ==> (#[trigger] inner@[t].safe().writer_ends()[i]).mode() == FLICKER_NORMAL
                },
            decreases m - k,
        {
            let reg = RegularMRSW::new(capacity);
            proof {
                assert forall|n: int| #[trigger] reg.has_reader(n) <==> 0 <= n < capacity by {
                    if 0 <= n < capacity {
                        assert(reg.has_reader(n));
                    }
                }
            }
            inner.push(reg);
            k = k + 1;
        }
        let ghost before = inner@;
        inner[0].write(true);
        proof {
            assert(inner@[0].same_wiring(&before[0]));
            assert(inner@[0].capacity() == capacity);
            assert forall|n: int| #[trigger] inner@[0].has_reader(n) == before[0].has_reader(n) by {}
        }
        let r = MRegularMRSW { inner, states: Ghost(Seq::empty()) };
        assert(r.bits() =~= unary_write(Seq::new(m as nat, |t: int| false), 0));
        r
    }

    /// Hands out reader end `n`, once: one regular reader from every component, or
    /// `None` when `n` is out of range or was already handed out.
    pub fn get_nth_reader(&mut self, n: usize) -> (r: Option<MRegularReader>)
        requires
            old(self).wf(),
        ensures
            final(self).wf(),
            final(self).bits() == old(self).bits(),
            final(self).history() == old(self).history(),
            final(self).width() == old(self).width(),
            final(self).capacity() == old(self).capacity(),
            forall|t: int| 0 <= t < final(self).width()
                ==> (#[trigger] final(self).components()[t]).safe().same_wiring(&old(self).components()[t].safe()),
            forall|i: int| #[trigger] final(self).has_reader(i) <==> old(self).has_reader(i) && i != n,
            r is Some <==> old(self).has_reader(n as int),
            r matches Some(reader) ==> old(self).serves(&reader, n as int),
    {
        let ghost old_self = *self;
        let w = self.inner.len();
        let mut readers: Vec<RegularReader> = Vec::with_capacity(w);
        let mut k: usize = 0;
        while k < w
            invariant
                k <= w,
                w == self.inner@.len(),
                old_self.wf(),
                w == old_self.width(),
                old_self == *old(self),
                self.history() == old_self.history(),
                readers@.len() == k,
                k > 0 ==> old_self.has_reader(n as int),
                forall|t: int| 0 <= t < k ==> #[trigger] readers@[t].cell() == old_self.components()[t].reader_cell(n as int),
                forall|t: int| 0 <= t < w ==> {
                    &&& (#[trigger] self.inner@[t]).wf()
                    &&& self.inner@[t].value() == old_self.components()[t].value()
                    &&& self.inner@[t].capacity() == old_self.components()[t].capacity()
                    &&& self.inner@[t].safe().same_wiring(&old_self.components()[t].safe())
                    &&& forall|i: int| #[trigger] self.inner@[t].has_reader(i) <==>
                        old_self.components()[t].has_reader(i) && (t < k ==> i != n)
                },
            decreases w - k,
        {
            let got = self.inner[k].get_nth_reader(n);
            match got {
                Some(reader) => {
                    readers.push(reader);
                },
                None => {
                    proof {
                        assert(!old_self.has_reader(n as int));
                        assert(k == 0);
                        assert(self.bits() =~= old_self.bits());
                        assert forall|t: int, i: int| 0 <= t < w implies
                            #[trigger] self.inner@[t].has_reader(i) == old_self.components()[t].has_reader(i) by {
                            assert(old_self.components()[t].has_reader(n as int) == old_self.has_reader(n as int));
                        }
                    }
                    return None;
                },
            }
            k = k + 1;
        }
        let r = MRegularReader { inner: readers };
        proof {
            assert(self.bits() =~= old_self.bits());
            assert forall|t: int| 0 <= t < w implies #[trigger] r.cells()[t] == old_self.components()[t].reader_cell(n as int) by {}
        }
        Some(r)
    }

    /// Writes `value`: `true` to component `value` first, then `false` to every
    /// component below it, from the top down. A value that is not below `m` is refused
    /// and nothing is written.
    pub fn write(&mut self, value: usize) -> (r: Result<(), WriterError>)
        requires
            old(self).wf(),
        ensures
            final(self).wf(),
            r is Err <==> value >= old(self).width(),
            r is Err ==> *final(self) == *old(self),
            r is Ok ==> final(self).bits() == unary_write(old(self).bits(), value as int),
            r is Ok ==> final(self).history() == old(self).history() + unary_write_steps(old(self).bits(), value as int),
            final(self).same_wiring(old(self)),
            final(self).capacity() == old(self).capacity(),
            forall|i: int| #[trigger] final(self).has_reader(i) == old(self).has_reader(i),
    {
        if value >= self.inner.len() {
            return Err(WriterError::MValueExceeded);
        }
        let ghost old_self = *self;
        self.inner[value].write(true);
        self.states = Ghost(self.states@.push(self.bits()));
        proof {
            assert(self.bits() =~= unary_step(old_self.bits(), value as int, 0));
            assert(self.states@ =~= old_self.history() + unary_write_steps(old_self.bits(), value as int).take(1));
        }
        let mut k: usize = value;
        while k > 0
            invariant
                k <= value,
                self.states@ == old_self.history() + unary_write_steps(old_self.bits(), value as int).take(value - k + 1),
                value < self.inner@.len(),
                self.inner@.len() == old_self.width(),
                old_self.wf(),
                forall|t: int| 0 <= t < self.inner@.len() ==> {
                    &&& (#[trigger] self.inner@[t]).wf()
                    &&& self.inner@[t].same_wiring(&old_self.components()[t])
                    &&& self.inner@[t].value() == (if k <= t < value { false } else if t == value { true } else {
                        old_self.components()[t].value()
                    })
                },
            decreases k,
        {
            k = k - 1;
            let ghost before_step = self.states@;
            self.inner[k].write(false);
            self.states = Ghost(self.states@.push(self.bits()));
            proof {
                assert(self.bits() =~= unary_step(old_self.bits(), value as int, value - k));
                assert(unary_write_steps(old_self.bits(), value as int).take(value - k + 1)
                    =~= unary_write_steps(old_self.bits(), value as int).take(value - k).push(
                        unary_step(old_self.bits(), value as int, value - k)));
                assert(self.states@ =~= old_self.history() + unary_write_steps(old_self.bits(), value as int).take(value - k + 1));
            }
        }
        proof {
            assert(unary_write_steps(old_self.bits(), value as int).take(value + 1) =~= unary_write_steps(old_self.bits(), value as int));
            assert(self.bits() =~= unary_write(old_self.bits(), value as int));
            assert forall|t: int| 0 <= t < self.width() implies (#[trigger] self.components()[t]).capacity() == self.capacity() by {
                assert(self.components()[t].same_wiring(&old_self.components()[t]));
                assert(self.components()[0].same_wiring(&old_self.components()[0]));
            }
            assert forall|i: int| #[trigger] self.has_reader(i) == old_self.has_reader(i) by {
                assert(self.components()[0].same_wiring(&old_self.components()[0]));
            }
            assert forall|t: int, i: int| 0 <= t < self.width() implies #[trigger] self.components()[t].has_reader(i) == self.has_reader(i) by {
                assert(self.components()[t].same_wiring(&old_self.components()[t]));
                assert(old_self.components()[t].has_reader(i) == old_self.has_reader(i));
            }
        }
        Ok(())
    }

    /// Sets the flicker mode of every safe register underneath.
    pub fn set_flicker_mode(&mut self, mode: u8)
        requires
            old(self).wf(),
        ensures
            final(self).wf(),
            final(self).bits() == old(self).bits(),
            final(self).history() == old(self).history(),
            final(self).width() == old(self).width(),
            final(self).capacity() == old(self).capacity(),
            forall|i: int| #[trigger] final(self).has_reader(i) == old(self).has_reader(i),
            forall|t: int, i: int| 0 <= t < final(self).width() && 0 <= i < final(self).capacity() ==> {
                &&& (#[trigger] final(self).components()[t].safe().writer_ends()[i]).mode() == mode
                &&& final(self).components()[t].safe().writer_ends()[i].cell()
                    == old(self).components()[t].safe().writer_ends()[i].cell()
            },
    {
        let ghost old_self = *self;
        let w = self.inner.len();
        let mut k: usize = 0;
        while k < w
            invariant
                k <= w,
                w == self.inner@.len(),
                w == old_self.width(),
                old_self.wf(),
                self.history() == old_self.history(),
                forall|t: int| 0 <= t < w ==> {
                    &&& (#[trigger] self.inner@[t]).wf()
                    &&& self.inner@[t].value() == old_self.components()[t].value()
                    &&& self.inner@[t].capacity() == old_self.components()[t].capacity()
                    &&& self.inner@[t].safe().reader_slots() == old_self.components()[t].safe().reader_slots()
                    &&& forall|i: int| 0 <= i < self.inner@[t].capacity() ==>
                        (#[trigger] self.inner@[t].safe().writer_ends()[i]).cell()
                            == old_self.components()[t].safe().writer_ends()[i].cell()
                    &&& t < k ==> forall|i: int| 0 <= i < self.inner@[t].capacity() ==>
                        (#[trigger] self.inner@[t].safe().writer_ends()[i]).mode() == mode
                },
            decreases w - k,
        {
            self.inner[k].set_flicker_mode(mode);
            k = k + 1;
        }
        proof {
            assert(self.bits() =~= old_self.bits());
            assert forall|t: int, i: int| 0 <= t < w implies #[trigger] self.components()[t].has_reader(i) == self.has_reader(i) by {
                assert(old_self.components()[t].has_reader(i) == old_self.has_reader(i));
            }
        }
    }
}

} // verus!
