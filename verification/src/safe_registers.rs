use vstd::prelude::*;

use std::sync::atomic::AtomicBool;
use std::sync::Arc;

verus! {

#[verifier::external_type_specification]
#[verifier::external_body]
pub struct ExInstant(std::time::Instant);

/// Flicker mode that makes a write settle quickly.
pub const FLICKER_FAST: u8 = 0;

/// Flicker mode a writer starts with.
pub const FLICKER_NORMAL: u8 = 1;

/// Flicker mode that makes a write settle slowly.
pub const FLICKER_SLOW: u8 = 2;

/// How unstable a safe register is while a write is in progress: the number of
/// random values the cell passes through, and the pause before each of them, both
/// drawn from inclusive ranges.
#[derive(Clone, Copy)]
pub struct FlickerBounds {
    pub min_steps: u64,
    pub max_steps: u64,
    pub min_pause_ms: u64,
    pub max_pause_ms: u64,
}

pub open spec fn spec_flicker_bounds(mode: u8) -> FlickerBounds {
    if mode == FLICKER_FAST {
        FlickerBounds { min_steps: 2, max_steps: 5, min_pause_ms: 1, max_pause_ms: 5 }
    } else if mode == FLICKER_NORMAL {
        FlickerBounds { min_steps: 5, max_steps: 10, min_pause_ms: 5, max_pause_ms: 25 }
    } else {
        FlickerBounds { min_steps: 5, max_steps: 10, min_pause_ms: 10, max_pause_ms: 50 }
    }
}

/// The flicker ranges of a mode; every mode other than fast and normal is slow.
pub fn flicker_bounds(mode: u8) -> (b: FlickerBounds)
    ensures
        b == spec_flicker_bounds(mode),
        b.min_steps <= b.max_steps,
        b.min_pause_ms <= b.max_pause_ms,
{
    if mode == FLICKER_FAST {
        FlickerBounds { min_steps: 2, max_steps: 5, min_pause_ms: 1, max_pause_ms: 5 }
    } else if mode == FLICKER_NORMAL {
        FlickerBounds { min_steps: 5, max_steps: 10, min_pause_ms: 5, max_pause_ms: 25 }
    } else {
        FlickerBounds { min_steps: 5, max_steps: 10, min_pause_ms: 10, max_pause_ms: 50 }
    }
}

/// Calls `rand::random_range` on the inclusive range `lo..=hi`; the result lies in
/// that range (rand samples integer ranges uniformly and panics only on an empty one).
#[verifier::external_body]
fn random_between(lo: u64, hi: u64) -> (r: u64)
    requires
        lo <= hi,
    ensures
        lo <= r <= hi,
{
    rand::random_range(lo..=hi)
}

/// Calls `rand::random_ratio(1, 2)`: a fair coin. Nothing is promised of the result.
#[verifier::external_body]
fn random_coin() -> bool {
    rand::random_ratio(1, 2)
}

/// Calls `std::time::Instant::now`. Nothing is promised of the result.
#[verifier::external_body]
fn clock_now() -> std::time::Instant {
    std::time::Instant::now()
}

/// Calls `std::time::Instant::elapsed`. Nothing is promised of the result.
#[verifier::external_body]
fn clock_elapsed(start: &std::time::Instant) -> std::time::Duration {
    start.elapsed()
}

/// Calls `std::time::Duration::as_millis`. Nothing is promised of the result.
#[verifier::external_body]
fn duration_millis(d: &std::time::Duration) -> u128 {
    d.as_millis()
}

/// Calls `Arc::clone`: the clone shares the cell, so it is the same value.
#[verifier::external_body]
fn share_cell(cell: &Arc<AtomicBool>) -> (r: Arc<AtomicBool>)
    ensures
        r == *cell,
{
    Arc::clone(cell)
}

/// Busy-waits until `ms` milliseconds have passed on the clock (or the spin budget
/// runs out).
fn pause_ms(ms: u64) {
    let start = clock_now();
    let target = ms as u128;
    let mut spins: u64 = 0;
    while spins < u64::MAX
        decreases u64::MAX - spins,
    {
        let elapsed = clock_elapsed(&start);
        if duration_millis(&elapsed) >= target {
            break;
        }
        spins = spins + 1;
    }
}

fn cell_load(cell: &Arc<AtomicBool>) -> bool {
    cell.load(std::sync::atomic::Ordering::Relaxed)
}

fn cell_store(cell: &Arc<AtomicBool>, value: bool) {
    cell.store(value, std::sync::atomic::Ordering::Relaxed);
}

/// The read end of a safe single-reader single-writer boolean register.
pub struct SafeReader {
    inner: Arc<AtomicBool>,
}

/// The write end of a safe single-reader single-writer boolean register.
///
/// While a write is in progress the register passes through random values, so a
/// read that overlaps a write may return either boolean.
pub struct SafeWriter {
    inner: Arc<AtomicBool>,
    flicker_mode: u8,
    written: Ghost<bool>,
    stored: Ghost<Seq<bool>>,
    paused: Ghost<Seq<u64>>,
}

impl SafeReader {
    /// The shared cell this reader observes.
    pub closed spec fn cell(&self) -> Arc<AtomicBool> {
        self.inner
    }

    /// Reads the register. What it returns depends on the writer, which Verus does not
    /// see: nothing is promised of the result.
    pub fn read(&self) -> bool {
        cell_load(&self.inner)
    }
}

impl SafeWriter {
    /// The shared cell this writer changes.
    pub closed spec fn cell(&self) -> Arc<AtomicBool> {
        self.inner
    }

    /// The value that the last completed write left in the register.
    pub closed spec fn last_written(&self) -> bool {
        self.written@
    }

    /// The flicker mode of this writer's writes.
    pub closed spec fn mode(&self) -> u8 {
        self.flicker_mode
    }

    /// Every value this writer has stored into the cell, in order: the random flicker
    /// values and the settled value of each write.
    pub closed spec fn stores(&self) -> Seq<bool> {
        self.stored@
    }

    /// The pause, in milliseconds, this writer took before each flicker store, in order.
    pub closed spec fn pauses(&self) -> Seq<u64> {
        self.paused@
    }

    /// Starting from `before`, this writer made one write of `value`: a number of random
    /// stores within the bounds of its flicker mode, each after a pause within those
    /// bounds, and then the store of `value`.
    pub open spec fn wrote(&self, before: &Self, value: bool) -> bool {
        let b = spec_flicker_bounds(before.mode());
        exists|flicker: Seq<bool>, waits: Seq<u64>|
            #![trigger before.stores().add(flicker.push(value)), before.pauses().add(waits)]
        {
            &&& b.min_steps <= flicker.len() <= b.max_steps
            &&& waits.len() == flicker.len()
            &&& forall|i: int| 0 <= i < waits.len() ==> b.min_pause_ms <= #[trigger] waits[i] <= b.max_pause_ms
            &&& self.stores() == before.stores().add(flicker.push(value))
            &&& self.pauses() == before.pauses().add(waits)
        }
    }

    /// Sets the flicker mode of later writes.
    pub fn set_flicker_mode(&mut self, mode: u8)
        ensures
            final(self).mode() == mode,
            final(self).cell() == old(self).cell(),
            final(self).last_written() == old(self).last_written(),
            final(self).stores() == old(self).stores(),
            final(self).pauses() == old(self).pauses(),
    {
        self.flicker_mode = mode;
    }

    /// Stores `value` into the cell.
    fn store(&mut self, value: bool)
        ensures
            final(self).stores() == old(self).stores().push(value),
            final(self).pauses() == old(self).pauses(),
            final(self).cell() == old(self).cell(),
            final(self).mode() == old(self).mode(),
            final(self).last_written() == old(self).last_written(),
    {
        cell_store(&self.inner, value);
        self.stored = Ghost(self.stored@.push(value));
    }

    /// Waits `ms` milliseconds before a flicker store.
    fn pause(&mut self, ms: u64)
        ensures
            final(self).pauses() == old(self).pauses().push(ms),
            final(self).stores() == old(self).stores(),
            final(self).cell() == old(self).cell(),
            final(self).mode() == old(self).mode(),
            final(self).last_written() == old(self).last_written(),
    {
        pause_ms(ms);
        self.paused = Ghost(self.paused@.push(ms));
    }

    /// Writes `value`: the register first flickers through random values for a random
    /// number of steps within the mode's bounds, with a random pause before each step,
    /// and then settles on `value`.
    pub fn write(&mut self, value: bool)
        ensures
            final(self).last_written() == value,
            final(self).cell() == old(self).cell(),
            final(self).mode() == old(self).mode(),
            final(self).wrote(old(self), value),
    {
        let bounds = flicker_bounds(self.flicker_mode);
        let steps = random_between(bounds.min_steps, bounds.max_steps);
        let ghost mut flicker: Seq<bool> = Seq::empty();
        let ghost mut waits: Seq<u64> = Seq::empty();
        let mut i: u64 = 0;
        while i < steps
            invariant
                bounds == spec_flicker_bounds(old(self).mode()),
                bounds.min_pause_ms <= bounds.max_pause_ms,
                i <= steps,
                flicker.len() == i,
                waits.len() == i,
                forall|k: int| 0 <= k < waits.len() ==> bounds.min_pause_ms <= #[trigger] waits[k] <= bounds.max_pause_ms,
                self.stores() == old(self).stores() + flicker,
                self.pauses() == old(self).pauses() + waits,
                self.cell() == old(self).cell(),
                self.mode() == old(self).mode(),
            decreases steps - i,
        {
            let pause = random_between(bounds.min_pause_ms, bounds.max_pause_ms);
            self.pause(pause);
            let coin = random_coin();
            self.store(coin);
            proof {
                flicker = flicker.push(coin);
                waits = waits.push(pause);
                assert(self.stores() =~= old(self).stores() + flicker);
                assert(self.pauses() =~= old(self).pauses() + waits);
            }
            i = i + 1;
        }
        self.store(value);
        self.written = Ghost(value);
        assert(self.stores() =~= old(self).stores() + flicker.push(value));
        assert(self.wrote(old(self), value));
    }
}

/// Creates a safe boolean register holding `false` and returns its two ends, which
/// share one cell. The writer starts in the normal flicker mode.
pub fn safe_boolean_srsw() -> (r: (SafeReader, SafeWriter))
    ensures
        r.0.cell() == r.1.cell(),
        r.1.last_written() == false,
        r.1.mode() == FLICKER_NORMAL,
        r.1.stores().len() == 0,
        r.1.pauses().len() == 0,
{
    let inner = Arc::new(AtomicBool::new(false));
    let shared = share_cell(&inner);
    (SafeReader { inner: shared }, SafeWriter { inner, flicker_mode: FLICKER_NORMAL, written: Ghost(false), stored: Ghost(Seq::empty()), paused: Ghost(Seq::empty()) })
}

} // verus!
