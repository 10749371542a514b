use vstd::prelude::*;

use std::collections::VecDeque;

verus! {

/// The most entries a log keeps; older entries are dropped first.
pub const LOG_LEN: usize = 5000;

/// The number of preset write sequences of each kind.
pub const NUM_SEQS: usize = 3;

/// The register constructions the simulator offers.
#[derive(Clone, Copy, PartialEq, Eq, Debug)]
pub enum RegisterType {
    SafeSRSW,
    SafeMRSW,
    Regular,
    MRegular,
    AtomicSRSW,
    AtomicMRSW,
    AtomicMRMW,
}

impl RegisterType {
    pub open spec fn spec_is_boolean(self) -> bool {
        !(self is MRegular || self is AtomicSRSW)
    }

    /// Whether the register holds booleans (all but the M-valued regular and the
    /// atomic single-reader ones).
    pub fn is_boolean(&self) -> (r: bool)
        ensures
            r == self.spec_is_boolean(),
    {
        match self {
            RegisterType::MRegular => false,
            RegisterType::AtomicSRSW => false,
            _ => true,
        }
    }
}

/// The preset boolean write sequences: alternating, paired, blocks.
pub open spec fn spec_boolean_sequence(idx: int) -> Seq<bool> {
    if idx == 0 {
        seq![true, false, true, false, true, false, true, false]
    } else if idx == 1 {
        seq![true, true, false, false, true, true, false, false]
    } else {
        seq![true, true, true, true, false, false, false, false]
    }
}

/// The preset numeric write sequences: alternating, paired, blocks.
pub open spec fn spec_numeric_sequence(idx: int) -> Seq<u8> {
    if idx == 0 {
        seq![0u8, 1, 2, 3, 4, 5, 6, 7]
    } else if idx == 1 {
        seq![0u8, 0, 2, 2, 4, 4, 6, 6]
    } else {
        seq![0u8, 0, 0, 0, 1, 1, 1, 1]
    }
}

/// Law: each preset has eight entries; the alternating boolean preset is `true` on
/// even positions, the paired one on the first two of every four, the blocks one on
/// the first four. The alternating numeric preset counts up from 0, the paired one
/// repeats each even number twice, the blocks one holds 0 on the first four
/// positions and 1 on the last four.
pub proof fn lemma_preset_patterns()
    ensures
        forall|idx: int| 0 <= idx < NUM_SEQS ==> #[trigger] spec_boolean_sequence(idx).len() == 8,
        forall|idx: int| 0 <= idx < NUM_SEQS ==> #[trigger] spec_numeric_sequence(idx).len() == 8,
        forall|i: int| 0 <= i < 8 ==> #[trigger] spec_boolean_sequence(0)[i] == (i % 2 == 0),
        forall|i: int| 0 <= i < 8 ==> #[trigger] spec_boolean_sequence(1)[i] == (i % 4 < 2),
        forall|i: int| 0 <= i < 8 ==> #[trigger] spec_boolean_sequence(2)[i] == (i < 4),
        forall|i: int| 0 <= i < 8 ==> #[trigger] spec_numeric_sequence(0)[i] == i,
        forall|i: int| 0 <= i < 8 ==> #[trigger] spec_numeric_sequence(1)[i] == i - i % 2,
        forall|i: int| 0 <= i < 8 ==> #[trigger] spec_numeric_sequence(2)[i] == i / 4,
{
    assert forall|i: int| 0 <= i < 8 implies {
        &&& spec_boolean_sequence(0)[i] == (i % 2 == 0)
        &&& spec_boolean_sequence(1)[i] == (i % 4 < 2)
        &&& spec_boolean_sequence(2)[i] == (i < 4)
        &&& spec_numeric_sequence(0)[i] == i
        &&& spec_numeric_sequence(1)[i] == i - i % 2
        &&& spec_numeric_sequence(2)[i] == i / 4
    } by {
        if i == 0 {
        } else if i == 1 {
        } else if i == 2 {
        } else if i == 3 {
        } else if i == 4 {
        } else if i == 5 {
        } else if i == 6 {
        } else {
        }
    }
}

/// The preset boolean write sequence `idx`.
pub fn boolean_sequence(idx: usize) -> (r: Vec<bool>)
    requires
        idx < NUM_SEQS,
    ensures
        r@ == spec_boolean_sequence(idx as int),
{
    let r = if idx == 0 {
        vec![true, false, true, false, true, false, true, false]
    } else if idx == 1 {
        vec![true, true, false, false, true, true, false, false]
    } else {
        vec![true, true, true, true, false, false, false, false]
    };
    assert(r@ =~= spec_boolean_sequence(idx as int));
    r
}

/// The preset numeric write sequence `idx`.
pub fn numeric_sequence(idx: usize) -> (r: Vec<u8>)
    requires
        idx < NUM_SEQS,
    ensures
        r@ == spec_numeric_sequence(idx as int),
{
    let r = if idx == 0 {
        vec![0u8, 1, 2, 3, 4, 5, 6, 7]
    } else if idx == 1 {
        vec![0u8, 0, 2, 2, 4, 4, 6, 6]
    } else {
        vec![0u8, 0, 0, 0, 1, 1, 1, 1]
    };
    assert(r@ =~= spec_numeric_sequence(idx as int));
    r
}

/// Which screen the simulator shows.
#[derive(Clone, Copy, PartialEq, Eq, Debug)]
pub enum AppState {
    Menu,
    Running,
}

/// What the simulation threads report.
pub enum SimEvent {
    WriterUpdate(String),
    ReaderUpdate(usize, String),
    Status(String),
}

/// A key press, as the simulator distinguishes them.
#[derive(Clone, Copy, PartialEq, Eq, Debug)]
pub enum Key {
    Char(char),
    Up,
    Down,
    Left,
    Right,
    Enter,
    Esc,
    Other,
}

/// What the caller has to do after a key press.
#[derive(Clone, Copy, PartialEq, Eq, Debug)]
pub enum InputOutcome {
    Nothing,
    /// Leave the program.
    Quit,
    /// Start a simulation of the selected register with the current settings.
    StartSimulation,
    /// Make writes flicker in this mode from now on.
    SetFlickerMode(u8),
    /// Stop listening to the running simulation and release its pause.
    StopSimulation,
    /// Pause (`true`) or resume (`false`) the running simulation.
    SetPaused(bool),
}

/// The log after appending `entry`: the oldest entry is dropped when the log is full.
pub open spec fn appended(log: Seq<String>, entry: String) -> Seq<String> {
    if log.len() >= LOG_LEN {
        log.drop_first().push(entry)
    } else {
        log.push(entry)
    }
}

/// `text` occurs in `s` at position `i`.
pub open spec fn occurs_at(s: Seq<char>, text: Seq<char>, i: int) -> bool {
    &&& 0 <= i
    &&& i + text.len() <= s.len()
    &&& s.subrange(i, i + text.len()) == text
}

/// `text` occurs somewhere in `s`.
pub open spec fn text_contains(s: Seq<char>, text: Seq<char>) -> bool {
    exists|i: int| occurs_at(s, text, i)
}

/// Whether `text` occurs in `s`.
pub fn contains_text(s: &str, text: &str) -> (r: bool)
    ensures
        r == text_contains(s@, text@),
{
    let n = s.unicode_len();
    let m = text.unicode_len();
    if m > n {
        assert forall|i: int| !occurs_at(s@, text@, i) by {}
        return false;
    }
    let mut i: usize = 0;
    while i <= n - m
        invariant
            n == s@.len(),
            m == text@.len(),
            m <= n,
            i <= n - m,
            forall|k: int| 0 <= k < i ==> !occurs_at(s@, text@, k),
        decreases n - m - i,
    {
        let mut j: usize = 0;
        let mut same = true;
        while j < m
            invariant
                n == s@.len(),
                m == text@.len(),
                i + m <= n,
                j <= m,
                same ==> forall|k: int| 0 <= k < j ==> s@[i + k] == text@[k],
                !same ==> !occurs_at(s@, text@, i as int),
            decreases m - j,
        {
            if same && s.get_char(i + j) != text.get_char(j) {
                same = false;
                assert(s@.subrange(i as int, i + m)[j as int] != text@[j as int]);
            }
            j = j + 1;
        }
        if same {
            assert(s@.subrange(i as int, i + m) =~= text@);
            assert(occurs_at(s@, text@, i as int));
            return true;
        }
        if i == n - m {
            assert forall|k: int| !occurs_at(s@, text@, k) by {
                if 0 <= k < i {
                }
            }
            return false;
        }
        i = i + 1;
    }
    false
}

/// What the simulation's reports change: the logs and the status message.
pub struct LogView {
    pub writer: Seq<String>,
    pub readers: Seq<Seq<String>>,
    pub status: Seq<char>,
}

/// The logs and status after one report.
pub open spec fn event_step(v: LogView, event: SimEvent) -> LogView {
    match event {
        SimEvent::WriterUpdate(val) => LogView { writer: appended(v.writer, val), ..v },
        SimEvent::ReaderUpdate(id, val) => if id < v.readers.len() {
            LogView { readers: v.readers.update(id as int, appended(v.readers[id as int], val)), ..v }
        } else {
            v
        },
        SimEvent::Status(msg) => LogView { status: msg@, ..v },
    }
}

/// Law: appending to a log puts the entry last; the entries before it are the old
/// ones, all of them while the log is not full and all but the oldest once it is.
pub proof fn lemma_appended_keeps_newest(log: Seq<String>, entry: String)
    ensures
        appended(log, entry).last() == entry,
        log.len() < LOG_LEN ==> appended(log, entry).len() == log.len() + 1 && appended(log, entry).drop_last() == log,
        log.len() >= LOG_LEN ==> appended(log, entry).len() == log.len() && appended(log, entry).drop_last() == log.drop_first(),
{
    assert(log.push(entry).drop_last() =~= log);
    if log.len() >= LOG_LEN {
        assert(log.drop_first().push(entry).drop_last() =~= log.drop_first());
    }
}

/// Law: a report of reader `id` goes to the end of that reader's log, for every
/// reader there is, and leaves the other logs and the status as they were; a report
/// of a reader that does not exist changes nothing. The writer's reports go to the
/// end of the writer's log alone.
pub proof fn lemma_reports_reach_their_log(v: LogView, id: usize, entry: String)
    ensures
        id < v.readers.len() ==> {
            let w = event_step(v, SimEvent::ReaderUpdate(id, entry));
            &&& w.readers.len() == v.readers.len()
            &&& w.readers[id as int].last() == entry
            &&& w.readers[id as int].drop_last() == (if v.readers[id as int].len() < LOG_LEN {
                v.readers[id as int]
            } else {
                v.readers[id as int].drop_first()
            })
            &&& forall|j: int| 0 <= j < v.readers.len() && j != id ==> #[trigger] w.readers[j] == v.readers[j]
            &&& w.writer == v.writer
            &&& w.status == v.status
        },
        id >= v.readers.len() ==> event_step(v, SimEvent::ReaderUpdate(id, entry)) == v,
        ({
            let w = event_step(v, SimEvent::WriterUpdate(entry));
            &&& w.writer.last() == entry
            &&& w.writer.drop_last() == (if v.writer.len() < LOG_LEN { v.writer } else { v.writer.drop_first() })
            &&& w.readers == v.readers
            &&& w.status == v.status
        }),
{
    lemma_appended_keeps_newest(v.writer, entry);
    if id < v.readers.len() {
        lemma_appended_keeps_newest(v.readers[id as int], entry);
    }
}

/// The logs and status after the reports `events`, in order.
pub open spec fn events_step(v: LogView, events: Seq<SimEvent>) -> LogView
    decreases events.len(),
{
    if events.len() == 0 {
        v
    } else {
        events_step(event_step(v, events[0]), events.drop_first())
    }
}

/// The selection after moving down: wraps to the top after the last item.
pub open spec fn spec_next_index(selected: Option<usize>, len: nat) -> usize {
    match selected {
        Some(i) => if i >= len - 1 { 0 } else { (i + 1) as usize },
        None => 0,
    }
}

/// The selection after moving up: wraps to the bottom before the first item.
pub open spec fn spec_previous_index(selected: Option<usize>, len: nat) -> usize {
    match selected {
        Some(i) => if i == 0 { (len - 1) as usize } else { (i - 1) as usize },
        None => 0,
    }
}

/// The length of the longest of `logs` (0 when there are none).
pub open spec fn max_log_len(logs: Seq<VecDeque<String>>) -> nat
    decreases logs.len(),
{
    if logs.len() == 0 {
        0
    } else {
        let m = max_log_len(logs.drop_last());
        let l = logs.last()@.len();
        if l > m { l } else { m }
    }
}

/// Law: moving the selection down and then up comes back to where it was, and so
/// does moving up and then down.
pub proof fn lemma_next_previous_inverse(i: usize, len: nat)
    requires
        i < len,
        len <= usize::MAX,
    ensures
        spec_previous_index(Some(spec_next_index(Some(i), len)), len) == i,
        spec_next_index(Some(spec_previous_index(Some(i), len)), len) == i,
{
}

/// The plain settings of the simulator's state: everything but the register list,
/// the logs and the status message.
pub struct Settings {
    pub state: AppState,
    pub selected: Option<usize>,
    pub num_readers: usize,
    pub num_reads: usize,
    pub writer_delay_ms: u64,
    pub reader_delay_ms: u64,
    pub flicker_mode: u8,
    pub sequence_idx: usize,
    pub is_paused: bool,
    pub scroll_offset: usize,
}

/// The settings after a key press in the menu, and what the caller has to do; `len`
/// is the number of register types.
pub open spec fn menu_step(s: Settings, len: nat, key: Key) -> (Settings, InputOutcome) {
    match key {
        Key::Down => (Settings { selected: Some(spec_next_index(s.selected, len)), ..s }, InputOutcome::Nothing),
        Key::Up => (Settings { selected: Some(spec_previous_index(s.selected, len)), ..s }, InputOutcome::Nothing),
        Key::Enter => (Settings { state: AppState::Running, is_paused: false, ..s }, InputOutcome::StartSimulation),
        Key::Right => (Settings { num_readers: (s.num_readers + 1) as usize, ..s }, InputOutcome::Nothing),
        Key::Left => (
            if s.num_readers > 1 { Settings { num_readers: (s.num_readers - 1) as usize, ..s } } else { s },
            InputOutcome::Nothing,
        ),
        Key::Char(c) => if c == 'q' {
            (s, InputOutcome::Quit)
        } else if c == 'j' {
            (Settings { selected: Some(spec_next_index(s.selected, len)), ..s }, InputOutcome::Nothing)
        } else if c == 'k' {
            (Settings { selected: Some(spec_previous_index(s.selected, len)), ..s }, InputOutcome::Nothing)
        } else if c == 'n' {
            (if s.num_reads > 1 { Settings { num_reads: (s.num_reads / 2) as usize, ..s } } else { s }, InputOutcome::Nothing)
        } else if c == 'N' {
            (Settings { num_reads: (s.num_reads * 2) as usize, ..s }, InputOutcome::Nothing)
        } else if c == 'w' {
            (if s.writer_delay_ms > 100 { Settings { writer_delay_ms: (s.writer_delay_ms - 100) as u64, ..s } } else { s },
                InputOutcome::Nothing)
        } else if c == 'W' {
            (Settings { writer_delay_ms: (s.writer_delay_ms + 100) as u64, ..s }, InputOutcome::Nothing)
        } else if c == 'r' {
            (if s.reader_delay_ms > 1 { Settings { reader_delay_ms: (s.reader_delay_ms * 9 / 10) as u64, ..s } } else { s },
                InputOutcome::Nothing)
        } else if c == 'R' {
            (Settings { reader_delay_ms: (s.reader_delay_ms + 100) as u64, ..s }, InputOutcome::Nothing)
        } else if c == 'f' || c == 'F' {
            let mode = ((s.flicker_mode + 1) % 3) as u8;
            (Settings { flicker_mode: mode, ..s }, InputOutcome::SetFlickerMode(mode))
        } else if c == 's' || c == 'S' {
            (Settings { sequence_idx: ((s.sequence_idx + 1) % (NUM_SEQS as int)) as usize, ..s }, InputOutcome::Nothing)
        } else {
            (s, InputOutcome::Nothing)
        },
        _ => (s, InputOutcome::Nothing),
    }
}

/// The settings after a key press while a simulation runs, and what the caller has
/// to do; `longest` is the length of the longest log.
pub open spec fn running_step(s: Settings, longest: nat, key: Key) -> (Settings, InputOutcome) {
    match key {
        Key::Esc => (Settings { state: AppState::Menu, ..s }, InputOutcome::StopSimulation),
        Key::Down => (
            if s.is_paused && s.scroll_offset < longest - 1 {
                Settings { scroll_offset: (s.scroll_offset + 1) as usize, ..s }
            } else {
                s
            },
            InputOutcome::Nothing,
        ),
        Key::Up => (
            if s.is_paused && s.scroll_offset > 0 { Settings { scroll_offset: (s.scroll_offset - 1) as usize, ..s } } else { s },
            InputOutcome::Nothing,
        ),
        Key::Char(c) => if c == 'q' {
            (Settings { state: AppState::Menu, ..s }, InputOutcome::StopSimulation)
        } else if c == 'p' || c == ' ' {
            let paused = !s.is_paused;
            (Settings { is_paused: paused, scroll_offset: if paused { s.scroll_offset } else { 0 }, ..s },
                InputOutcome::SetPaused(paused))
        } else {
            (s, InputOutcome::Nothing)
        },
        _ => (s, InputOutcome::Nothing),
    }
}

/// Law: the flicker key cycles through the three modes: pressing it three times
/// in the menu leaves the settings as they were.
pub proof fn lemma_flicker_cycle(s: Settings, len: nat)
    requires
        s.flicker_mode < 3,
    ensures
        menu_step(menu_step(menu_step(s, len, Key::Char('f')).0, len, Key::Char('f')).0, len, Key::Char('f')).0 == s,
{
}

/// Law: in the menu, 'N' doubles the number of reads and changes nothing else, 'n'
/// halves it (rounding down) while it is above 1, and 'n' after 'N' gives back the
/// number of reads there was.
pub proof fn lemma_reads_double_and_halve(s: Settings, len: nat)
    requires
        s.num_reads * 2 <= usize::MAX,
    ensures
        menu_step(s, len, Key::Char('N')) == (Settings { num_reads: (2 * s.num_reads) as usize, ..s }, InputOutcome::Nothing),
        s.num_reads > 1 ==> menu_step(s, len, Key::Char('n')).0.num_reads * 2 + s.num_reads % 2 == s.num_reads,
        s.num_reads <= 1 ==> menu_step(s, len, Key::Char('n')).0 == s,
        menu_step(menu_step(s, len, Key::Char('N')).0, len, Key::Char('n')).0 == s,
{
}

/// Law: in the menu, 'W' adds 100 ms to the writer delay and 'w' takes 100 ms off
/// while it stays positive, so that 'w' after 'W' gives back a positive delay; 'R'
/// adds 100 ms to the reader delay and 'r' cuts it to nine tenths (rounding down)
/// while it is above 1 ms.
pub proof fn lemma_delay_keys(s: Settings, len: nat)
    requires
        s.writer_delay_ms + 100 <= u64::MAX,
        s.reader_delay_ms * 9 <= u64::MAX,
        s.reader_delay_ms + 100 <= u64::MAX,
    ensures
        menu_step(s, len, Key::Char('W')) == (Settings { writer_delay_ms: (s.writer_delay_ms + 100) as u64, ..s }, InputOutcome::Nothing),
        s.writer_delay_ms > 0 ==> menu_step(menu_step(s, len, Key::Char('W')).0, len, Key::Char('w')).0 == s,
        s.writer_delay_ms > 100 ==> menu_step(s, len, Key::Char('w')).0.writer_delay_ms + 100 == s.writer_delay_ms,
        s.writer_delay_ms <= 100 ==> menu_step(s, len, Key::Char('w')).0 == s,
        menu_step(s, len, Key::Char('R')) == (Settings { reader_delay_ms: (s.reader_delay_ms + 100) as u64, ..s }, InputOutcome::Nothing),
        s.reader_delay_ms > 1 ==> {
            let d = menu_step(s, len, Key::Char('r')).0.reader_delay_ms;
            &&& 10 * d <= 9 * s.reader_delay_ms < 10 * d + 10
            &&& menu_step(s, len, Key::Char('r')).0 == (Settings { reader_delay_ms: d, ..s })
        },
        s.reader_delay_ms <= 1 ==> menu_step(s, len, Key::Char('r')).0 == s,
{
}

/// Law: in the menu, the right arrow adds a reader and the left arrow takes one off
/// while more than one remains, so that left after right gives back the readers there
/// were (at least one).
pub proof fn lemma_reader_count_keys(s: Settings, len: nat)
    requires
        s.num_readers + 1 <= usize::MAX,
    ensures
        menu_step(s, len, Key::Right) == (Settings { num_readers: (s.num_readers + 1) as usize, ..s }, InputOutcome::Nothing),
        s.num_readers > 1 ==> menu_step(s, len, Key::Left).0 == (Settings { num_readers: (s.num_readers - 1) as usize, ..s }),
        s.num_readers <= 1 ==> menu_step(s, len, Key::Left).0 == s,
        s.num_readers >= 1 ==> menu_step(menu_step(s, len, Key::Right).0, len, Key::Left).0 == s,
{
}

/// Law: the sequence key moves to the next preset, wrapping after the last, so that
/// pressing it once per preset comes back to the preset there was.
pub proof fn lemma_sequence_cycle(s: Settings, len: nat)
    requires
        s.sequence_idx < NUM_SEQS,
    ensures
        menu_step(s, len, Key::Char('s')).0.sequence_idx == (if s.sequence_idx + 1 == NUM_SEQS { 0 } else { s.sequence_idx + 1 }),
        menu_step(s, len, Key::Char('s')).0 == menu_step(s, len, Key::Char('S')).0,
        menu_step(menu_step(menu_step(s, len, Key::Char('s')).0, len, Key::Char('s')).0, len, Key::Char('s')).0 == s,
{
}

/// Law: in the menu, down (or 'j') moves the selection to the next register type,
/// from the last back to the first, up (or 'k') moves it back, and each undoes the
/// other; nothing else changes. Enter starts an unpaused simulation and 'q' quits,
/// both with the settings otherwise as they were.
pub proof fn lemma_menu_navigation(s: Settings, len: nat, i: usize)
    requires
        s.selected == Some(i),
        i < len,
        len <= usize::MAX,
    ensures
        menu_step(s, len, Key::Down).0 == (Settings { selected: Some(if i + 1 == len { 0 } else { (i + 1) as usize }), ..s }),
        menu_step(s, len, Key::Up).0 == (Settings { selected: Some(if i == 0 { (len - 1) as usize } else { (i - 1) as usize }), ..s }),
        menu_step(s, len, Key::Char('j')) == menu_step(s, len, Key::Down),
        menu_step(s, len, Key::Char('k')) == menu_step(s, len, Key::Up),
        menu_step(menu_step(s, len, Key::Down).0, len, Key::Up).0 == s,
        menu_step(menu_step(s, len, Key::Up).0, len, Key::Down).0 == s,
        menu_step(s, len, Key::Enter) == (Settings { state: AppState::Running, is_paused: false, ..s }, InputOutcome::StartSimulation),
        menu_step(s, len, Key::Char('q')) == (s, InputOutcome::Quit),
{
    lemma_next_previous_inverse(i, len);
}

/// Law: pausing and then resuming a running simulation leaves it running, with the
/// logs scrolled back to the newest entries.
pub proof fn lemma_pause_resume(s: Settings, longest: nat)
    requires
        !s.is_paused,
    ensures
        running_step(running_step(s, longest, Key::Char('p')).0, longest, Key::Char('p'))
            == (Settings { scroll_offset: 0, ..s }, InputOutcome::SetPaused(false)),
{
}

/// Whether a key press in the menu keeps the settings in range: the counters it
/// raises must not overflow.
pub open spec fn menu_key_fits(s: Settings, key: Key) -> bool {
    match key {
        Key::Right => s.num_readers < usize::MAX,
        Key::Char(c) => if c == 'N' {
            s.num_reads * 2 <= usize::MAX
        } else if c == 'W' {
            s.writer_delay_ms + 100 <= u64::MAX
        } else if c == 'r' {
            s.reader_delay_ms * 9 <= u64::MAX
        } else if c == 'R' {
            s.reader_delay_ms + 100 <= u64::MAX
        } else if c == 'f' || c == 'F' {
            s.flicker_mode + 1 <= u8::MAX
        } else if c == 's' || c == 'S' {
            s.sequence_idx + 1 <= usize::MAX
        } else {
            true
        },
        _ => true,
    }
}

/// The settings that a simulator started by `App::new` keeps: at least one reader
/// and one read, a writer delay that is a positive multiple of 100 ms, a positive
/// reader delay, one of the three flicker modes and one of the sequences.
pub open spec fn settings_in_range(s: Settings) -> bool {
    &&& s.num_readers >= 1
    &&& s.num_reads >= 1
    &&& s.writer_delay_ms >= 100
    &&& s.writer_delay_ms % 100 == 0
    &&& s.reader_delay_ms >= 1
    &&& s.flicker_mode < 3
    &&& s.sequence_idx < NUM_SEQS
}

/// Law: a key press keeps the settings in range, in the menu and while a
/// simulation runs.
pub proof fn lemma_step_keeps_range(s: Settings, len: nat, longest: nat, key: Key)
    requires
        settings_in_range(s),
        menu_key_fits(s, key),
    ensures
        settings_in_range(menu_step(s, len, key).0),
        settings_in_range(running_step(s, longest, key).0),
{
    if key == Key::Char('r') && s.reader_delay_ms > 1 {
        assert(s.reader_delay_ms * 9 / 10 >= 1);
    }
}

/// The state of the simulator's screen and settings.
pub struct App {
    pub state: AppState,
    pub items: Vec<RegisterType>,
    pub selected: Option<usize>,
    pub writer_logs: VecDeque<String>,
    pub reader_logs: Vec<VecDeque<String>>,
    pub status_msg: String,
    pub num_readers: usize,
    pub num_reads: usize,
    pub writer_delay_ms: u64,
    pub reader_delay_ms: u64,
    /// 0: fast, 1: normal, 2: slow.
    pub flicker_mode: u8,
    pub sequence_idx: usize,
    pub is_paused: bool,
    pub scroll_offset: usize,
}

impl App {
    /// Some register types, one of which is selected.
    pub open spec fn wf(&self) -> bool {
        &&& self.items@.len() > 0
        &&& self.selected matches Some(i) && i < self.items@.len()
    }

    /// Every log holds at most `LOG_LEN` entries.
    pub open spec fn logs_bounded(&self) -> bool {
        &&& self.writer_logs@.len() <= LOG_LEN
        &&& forall|i: int| 0 <= i < self.reader_logs@.len() ==> (#[trigger] self.reader_logs@[i])@.len() <= LOG_LEN
    }

    pub open spec fn settings_in_range(&self) -> bool {
        settings_in_range(self.settings())
    }

    pub open spec fn settings(&self) -> Settings {
        Settings {
            state: self.state,
            selected: self.selected,
            num_readers: self.num_readers,
            num_reads: self.num_reads,
            writer_delay_ms: self.writer_delay_ms,
            reader_delay_ms: self.reader_delay_ms,
            flicker_mode: self.flicker_mode,
            sequence_idx: self.sequence_idx,
            is_paused: self.is_paused,
            scroll_offset: self.scroll_offset,
        }
    }

    pub open spec fn log_view(&self) -> LogView {
        LogView {
            writer: self.writer_logs@,
            readers: Seq::new(self.reader_logs@.len(), |i: int| self.reader_logs@[i]@),
            status: self.status_msg@,
        }
    }

    /// The length of the longest log, the readers' and the writer's together.
    pub open spec fn longest_log(&self) -> nat {
        let m = max_log_len(self.reader_logs@);
        if m > self.writer_logs@.len() { m } else { self.writer_logs@.len() }
    }

    pub open spec fn key_fits(&self, key: Key) -> bool {
        self.state == AppState::Menu ==> menu_key_fits(self.settings(), key)
    }

    /// Whether `key` can be handled without a counter overflowing.
    pub fn accepts(&self, key: Key) -> (r: bool)
        ensures
            r == self.key_fits(key),
    {
        match self.state {
            AppState::Running => true,
            AppState::Menu => match key {
                Key::Right => self.num_readers < usize::MAX,
                Key::Char(c) => {
                    if c == 'N' {
                        self.num_reads <= usize::MAX / 2
                    } else if c == 'W' {
                        self.writer_delay_ms <= u64::MAX - 100
                    } else if c == 'r' {
                        self.reader_delay_ms <= u64::MAX / 9
                    } else if c == 'R' {
                        self.reader_delay_ms <= u64::MAX - 100
                    } else if c == 'f' || c == 'F' {
                        self.flicker_mode < u8::MAX
                    } else if c == 's' || c == 'S' {
                        self.sequence_idx < usize::MAX
                    } else {
                        true
                    }
                },
                _ => true,
            },
        }
    }

    /// The length of the longest reader log.
    fn longest_reader_log(&self) -> (r: usize)
        ensures
            r == max_log_len(self.reader_logs@),
    {
        let mut m: usize = 0;
        let mut k: usize = 0;
        while k < self.reader_logs.len()
            invariant
                k <= self.reader_logs@.len(),
                m == max_log_len(self.reader_logs@.subrange(0, k as int)),
            decreases self.reader_logs@.len() - k,
        {
            assert(self.reader_logs@.subrange(0, k + 1).drop_last() =~= self.reader_logs@.subrange(0, k as int));
            let l = self.reader_logs[k].len();
            if l > m {
                m = l;
            }
            k = k + 1;
        }
        assert(self.reader_logs@.subrange(0, k as int) =~= self.reader_logs@);
        m
    }

    /// Handles a key press. In the menu: quit, move the selection, start a
    /// simulation, or change a setting; while a simulation runs: go back to the menu,
    /// pause or resume, or scroll the paused logs. Says what the caller has to do.
    pub fn handle_input(&mut self, key: Key) -> (r: InputOutcome)
        requires
            old(self).wf(),
            old(self).key_fits(key),
        ensures
            final(self).wf(),
            final(self).items == old(self).items,
            old(self).logs_bounded() ==> final(self).logs_bounded(),
            old(self).settings_in_range() ==> final(self).settings_in_range(),
            (r == InputOutcome::Quit) <==> (old(self).state == AppState::Menu && key == Key::Char('q')),
            r == InputOutcome::Quit ==> *final(self) == *old(self),
            old(self).state == AppState::Menu ==> (final(self).settings(), r) == menu_step(old(self).settings(), old(self).items@.len(), key),
            old(self).state == AppState::Running ==> (final(self).settings(), r) == running_step(old(self).settings(), old(self).longest_log(), key),
            r == InputOutcome::StartSimulation ==> {
                &&& final(self).writer_logs@.len() == 0
                &&& final(self).reader_logs@.len() == old(self).num_readers
                &&& forall|i: int| 0 <= i < final(self).reader_logs@.len() ==> (#[trigger] final(self).reader_logs@[i])@.len() == 0
                &&& final(self).status_msg@ == "Simulation RUNNING"@
            },
            r != InputOutcome::StartSimulation ==> {
                &&& final(self).writer_logs == old(self).writer_logs
                &&& final(self).reader_logs == old(self).reader_logs
            },
            r matches InputOutcome::SetPaused(p) ==> (!text_contains(old(self).status_msg@, "FINISHED"@) ==>
                final(self).status_msg@ == (if p { "Simulation PAUSED"@ } else { "Simulation RUNNING"@ })),
            (r != InputOutcome::StartSimulation && !(r is SetPaused && !text_contains(old(self).status_msg@, "FINISHED"@))) ==>
                final(self).status_msg == old(self).status_msg,
    {
        match self.state {
            AppState::Menu => match key {
                Key::Char('q') => {
                    return InputOutcome::Quit;
                },
                Key::Down | Key::Char('j') => self.next(),
                Key::Up | Key::Char('k') => self.previous(),
                Key::Enter => {
                    self.start_simulation();
                    return InputOutcome::StartSimulation;
                },
                // Hotkeys for the parameters
                Key::Right => self.num_readers = self.num_readers + 1,
                Key::Left => {
                    if self.num_readers > 1 {
                        self.num_readers = self.num_readers - 1;
                    }
                },
                Key::Char('n') => {
                    if self.num_reads > 1 {
                        self.num_reads = self.num_reads / 2;
                    }
                },
                Key::Char('N') => self.num_reads = self.num_reads * 2,
                Key::Char('w') => {
                    if self.writer_delay_ms > 100 {
                        self.writer_delay_ms = self.writer_delay_ms - 100;
                    }
                },
                Key::Char('W') => self.writer_delay_ms = self.writer_delay_ms + 100,
                Key::Char('r') => {
                    if self.reader_delay_ms > 1 {
                        self.reader_delay_ms = (self.reader_delay_ms * 9) / 10;
                    }
                },
                Key::Char('R') => self.reader_delay_ms = self.reader_delay_ms + 100,
                // Hotkey for the flicker mode
                Key::Char('f') | Key::Char('F') => {
                    self.flicker_mode = (self.flicker_mode + 1) % 3;
                    return InputOutcome::SetFlickerMode(self.flicker_mode);
                },
                Key::Char('s') | Key::Char('S') => {
                    self.sequence_idx = (self.sequence_idx + 1) % NUM_SEQS;
                },
                _ => {},
            },
            AppState::Running => match key {
                Key::Char('q') | Key::Esc => {
                    self.state = AppState::Menu;
                    return InputOutcome::StopSimulation;
                },
                Key::Char('p') | Key::Char(' ') => {
                    self.is_paused = !self.is_paused;
                    if !self.is_paused {
                        self.scroll_offset = 0;
                    }
                    if !contains_text(self.status_msg.as_str(), "FINISHED") {
                        self.status_msg = if self.is_paused {
                            "Simulation PAUSED".to_owned()
                        } else {
                            "Simulation RUNNING".to_owned()
                        };
                    }
                    return InputOutcome::SetPaused(self.is_paused);
                },
                Key::Down => {
                    if self.is_paused {
                        // The longest log bounds the scrolling
                        let max_reader_len = self.longest_reader_log();
                        let absolute_max = if max_reader_len > self.writer_logs.len() {
                            max_reader_len
                        } else {
                            self.writer_logs.len()
                        };
                        if self.scroll_offset < absolute_max.saturating_sub(1) {
                            self.scroll_offset = self.scroll_offset + 1;
                        }
                    }
                },
                Key::Up => {
                    if self.is_paused {
                        self.scroll_offset = self.scroll_offset.saturating_sub(1);
                    }
                },
                _ => {},
            },
        }
        InputOutcome::Nothing
    }

    /// The menu with every register type, the first one selected, and the default
    /// settings: 3 readers, 100 reads, writer delay 1000 ms, reader delay 50 ms, normal
    /// flicker, the first sequence.
    pub fn new() -> (r: App)
        ensures
            r.wf(),
            r.logs_bounded(),
            r.settings_in_range(),
            r.state == AppState::Menu,
            r.items@ == seq![RegisterType::SafeSRSW, RegisterType::SafeMRSW, RegisterType::Regular,
                RegisterType::MRegular, RegisterType::AtomicSRSW, RegisterType::AtomicMRSW, RegisterType::AtomicMRMW],
            r.selected == Some(0usize),
            r.writer_logs@.len() == 0,
            r.reader_logs@.len() == 0,
            r.status_msg@.len() == 0,
            r.num_readers == 3,
            r.num_reads == 100,
            r.writer_delay_ms == 1000,
            r.reader_delay_ms == 50,
            r.flicker_mode == 1,
            r.sequence_idx == 0,
            !r.is_paused,
            r.scroll_offset == 0,
    {
        App {
            state: AppState::Menu,
            items: vec![
                RegisterType::SafeSRSW,
                RegisterType::SafeMRSW,
                RegisterType::Regular,
                RegisterType::MRegular,
                RegisterType::AtomicSRSW,
                RegisterType::AtomicMRSW,
                RegisterType::AtomicMRMW,
            ],
            selected: Some(0),
            writer_logs: VecDeque::with_capacity(LOG_LEN),
            reader_logs: Vec::new(),
            status_msg: String::new(),
            num_readers: 3,
            num_reads: 100,
            writer_delay_ms: 1000,
            reader_delay_ms: 50,
            flicker_mode: 1,
            sequence_idx: 0,
            is_paused: false,
            scroll_offset: 0,
        }
    }

    /// The register type under the selection.
    pub fn selected_type(&self) -> (r: RegisterType)
        requires
            self.wf(),
        ensures
            r == self.items@[self.selected.unwrap() as int],
    {
        match self.selected {
            Some(i) => self.items[i],
            None => self.items[0],
        }
    }

    /// Appends `entry` to `log`, dropping the oldest entry when the log is full.
    fn append_log(log: &mut VecDeque<String>, entry: String)
        ensures
            final(log)@ == appended(old(log)@, entry),
            old(log)@.len() <= LOG_LEN ==> final(log)@.len() <= LOG_LEN,
    {
        if log.len() >= LOG_LEN {
            log.pop_front();
        }
        log.push_back(entry);
    }

    /// Takes in one report of the simulation: writer and reader updates go to the end
    /// of their logs (a reader that does not exist is ignored), a status replaces the
    /// status message.
    pub fn process_event(&mut self, event: SimEvent)
        requires
            old(self).wf(),
        ensures
            final(self).wf(),
            final(self).items == old(self).items,
            final(self).settings() == old(self).settings(),
            final(self).log_view() == event_step(old(self).log_view(), event),
            old(self).logs_bounded() ==> final(self).logs_bounded(),
    {
        match event {
            SimEvent::WriterUpdate(val) => {
                App::append_log(&mut self.writer_logs, val);
            },
            SimEvent::ReaderUpdate(id, val) => {
                if id < self.reader_logs.len() {
                    App::append_log(&mut self.reader_logs[id], val);
                    proof {
                        assert(self.log_view().readers =~= old(self).log_view().readers.update(
                            id as int,
                            appended(old(self).log_view().readers[id as int], val),
                        ));
                    }
                }
            },
            SimEvent::Status(msg) => {
                self.status_msg = msg;
            },
        }
    }

    /// Takes in the reports of the simulation, in order.
    pub fn process_events(&mut self, events: Vec<SimEvent>)
        requires
            old(self).wf(),
        ensures
            final(self).wf(),
            final(self).items == old(self).items,
            final(self).settings() == old(self).settings(),
            final(self).log_view() == events_step(old(self).log_view(), events@),
            old(self).logs_bounded() ==> final(self).logs_bounded(),
    {
        let ghost all_events = events@;
        let mut events = events;
        while events.len() > 0
            invariant
                self.wf(),
                self.items == old(self).items,
                self.settings() == old(self).settings(),
                old(self).logs_bounded() ==> self.logs_bounded(),
                events_step(self.log_view(), events@) == events_step(old(self).log_view(), all_events),
            decreases events@.len(),
        {
            let ghost rest = events@;
            let event = events.remove(0);
            assert(events@ =~= rest.drop_first());
            self.process_event(event);
        }
    }

    /// Moves the selection down, wrapping to the top.
    fn next(&mut self)
        requires
            old(self).items@.len() > 0,
        ensures
            *final(self) == (App { selected: Some(spec_next_index(old(self).selected, old(self).items@.len())), ..*old(self) }),
    {
        let i = match self.selected {
            Some(i) => {
                if i >= self.items.len() - 1 {
                    0
                } else {
                    i + 1
                }
            },
            None => 0,
        };
        self.selected = Some(i);
    }

    /// Moves the selection up, wrapping to the bottom.
    fn previous(&mut self)
        requires
            old(self).items@.len() > 0,
        ensures
            *final(self) == (App { selected: Some(spec_previous_index(old(self).selected, old(self).items@.len())), ..*old(self) }),
    {
        let i = match self.selected {
            Some(i) => {
                if i == 0 {
                    self.items.len() - 1
                } else {
                    i - 1
                }
            },
            None => 0,
        };
        self.selected = Some(i);
    }

    /// Switches to the running screen with empty logs, one per reader.
    fn start_simulation(&mut self)
        requires
            old(self).wf(),
        ensures
            final(self).wf(),
            final(self).logs_bounded(),
            final(self).state == AppState::Running,
            final(self).writer_logs@.len() == 0,
            final(self).reader_logs@.len() == old(self).num_readers,
            forall|i: int| 0 <= i < final(self).reader_logs@.len() ==> (#[trigger] final(self).reader_logs@[i])@.len() == 0,
            final(self).status_msg@ == "Simulation RUNNING"@,
            !final(self).is_paused,
            final(self).items == old(self).items,
            final(self).selected == old(self).selected,
            final(self).num_readers == old(self).num_readers,
            final(self).num_reads == old(self).num_reads,
            final(self).writer_delay_ms == old(self).writer_delay_ms,
            final(self).reader_delay_ms == old(self).reader_delay_ms,
            final(self).flicker_mode == old(self).flicker_mode,
            final(self).sequence_idx == old(self).sequence_idx,
            final(self).scroll_offset == old(self).scroll_offset,
    {
        self.state = AppState::Running;
        self.writer_logs.clear();
        let mut logs: Vec<VecDeque<String>> = Vec::with_capacity(self.num_readers);
        let mut k: usize = 0;
        while k < self.num_readers
            invariant
                k <= self.num_readers,
                logs@.len() == k,
                forall|i: int| 0 <= i < k ==> (#[trigger] logs@[i])@.len() == 0,
            decreases self.num_readers - k,
        {
            logs.push(VecDeque::with_capacity(LOG_LEN));
            k = k + 1;
        }
        self.reader_logs = logs;
        self.status_msg = "Simulation RUNNING".to_owned();
        self.is_paused = false;
    }
}

} // verus!
