use std::collections::VecDeque;

use registers::app_model::{
    boolean_sequence, contains_text, numeric_sequence, App, AppState, InputOutcome, Key, RegisterType, SimEvent, LOG_LEN,
};
use registers::atomic_mrmw::{newest_value, next_stamped, AtomicMRMW};
use registers::atomic_mrsw::AtomicMRSW;
use registers::atomic_srsw;
use registers::m_regular::{first_set, MRegularMRSW, WriterError};
use registers::regular_registers::RegularMRSW;
use registers::safe_mrsw::SafeMRSW;
use registers::safe_registers::{flicker_bounds, safe_boolean_srsw, FLICKER_FAST};
use registers::stamped_values::{newest_index, StampedValue};

#[test]
fn stamped_u8_packs_stamp_above_value() {
    let sv = StampedValue::<u8, 4>::new(1, 11);
    assert_eq!(sv.into_u8(), 27);
    assert_eq!(sv.value(), 11);
    assert_eq!(sv.stamp(), 1);
    let sv5 = StampedValue::<u8, 5>::new(2, 23);
    assert_eq!(sv5.into_u8(), 87);
    assert_eq!(sv5.value(), 23);
    assert_eq!(sv5.stamp(), 2);
}

#[test]
fn stamped_u8_stamp_loses_high_bits() {
    // Only three stamp bits remain above five value bits.
    let sv = StampedValue::<u8, 5>::new(9, 4);
    assert_eq!(sv.stamp(), 1);
    assert_eq!(sv.value(), 4);
}

#[test]
fn stamped_u16_round_trip() {
    let sv = StampedValue::<u16, 8>::new(3, 200);
    assert_eq!(sv.to_u16(), 3 * 256 + 200);
    assert_eq!(sv.value(), 200);
    assert_eq!(sv.stamp(), 3);
    let raw = StampedValue::<u16, 8>::from_raw(0x1234);
    assert_eq!(raw.stamp(), 0x12);
    assert_eq!(raw.value(), 0x34);
    let wrapped = StampedValue::<u16, 8>::new(0x1ff, 1);
    assert_eq!(wrapped.stamp(), 0xff);
}

#[test]
fn stamped_update_copies_the_other() {
    let mut a = StampedValue::<u8, 4>::from_raw(5);
    let b = StampedValue::<u8, 4>::from_raw(200);
    a.update(&b);
    assert_eq!(a.into_u8(), 200);
    let mut c = StampedValue::<u16, 8>::from_raw(1);
    c.update(&StampedValue::<u16, 8>::from_raw(513));
    assert_eq!(c.to_u16(), 513);
}

#[test]
fn newest_index_prefers_largest_stamp_then_last() {
    // stamps (5 value bits): 1, 2, 2, 0
    let vals = vec![32 + 7, 64 + 1, 64 + 3, 9];
    assert_eq!(newest_index(&vals, 5), 2);
    assert_eq!(newest_index(&vec![5u8], 5), 0);
    // values alone do not count
    assert_eq!(newest_index(&vec![31u8, 0u8], 5), 1);
}

#[test]
fn flicker_bounds_per_mode() {
    let fast = flicker_bounds(0);
    assert_eq!((fast.min_steps, fast.max_steps, fast.min_pause_ms, fast.max_pause_ms), (2, 5, 1, 5));
    let normal = flicker_bounds(1);
    assert_eq!((normal.min_steps, normal.max_steps, normal.min_pause_ms, normal.max_pause_ms), (5, 10, 5, 25));
    let slow = flicker_bounds(2);
    assert_eq!((slow.min_steps, slow.max_steps, slow.min_pause_ms, slow.max_pause_ms), (5, 10, 10, 50));
    let other = flicker_bounds(7);
    assert_eq!((other.min_steps, other.max_steps, other.min_pause_ms, other.max_pause_ms), (5, 10, 10, 50));
}

#[test]
fn safe_register_read_after_write() {
    let (reader, mut writer) = safe_boolean_srsw();
    writer.set_flicker_mode(FLICKER_FAST);
    assert!(!reader.read());
    writer.write(true);
    assert!(reader.read());
    writer.write(false);
    assert!(!reader.read());
}

#[test]
fn safe_mrsw_every_reader_sees_the_write() {
    let mut reg = SafeMRSW::new(3);
    reg.set_flicker_mode(FLICKER_FAST);
    let r0 = reg.get_nth_reader(0).unwrap();
    let r2 = reg.get_nth_reader(2).unwrap();
    assert!(reg.get_nth_reader(0).is_none());
    assert!(reg.get_nth_reader(3).is_none());
    reg.write(true);
    assert!(r0.read());
    assert!(r2.read());
    let r1 = reg.get_nth_reader(1).unwrap();
    assert!(r1.read());
}

#[test]
fn regular_register_read_after_write() {
    let mut reg = RegularMRSW::new(2);
    reg.set_flicker_mode(FLICKER_FAST);
    let r = reg.get_nth_reader(1).unwrap();
    assert!(reg.get_nth_reader(1).is_none());
    assert!(!r.read());
    reg.write(true);
    assert!(r.read());
    reg.write(true);
    assert!(r.read());
    reg.write(false);
    assert!(!r.read());
}

#[test]
fn m_regular_read_after_write() {
    let mut reg = MRegularMRSW::new(2, 8);
    reg.set_flicker_mode(FLICKER_FAST);
    let r = reg.get_nth_reader(0).unwrap();
    assert_eq!(r.read(), Some(0));
    assert_eq!(reg.write(5), Ok(()));
    assert_eq!(r.read(), Some(5));
    assert_eq!(reg.write(2), Ok(()));
    assert_eq!(r.read(), Some(2));
    assert_eq!(reg.write(7), Ok(()));
    assert_eq!(r.read(), Some(7));
}

#[test]
fn m_regular_refuses_values_not_below_m() {
    let mut reg = MRegularMRSW::new(1, 4);
    reg.set_flicker_mode(FLICKER_FAST);
    let r = reg.get_nth_reader(0).unwrap();
    assert_eq!(reg.write(4), Err(WriterError::MValueExceeded));
    assert_eq!(reg.write(100), Err(WriterError::MValueExceeded));
    assert_eq!(r.read(), Some(0));
    assert!(reg.get_nth_reader(0).is_none());
    assert!(reg.get_nth_reader(1).is_none());
}

#[test]
fn atomic_srsw_read_after_write() {
    let (mut reader, mut writer) = atomic_srsw::new();
    assert_eq!(reader.read(), 0);
    assert!(writer.can_write());
    writer.write(200);
    assert_eq!(reader.read(), 200);
    writer.write(3);
    assert_eq!(reader.read(), 3);
    assert_eq!(reader.read(), 3);
}

#[test]
fn atomic_srsw_reader_keeps_newer_value() {
    let (mut reader, _writer) = atomic_srsw::new();
    // stamp 2, value 9 (twelve value bits)
    assert_eq!(reader.accept_observation(Some(2 * 4096 + 9)), 9);
    // an older stamp is ignored
    assert_eq!(reader.accept_observation(Some(4096 + 4)), 9);
    // nothing seen: the kept value
    assert_eq!(reader.accept_observation(None), 9);
    // an equal stamp is taken
    assert_eq!(reader.accept_observation(Some(2 * 4096 + 11)), 11);
    assert_eq!(reader.accept_observation(Some(3 * 4096)), 0);
    assert_eq!(reader.accept_observation(Some(15 * 4096 + 4095)), 4095);
}

#[test]
fn atomic_mrsw_reader_takes_newest_observation() {
    let mut mrsw = AtomicMRSW::new(2);
    let mut reader = mrsw.get_nth_reader(1).unwrap();
    // packed pairs with the stamp above eight value bits: (1, 7) and (2, 1)
    assert_eq!(reader.accept_observations(&vec![256 + 7, 512 + 1]), 1);
    assert_eq!(reader.accept_observations(&vec![512 + 5, 256 + 1]), 5);
    assert_eq!(reader.accept_observations(&vec![512 + 255, 512 + 200]), 200);
    assert!(reader.can_read());
    assert!(mrsw.can_write());
    assert!(mrsw.get_nth_reader(1).is_none());
    assert!(mrsw.get_nth_reader(2).is_none());
}

#[test]
fn atomic_mrsw_reader_reads_latest_of_several_writes() {
    let mut mrsw = AtomicMRSW::new(1);
    let mut reader = mrsw.get_nth_reader(0).unwrap();
    mrsw.write(31);
    mrsw.write(0);
    mrsw.write(17);
    assert_eq!(reader.read(), 17);
    mrsw.write(255);
    assert_eq!(reader.read(), 255);
}

#[test]
fn mrmw_next_stamp_and_value() {
    // newest stamp 1 (bits above the low three)
    assert_eq!(next_stamped(&vec![8 + 3, 0], 7), 16 + 7);
    assert_eq!(newest_value(&vec![8 + 3, 0]), 3);
    // stamp 3 is followed by stamp 4
    assert_eq!(next_stamped(&vec![24 + 1], 2), 32 + 2);
    assert_eq!(newest_value(&vec![24 + 1, 16 + 6]), 1);
    // five stamp bits: the stamp after 31 is 0
    assert_eq!(next_stamped(&vec![248 + 1], 2), 2);
}

#[test]
fn mrmw_successive_writes_by_two_nodes() {
    let mut mrmw = AtomicMRMW::new(2);
    let mut a = mrmw.get_nth_reader(0).unwrap();
    let mut b = mrmw.get_nth_reader(1).unwrap();
    assert!(mrmw.get_nth_reader(0).is_none());
    for (k, v) in [1u8, 2, 3, 4, 5, 6, 7, 0, 5, 2].iter().enumerate() {
        let writer = if k % 2 == 0 { &mut a } else { &mut b };
        assert!(writer.can_write());
        writer.write(*v);
        assert_eq!(a.read(), *v);
        assert_eq!(b.read(), *v);
    }
}

#[test]
fn register_types_holding_booleans() {
    assert!(RegisterType::SafeSRSW.is_boolean());
    assert!(RegisterType::Regular.is_boolean());
    assert!(!RegisterType::MRegular.is_boolean());
    assert!(!RegisterType::AtomicSRSW.is_boolean());
    assert!(RegisterType::AtomicMRMW.is_boolean());
}

#[test]
fn preset_sequences() {
    assert_eq!(boolean_sequence(0), vec![true, false, true, false, true, false, true, false]);
    assert_eq!(boolean_sequence(2), vec![true, true, true, true, false, false, false, false]);
    assert_eq!(numeric_sequence(1), vec![0, 0, 2, 2, 4, 4, 6, 6]);
    assert_eq!(numeric_sequence(2), vec![0, 0, 0, 0, 1, 1, 1, 1]);
}

#[test]
fn app_defaults() {
    let app = App::new();
    assert_eq!(app.state, AppState::Menu);
    assert_eq!(app.items.len(), 7);
    assert_eq!(app.selected, Some(0));
    assert_eq!(app.num_readers, 3);
    assert_eq!(app.num_reads, 100);
    assert_eq!(app.writer_delay_ms, 1000);
    assert_eq!(app.reader_delay_ms, 50);
    assert_eq!(app.flicker_mode, 1);
    assert_eq!(app.selected_type(), RegisterType::SafeSRSW);
}

#[test]
fn app_menu_selection_wraps() {
    let mut app = App::new();
    assert_eq!(app.handle_input(Key::Up), InputOutcome::Nothing);
    assert_eq!(app.selected, Some(6));
    assert_eq!(app.handle_input(Key::Char('j')), InputOutcome::Nothing);
    assert_eq!(app.selected, Some(0));
    app.handle_input(Key::Down);
    app.handle_input(Key::Char('k'));
    assert_eq!(app.selected, Some(0));
}

#[test]
fn app_menu_settings() {
    let mut app = App::new();
    app.handle_input(Key::Right);
    assert_eq!(app.num_readers, 4);
    for _ in 0..5 {
        app.handle_input(Key::Left);
    }
    assert_eq!(app.num_readers, 1);
    app.handle_input(Key::Char('n'));
    assert_eq!(app.num_reads, 50);
    app.handle_input(Key::Char('N'));
    assert_eq!(app.num_reads, 100);
    app.handle_input(Key::Char('w'));
    assert_eq!(app.writer_delay_ms, 900);
    app.handle_input(Key::Char('W'));
    assert_eq!(app.writer_delay_ms, 1000);
    app.handle_input(Key::Char('r'));
    assert_eq!(app.reader_delay_ms, 45);
    app.handle_input(Key::Char('R'));
    assert_eq!(app.reader_delay_ms, 145);
    assert_eq!(app.handle_input(Key::Char('f')), InputOutcome::SetFlickerMode(2));
    assert_eq!(app.handle_input(Key::Char('F')), InputOutcome::SetFlickerMode(0));
    assert_eq!(app.handle_input(Key::Char('f')), InputOutcome::SetFlickerMode(1));
    app.handle_input(Key::Char('s'));
    app.handle_input(Key::Char('S'));
    assert_eq!(app.sequence_idx, 2);
    app.handle_input(Key::Char('s'));
    assert_eq!(app.sequence_idx, 0);
    assert_eq!(app.handle_input(Key::Char('q')), InputOutcome::Quit);
}

#[test]
fn app_refuses_overflowing_keys() {
    let mut app = App::new();
    app.num_readers = usize::MAX;
    assert!(!app.accepts(Key::Right));
    assert!(app.accepts(Key::Left));
    app.num_reads = usize::MAX / 2 + 1;
    assert!(!app.accepts(Key::Char('N')));
}

#[test]
fn app_running_pause_and_scroll() {
    let mut app = App::new();
    assert_eq!(app.handle_input(Key::Enter), InputOutcome::StartSimulation);
    assert_eq!(app.state, AppState::Running);
    assert_eq!(app.reader_logs.len(), 3);
    assert_eq!(app.status_msg, "Simulation RUNNING");
    app.process_events(vec![
        SimEvent::WriterUpdate("Writing: 1".to_string()),
        SimEvent::ReaderUpdate(0, "1".to_string()),
        SimEvent::ReaderUpdate(0, "0".to_string()),
        SimEvent::ReaderUpdate(0, "1".to_string()),
        SimEvent::ReaderUpdate(9, "lost".to_string()),
    ]);
    assert_eq!(app.writer_logs.len(), 1);
    assert_eq!(app.reader_logs[0].len(), 3);
    // scrolling only while paused
    app.handle_input(Key::Down);
    assert_eq!(app.scroll_offset, 0);
    assert_eq!(app.handle_input(Key::Char('p')), InputOutcome::SetPaused(true));
    assert_eq!(app.status_msg, "Simulation PAUSED");
    app.handle_input(Key::Down);
    app.handle_input(Key::Down);
    app.handle_input(Key::Down);
    assert_eq!(app.scroll_offset, 2);
    app.handle_input(Key::Up);
    assert_eq!(app.scroll_offset, 1);
    assert_eq!(app.handle_input(Key::Char(' ')), InputOutcome::SetPaused(false));
    assert_eq!(app.scroll_offset, 0);
    assert_eq!(app.status_msg, "Simulation RUNNING");
    app.process_events(vec![SimEvent::Status("Simulation FINISHED".to_string())]);
    assert_eq!(app.status_msg, "Simulation FINISHED");
    app.handle_input(Key::Char('p'));
    assert_eq!(app.status_msg, "Simulation FINISHED");
    assert_eq!(app.handle_input(Key::Esc), InputOutcome::StopSimulation);
    assert_eq!(app.state, AppState::Menu);
}

#[test]
fn app_logs_keep_the_newest_entries() {
    let mut app = App::new();
    app.handle_input(Key::Enter);
    let mut events = Vec::new();
    for i in 0..LOG_LEN + 2 {
        events.push(SimEvent::WriterUpdate(format!("{}", i)));
    }
    app.process_events(events);
    assert_eq!(app.writer_logs.len(), LOG_LEN);
    assert_eq!(app.writer_logs.front().unwrap(), "2");
    assert_eq!(app.writer_logs.back().unwrap(), &format!("{}", LOG_LEN + 1));
    let empty: VecDeque<String> = VecDeque::new();
    assert_eq!(app.reader_logs[1], empty);
    app.process_events(vec![SimEvent::Status("Pending integration.".to_string())]);
    assert_eq!(app.status_msg, "Pending integration.");
}

#[test]
fn stamped_repacking_gives_back_the_packed_integer() {
    for raw in [0u8, 27, 87, 200, 255] {
        let sv = StampedValue::<u8, 5>::from_raw(raw);
        assert_eq!(StampedValue::<u8, 5>::new(sv.stamp(), sv.value()).into_u8(), raw);
    }
    let sv = StampedValue::<u16, 8>::from_raw(0xabcd);
    assert_eq!(StampedValue::<u16, 8>::new(sv.stamp(), sv.value()).to_u16(), 0xabcd);
}

#[test]
fn text_search() {
    assert!(contains_text("Simulation FINISHED", "FINISHED"));
    assert!(contains_text("FINISHED", "FINISHED"));
    assert!(!contains_text("Simulation RUNNING", "FINISHED"));
    assert!(!contains_text("FINISHE", "FINISHED"));
    assert!(contains_text("abc", ""));
}

#[test]
fn app_pause_keeps_a_finished_status() {
    let mut app = App::new();
    app.handle_input(Key::Enter);
    app.process_events(vec![SimEvent::Status("Writer FINISHED early".to_string())]);
    assert_eq!(app.handle_input(Key::Char('p')), InputOutcome::SetPaused(true));
    assert_eq!(app.status_msg, "Writer FINISHED early");
    app.process_events(vec![SimEvent::Status("Pending integration.".to_string())]);
    app.handle_input(Key::Char('p'));
    assert_eq!(app.status_msg, "Simulation RUNNING");
}

#[test]
fn first_set_finds_the_first_true() {
    assert_eq!(first_set(&vec![false, false, true, true]), Some(2));
    assert_eq!(first_set(&vec![true]), Some(0));
    assert_eq!(first_set(&vec![false, false]), None);
    assert_eq!(first_set(&Vec::new()), None);
}

#[test]
fn stamps_compare_alone() {
    let older = StampedValue::<u8, 5>::new(1, 31);
    let newer = StampedValue::<u8, 5>::new(2, 0);
    assert!(newer.stamp_at_least(&older));
    assert!(!older.stamp_at_least(&newer));
    assert!(older.stamp_at_least(&StampedValue::<u8, 5>::new(1, 3)));
    let a = StampedValue::<u16, 12>::new(3, 5);
    let b = StampedValue::<u16, 12>::new(2, 4095);
    assert!(a.stamp_at_least(&b));
    assert!(!b.stamp_at_least(&a));
}

#[test]
fn app_refuses_overflowing_cycle_keys() {
    let mut app = App::new();
    app.flicker_mode = u8::MAX;
    assert!(!app.accepts(Key::Char('f')));
    assert!(!app.accepts(Key::Char('F')));
    app.flicker_mode = 2;
    assert!(app.accepts(Key::Char('f')));
    app.sequence_idx = usize::MAX;
    assert!(!app.accepts(Key::Char('s')));
    app.sequence_idx = 0;
    assert!(app.accepts(Key::Char('S')));
    // while a simulation runs every key fits
    app.handle_input(Key::Enter);
    app.flicker_mode = u8::MAX;
    assert!(app.accepts(Key::Char('f')));
}

#[test]
fn app_quits_only_from_the_menu_and_changes_nothing() {
    let mut app = App::new();
    app.handle_input(Key::Char('W'));
    let before = (app.state, app.selected, app.num_readers, app.writer_delay_ms, app.flicker_mode);
    assert_eq!(app.handle_input(Key::Char('q')), InputOutcome::Quit);
    assert_eq!((app.state, app.selected, app.num_readers, app.writer_delay_ms, app.flicker_mode), before);
    app.handle_input(Key::Enter);
    assert_eq!(app.handle_input(Key::Char('q')), InputOutcome::StopSimulation);
    assert_eq!(app.state, AppState::Menu);
}

#[test]
fn app_settings_stay_in_range() {
    let mut app = App::new();
    for _ in 0..30 {
        app.handle_input(Key::Char('w'));
        app.handle_input(Key::Char('r'));
        app.handle_input(Key::Char('n'));
        app.handle_input(Key::Left);
    }
    assert_eq!(app.writer_delay_ms, 100);
    assert_eq!(app.reader_delay_ms, 1);
    assert_eq!(app.num_reads, 1);
    assert_eq!(app.num_readers, 1);
}
