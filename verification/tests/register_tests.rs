use registers::atomic_mrmw::AtomicMRMW;
use registers::atomic_mrsw::AtomicMRSW;

#[test]
fn test_sequential_mrmw_two_nodes() {
    // 1. Initialize the MRMW system for 2 participants
    let mut mrmw = AtomicMRMW::new(2);

    // 2. Extract both reader/writer handles
    let mut node_0 = mrmw.get_nth_reader(0).expect("Node 0 should exist");
    let mut node_1 = mrmw.get_nth_reader(1).expect("Node 1 should exist");

    // --- FIRST WRITE CYCLE ---
    // Node 0 acts as the writer and writes 3
    node_0.write(3);

    // Both nodes act as readers and verify the value is 3
    assert_eq!(
        node_0.read(),
        3,
        "Node 0 failed to read its own written value"
    );
    assert_eq!(
        node_1.read(),
        3,
        "Node 1 failed to read the value written by Node 0"
    );

    // --- SECOND WRITE CYCLE ---
    // Node 1 acts as the writer and updates the value to 7
    node_1.write(7);

    // Both nodes act as readers and verify the system has moved to 7
    assert_eq!(
        node_1.read(),
        7,
        "Node 1 failed to read its own updated value"
    );
    assert_eq!(
        node_0.read(),
        7,
        "Node 0 failed to see the updated value from Node 1"
    );
}

#[test]
fn test_cannot_double_extract_nodes() {
    let mut mrmw = AtomicMRMW::new(2);

    // First pull is successful
    assert!(mrmw.get_nth_reader(0).is_some());

    // Second pull is None because the slot was left empty
    assert!(mrmw.get_nth_reader(0).is_none());
}

#[test]
fn test_sequential_write_and_read_two_readers() {
    // Initialize the AtomicMRSW registry for 2 readers
    let mut mrsw = AtomicMRSW::new(2);

    // Extract both readers from the registry
    let mut reader_0 = mrsw.get_nth_reader(0).expect("Reader 0 should exist");
    let mut reader_1 = mrsw.get_nth_reader(1).expect("Reader 1 should exist");

    // Write the first value
    let first_value = 7;
    mrsw.write(first_value);

    // Verify both readers see the first value sequentially
    assert_eq!(
        reader_0.read(),
        first_value,
        "Reader 0 failed to read the first value"
    );
    assert_eq!(
        reader_1.read(),
        first_value,
        "Reader 1 failed to read the first value"
    );

    //  Write a second value to verify updates propagate correctly
    let second_value = 1;
    mrsw.write(second_value);

    // Verify both readers see the updated value sequentially
    assert_eq!(
        reader_1.read(),
        second_value,
        "Reader 1 failed to read the updated value"
    );
    assert_eq!(
        reader_0.read(),
        second_value,
        "Reader 0 failed to read the updated value"
    );
}

#[test]
fn test_interleaved_reader_value_propagation() {
    let mut mrsw = AtomicMRSW::new(2);

    let mut reader_0 = mrsw.get_nth_reader(0).expect("Reader 0 should exist");
    let mut reader_1 = mrsw.get_nth_reader(1).expect("Reader 1 should exist");

    mrsw.write(10);

    assert_eq!(reader_0.read(), 10);

    mrsw.write(12);

    assert_eq!(reader_0.read(), 12);

    assert_eq!(reader_1.read(), 12);
}

#[test]
fn test_cannot_grab_same_reader_twice() {
    let mut mrsw = AtomicMRSW::new(2);

    // First grab is successful
    assert!(mrsw.get_nth_reader(0).is_some());

    // Second grab returns None because the slot was left empty
    assert!(mrsw.get_nth_reader(0).is_none());
}
