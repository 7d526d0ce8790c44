use giralnet::addr::Address;
use giralnet::circuit::CircuitManager;
use giralnet::exit::mux_replay;
use giralnet::protocol::CircuitMessage;
use giralnet::stream_table::StreamTable;

fn dest(port: u16) -> Address {
    Address { o0: 127, o1: 0, o2: 0, o3: 1, port }
}

#[test]
fn stream_ids_are_pairwise_distinct() {
    let mut manager = CircuitManager::new();
    let mut ids: Vec<u32> = Vec::new();
    for _ in 0..100 {
        assert!(manager.can_allocate());
        ids.push(manager.new_stream_id());
    }
    let mut sorted = ids.clone();
    sorted.sort();
    sorted.dedup();
    assert_eq!(sorted.len(), ids.len());
    assert_eq!(ids[0], 1);
}

#[test]
fn stream_table_insert_get_remove() {
    let mut table: StreamTable<u64> = StreamTable::new();
    assert_eq!(table.len(), 0);
    table.insert(1, 10);
    table.insert(2, 20);
    assert_eq!(table.len(), 2);
    assert_eq!(table.get(1), Some(&10));
    assert_eq!(table.get(2), Some(&20));
    assert_eq!(table.get(3), None);
    table.insert(1, 11);
    assert_eq!(table.len(), 2);
    assert_eq!(table.get(1), Some(&11));
    assert_eq!(table.remove(1), Some(11));
    assert_eq!(table.remove(1), None);
    assert_eq!(table.get(1), None);
    assert_eq!(table.get(2), Some(&20));
    assert!(table.contains(2));
    assert!(!table.contains(1));
}

#[test]
fn data_for_one_stream_arrives_in_order() {
    let mut table: StreamTable<()> = StreamTable::new();
    let msgs = vec![
        CircuitMessage::BeginStream { id: 1, destination: dest(80) },
        CircuitMessage::StreamData { id: 1, data: vec![1] },
        CircuitMessage::StreamData { id: 1, data: vec![2, 3] },
        CircuitMessage::StreamData { id: 1, data: vec![] },
        CircuitMessage::StreamData { id: 1, data: vec![4] },
    ];
    let delivered = mux_replay(&mut table, msgs, 1);
    assert_eq!(delivered, vec![vec![1], vec![2, 3], vec![], vec![4]]);
}

#[test]
fn data_for_unknown_stream_is_dropped() {
    let mut table: StreamTable<()> = StreamTable::new();
    let msgs = vec![
        CircuitMessage::StreamData { id: 9, data: vec![1] },
        CircuitMessage::BeginStream { id: 9, destination: dest(80) },
        CircuitMessage::StreamData { id: 9, data: vec![2] },
    ];
    let delivered = mux_replay(&mut table, msgs, 9);
    assert_eq!(delivered, vec![vec![2]]);
}

#[test]
fn ending_one_stream_leaves_siblings_running() {
    let mut table: StreamTable<()> = StreamTable::new();
    let msgs = vec![
        CircuitMessage::BeginStream { id: 1, destination: dest(80) },
        CircuitMessage::BeginStream { id: 2, destination: dest(81) },
        CircuitMessage::StreamData { id: 1, data: vec![10] },
        CircuitMessage::StreamData { id: 2, data: vec![20] },
        CircuitMessage::EndStream { id: 1 },
        CircuitMessage::StreamData { id: 1, data: vec![11] },
        CircuitMessage::StreamData { id: 2, data: vec![21] },
    ];
    let to_one = mux_replay(&mut StreamTable::new(), msgs.clone(), 1);
    assert_eq!(to_one, vec![vec![10]]);
    let to_two = mux_replay(&mut table, msgs, 2);
    assert_eq!(to_two, vec![vec![20], vec![21]]);
    assert!(table.contains(2));
    assert!(!table.contains(1));
}

#[test]
fn two_concurrent_streams_stay_independent() {
    let interleaved = vec![
        CircuitMessage::BeginStream { id: 1, destination: dest(80) },
        CircuitMessage::BeginStream { id: 2, destination: dest(81) },
        CircuitMessage::StreamData { id: 1, data: b"host-a first".to_vec() },
        CircuitMessage::StreamData { id: 2, data: b"host-b first".to_vec() },
        CircuitMessage::StreamData { id: 1, data: b"host-a second".to_vec() },
        CircuitMessage::StreamData { id: 2, data: b"host-b second".to_vec() },
        CircuitMessage::EndStream { id: 2 },
        CircuitMessage::EndStream { id: 1 },
    ];
    let to_one = mux_replay(&mut StreamTable::new(), interleaved.clone(), 1);
    let to_two = mux_replay(&mut StreamTable::new(), interleaved, 2);
    assert_eq!(to_one, vec![b"host-a first".to_vec(), b"host-a second".to_vec()]);
    assert_eq!(to_two, vec![b"host-b first".to_vec(), b"host-b second".to_vec()]);
}

#[test]
fn proxy_dispatch_ignores_begin_stream() {
    let mut table: StreamTable<()> = StreamTable::new();
    let msgs = vec![
        CircuitMessage::BeginStream { id: 9, destination: dest(80) },
        CircuitMessage::StreamData { id: 9, data: vec![1] },
    ];
    let delivered = giralnet::circuit::dispatch_replay(&mut table, msgs, 9);
    assert!(delivered.is_empty());
    assert!(!table.contains(9));
}

#[test]
fn proxy_dispatch_delivers_to_registered_until_end() {
    let mut table: StreamTable<()> = StreamTable::new();
    table.insert(1, ());
    table.insert(2, ());
    let msgs = vec![
        CircuitMessage::StreamData { id: 1, data: vec![10] },
        CircuitMessage::StreamData { id: 2, data: vec![20] },
        CircuitMessage::EndStream { id: 1 },
        CircuitMessage::StreamData { id: 1, data: vec![11] },
        CircuitMessage::StreamData { id: 2, data: vec![21] },
    ];
    let delivered = giralnet::circuit::dispatch_replay(&mut table, msgs.clone(), 1);
    assert_eq!(delivered, vec![vec![10]]);
    assert!(!table.contains(1));
    assert!(table.contains(2));

    let mut table2: StreamTable<()> = StreamTable::new();
    table2.insert(1, ());
    table2.insert(2, ());
    let to_two = giralnet::circuit::dispatch_replay(&mut table2, msgs, 2);
    assert_eq!(to_two, vec![vec![20], vec![21]]);
}
