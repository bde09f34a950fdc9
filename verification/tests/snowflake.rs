use moquette::snowflake::{SnowFlake, CUSTOM_EPOCH};

const NOW: u64 = CUSTOM_EPOCH + 1_000;

#[test]
fn ids_pack_time_node_and_sequence() {
    let mut gen = SnowFlake::new(5);
    let id = gen.generate_id_at(NOW).unwrap();
    assert_eq!(id, (1_000 << 22) | (5 << 12));
    // same millisecond: the sequence goes up
    assert_eq!(gen.generate_id_at(NOW).unwrap(), (1_000 << 22) | (5 << 12) | 1);
    // a later millisecond: the sequence restarts
    assert_eq!(gen.generate_id_at(NOW + 1).unwrap(), (1_001 << 22) | (5 << 12));
}

#[test]
fn node_id_keeps_ten_bits() {
    let mut gen = SnowFlake::new(0x7FF);
    let id = gen.generate_id_at(NOW).unwrap();
    assert_eq!((id >> 12) & 0x3FF, 0x3FF);
    assert_eq!(id >> 22, 1_000);
}

#[test]
fn sequence_runs_out_then_waits_for_next_millisecond() {
    let mut gen = SnowFlake::new(1);
    let mut last = 0;
    for _ in 0..4096 {
        last = gen.generate_id_at(NOW).unwrap();
    }
    assert_eq!(last & 0xFFF, 4095);
    // the 4097th id of the same millisecond cannot be made
    assert_eq!(gen.generate_id_at(NOW), None);
    assert_eq!(gen.generate_id_at(NOW), None);
    // in the next millisecond it comes with sequence 0
    assert_eq!(gen.generate_id_at(NOW + 1), Some((1_001 << 22) | (1 << 12)));
}

#[test]
fn ids_are_distinct_and_increasing_within_a_run() {
    let mut gen = SnowFlake::new(3);
    let mut ids = Vec::new();
    for t in 0..3u64 {
        for _ in 0..10 {
            ids.push(gen.generate_id_at(NOW + t).unwrap());
        }
    }
    for w in ids.windows(2) {
        assert!(w[0] < w[1]);
    }
}

#[test]
fn client_ids_are_auto_prefixed() {
    let mut gen = SnowFlake::new(1);
    let id = loop {
        if let Some(id) = gen.generate_client_id() {
            break id;
        }
    };
    assert!(id.starts_with("auto-"));
    assert!(id["auto-".len()..].chars().all(|c| c.is_ascii_digit()));
    assert!(gen.generate_id().is_some() || gen.generate_id().is_some());
}

#[test]
fn only_low_ten_bits_of_node_id_count() {
    let mut a = SnowFlake::new(0x401);
    let mut b = SnowFlake::new(1);
    let x = a.generate_id_at(NOW).unwrap();
    let y = b.generate_id_at(NOW).unwrap();
    assert_eq!(x, y);
    assert_eq!((x >> 12) & 0x3FF, 1);
}
