use field_stream::ids::ObjectId;
use field_stream::keys::{encode_key_bytes, index_bounds, KeyKind};
use field_stream::scan::{chunk_bounds, merge_chunk_results, FieldData, Lookup, RangeScan};

/// A versioned store for the tests: (index, version, payload, decodable).
struct TestStore {
    records: Vec<(u64, u64, Vec<u8>, bool)>,
}

impl TestStore {
    fn field_id(index: u64) -> ObjectId {
        let mut bytes = [0u8; 32];
        bytes[..8].copy_from_slice(&index.to_le_bytes());
        bytes[31] = 0xfd;
        ObjectId::new(bytes)
    }

    fn lookup(&self, index: u64, bound: u64) -> Lookup {
        let best = self
            .records
            .iter()
            .filter(|r| r.0 == index && r.1 <= bound)
            .max_by_key(|r| r.1);
        match best {
            None => Lookup::Missing,
            Some(r) if !r.3 => Lookup::Undecodable,
            Some(r) => Lookup::Found { field_id: TestStore::field_id(index), bytes: r.2.clone(), version: r.1 },
        }
    }

    fn run(&self, mut scan: RangeScan, bound: u64) -> (Vec<u64>, Vec<FieldData>) {
        let mut examined = Vec::new();
        while let Some((index, _key)) = scan.pending() {
            examined.push(index);
            scan.feed(self.lookup(index, bound));
        }
        (examined, scan.into_results())
    }
}

#[test]
fn key_bytes_of_u64_index() {
    let key = encode_key_bytes(12345, KeyKind::U64).unwrap();
    assert_eq!(key, vec![0x39, 0x30, 0, 0, 0, 0, 0, 0]);
    let other = encode_key_bytes(0x0102_0304_0506_0708, KeyKind::Other).unwrap();
    assert_eq!(other, vec![8, 7, 6, 5, 4, 3, 2, 1]);
}

#[test]
fn key_bytes_of_struct_index_keep_low_word() {
    let key = encode_key_bytes((1u64 << 32) + 5, KeyKind::Struct).unwrap();
    assert_eq!(key, vec![5, 0, 0, 0]);
    let key = encode_key_bytes(0xffff_fff6, KeyKind::Struct).unwrap();
    assert_eq!(key, vec![0xf6, 0xff, 0xff, 0xff]);
}

#[test]
fn key_bytes_are_deterministic() {
    let a = encode_key_bytes(12345, KeyKind::U64).unwrap();
    let b = encode_key_bytes(12345, KeyKind::U64).unwrap();
    assert_eq!(a, b);
}

#[test]
fn bounds_without_clamping_cover_two_r_plus_one() {
    let (lo, hi) = index_bounds(100, 7);
    assert_eq!((lo, hi), (93, 107));
    assert_eq!(hi - lo + 1, 2 * 7 + 1);
}

#[test]
fn bounds_clamp_at_zero() {
    assert_eq!(index_bounds(0, 5), (0, 5));
    assert_eq!(index_bounds(2, 5), (0, 7));
}

#[test]
fn bounds_clamp_at_top() {
    assert_eq!(index_bounds(u64::MAX - 1, 3), (u64::MAX - 4, u64::MAX));
}

#[test]
fn scan_examines_each_index_once_in_order() {
    let store = TestStore { records: vec![] };
    let (examined, found) = store.run(RangeScan::around(0, 5, KeyKind::U64, None), 10);
    assert_eq!(examined, vec![0, 1, 2, 3, 4, 5]);
    assert!(found.is_empty());
    let (examined, _) = store.run(RangeScan::around(10, 2, KeyKind::U64, None), 10);
    assert_eq!(examined, vec![8, 9, 10, 11, 12]);
}

#[test]
fn scan_hands_out_key_bytes() {
    let scan = RangeScan::around(7, 0, KeyKind::Struct, None);
    assert_eq!(scan.pending(), Some((7, vec![7, 0, 0, 0])));
}

#[test]
fn query_round_trip_respects_version_bound() {
    let store = TestStore { records: vec![(42, 3, vec![9, 9], true)] };
    let (_, at_three) = store.run(RangeScan::around(42, 0, KeyKind::U64, None), 3);
    assert_eq!(
        at_three,
        vec![FieldData { index: 42, field_id: TestStore::field_id(42), bcs_bytes: vec![9, 9], version: 3 }]
    );
    let (_, at_two) = store.run(RangeScan::around(42, 0, KeyKind::U64, None), 2);
    assert!(at_two.is_empty());
}

#[test]
fn scan_takes_greatest_version_under_bound() {
    let store = TestStore {
        records: vec![(4, 1, vec![1], true), (4, 5, vec![5], true), (4, 9, vec![9], true)],
    };
    let (_, found) = store.run(RangeScan::around(4, 0, KeyKind::U64, None), 6);
    assert_eq!(found.len(), 1);
    assert_eq!(found[0].version, 5);
    assert_eq!(found[0].bcs_bytes, vec![5]);
}

#[test]
fn undecodable_records_are_skipped() {
    let store = TestStore { records: vec![(1, 1, vec![1], false), (2, 1, vec![2], true)] };
    let (_, found) = store.run(RangeScan::around(1, 1, KeyKind::U64, None), 1);
    assert_eq!(found.len(), 1);
    assert_eq!(found[0].index, 2);
}

#[test]
fn sparse_scan_stops_after_misses_in_a_row() {
    let store = TestStore { records: vec![(0, 1, vec![0], true), (5, 1, vec![5], true)] };
    let (examined, found) = store.run(RangeScan::over(0, 9, KeyKind::U64, Some(2)), 1);
    assert_eq!(examined, vec![0, 1, 2]);
    assert_eq!(found.len(), 1);
    let (_, plain) = store.run(RangeScan::over(0, 9, KeyKind::U64, None), 1);
    assert!(found.iter().all(|f| plain.contains(f)));
    assert_eq!(plain.len(), 2);
}

#[test]
fn sparse_scan_with_zero_limit_stops_at_first_miss() {
    let store = TestStore { records: vec![(0, 1, vec![0], true)] };
    let (examined, found) = store.run(RangeScan::over(0, 9, KeyKind::U64, Some(0)), 1);
    assert_eq!(examined, vec![0, 1]);
    assert_eq!(found.len(), 1);
}

#[test]
fn sparse_scan_matches_plain_when_gaps_are_short() {
    let store = TestStore {
        records: vec![(0, 1, vec![0], true), (2, 1, vec![2], true), (4, 1, vec![4], true)],
    };
    let (_, sparse) = store.run(RangeScan::over(0, 4, KeyKind::U64, Some(2)), 1);
    let (_, plain) = store.run(RangeScan::over(0, 4, KeyKind::U64, None), 1);
    assert_eq!(sparse, plain);
}

#[test]
fn chunks_partition_the_range() {
    assert_eq!(chunk_bounds(0, 9, 4), vec![(0, 3), (4, 7), (8, 9)]);
    assert_eq!(chunk_bounds(3, 3, 10), vec![(3, 3)]);
    assert_eq!(chunk_bounds(u64::MAX - 2, u64::MAX, 2), vec![(u64::MAX - 2, u64::MAX - 1), (u64::MAX, u64::MAX)]);
}

#[test]
fn chunked_scan_matches_whole_scan() {
    let store = TestStore {
        records: vec![(1, 1, vec![1], true), (4, 2, vec![4], true), (8, 1, vec![8], true), (9, 1, vec![9], false)],
    };
    let (_, whole) = store.run(RangeScan::over(0, 9, KeyKind::U64, None), 5);
    let parts: Vec<Vec<FieldData>> = chunk_bounds(0, 9, 3)
        .into_iter()
        .map(|(a, b)| store.run(RangeScan::over(a, b, KeyKind::U64, None), 5).1)
        .collect();
    assert_eq!(merge_chunk_results(parts), whole);
    assert_eq!(whole.len(), 3);
}
