use field_stream::broadcaster::{CustomBroadcaster, CHANNEL_CAPACITY};
use field_stream::ids::{Address, ObjectId};
use field_stream::messages::{SerializableOutput, StreamMessage, SubscriptionRequest};
use field_stream::scan::FieldData;
use field_stream::session::{
    query_failure, query_report, store_unavailable, ClientSession, CommitEvent, EmittedEvent, SessionAction,
    WrittenObject, LATEST_VERSION,
};

fn oid(b: u8) -> ObjectId {
    ObjectId::new([b; 32])
}

fn addr(b: u8) -> Address {
    Address::new([b; 32])
}

fn commit() -> CommitEvent {
    CommitEvent {
        digest: "D1".to_string(),
        sender: addr(0xa),
        written: vec![
            WrittenObject { id: oid(0x70), contents: Some(vec![1, 2, 3]) },
            WrittenObject { id: oid(0x71), contents: None },
        ],
        events: vec![EmittedEvent {
            package_id: oid(0x2),
            transaction_module: "pool".to_string(),
            sender: addr(0xa),
            type_: "0x2::pool::Swap".to_string(),
            contents: vec![7],
        }],
    }
}

fn session_with(reqs: &[SubscriptionRequest]) -> ClientSession {
    let mut s = ClientSession::new();
    for r in reqs {
        assert_eq!(s.handle_request(*r), SessionAction::Nothing);
    }
    s
}

#[test]
fn pool_subscriber_gets_one_pool_update_only() {
    let s = session_with(&[SubscriptionRequest::SubscribePool { pool_id: oid(0x70) }]);
    let out = s.handle_commit(&commit());
    assert_eq!(
        out,
        vec![StreamMessage::PoolUpdate { pool_id: oid(0x70), digest: "D1".to_string(), object: Some(vec![1, 2, 3]) }]
    );
}

#[test]
fn account_subscriber_gets_one_activity_only() {
    let s = session_with(&[SubscriptionRequest::SubscribeAccount { account: addr(0xa) }]);
    let out = s.handle_commit(&commit());
    assert_eq!(
        out,
        vec![StreamMessage::AccountActivity {
            account: addr(0xa),
            digest: "D1".to_string(),
            kind: "Transaction".to_string()
        }]
    );
}

#[test]
fn unsubscribed_session_gets_nothing() {
    let s = ClientSession::new();
    assert!(s.handle_commit(&commit()).is_empty());
}

#[test]
fn undecodable_pool_object_has_no_payload() {
    let s = session_with(&[SubscriptionRequest::SubscribePool { pool_id: oid(0x71) }]);
    let out = s.handle_commit(&commit());
    assert_eq!(out, vec![StreamMessage::PoolUpdate { pool_id: oid(0x71), digest: "D1".to_string(), object: None }]);
}

#[test]
fn disjoint_filters_stay_apart() {
    let a = session_with(&[SubscriptionRequest::SubscribePool { pool_id: oid(0x70) }]);
    let b = session_with(&[
        SubscriptionRequest::SubscribePool { pool_id: oid(0x71) },
        SubscriptionRequest::SubscribeAccount { account: addr(0xb) },
    ]);
    let out_a = a.handle_commit(&commit());
    let out_b = b.handle_commit(&commit());
    assert!(out_a.iter().all(|m| !out_b.contains(m)));
    assert_eq!(out_b.len(), 1);
    assert!(matches!(&out_b[0], StreamMessage::PoolUpdate { pool_id, .. } if *pool_id == oid(0x71)));
}

#[test]
fn firehose_covers_account_subscriber() {
    let all = session_with(&[SubscriptionRequest::SubscribeAll]);
    let acc = session_with(&[SubscriptionRequest::SubscribeAccount { account: addr(0xa) }]);
    let out_all = all.handle_commit(&commit());
    let out_acc = acc.handle_commit(&commit());
    assert!(out_acc.iter().all(|m| out_all.contains(m)));
    assert_eq!(out_all.len(), 2);
    assert!(matches!(&out_all[1], StreamMessage::Event { contents, .. } if contents == &vec![7]));
}

#[test]
fn firehose_and_account_match_send_activity_twice() {
    let s = session_with(&[
        SubscriptionRequest::SubscribeAll,
        SubscriptionRequest::SubscribePool { pool_id: oid(0x70) },
        SubscriptionRequest::SubscribeAccount { account: addr(0xa) },
    ]);
    let out = s.handle_commit(&commit());
    assert_eq!(out.len(), 4);
    assert!(matches!(out[0], StreamMessage::AccountActivity { .. }));
    assert!(matches!(out[1], StreamMessage::Event { .. }));
    assert!(matches!(out[2], StreamMessage::PoolUpdate { .. }));
    assert_eq!(out[0], out[3]);
}

#[test]
fn range_request_defaults_to_latest() {
    let mut s = ClientSession::new();
    let a = s.handle_request(SubscriptionRequest::QueryFieldRange {
        table_id: oid(5),
        current_index: 42,
        range: 10,
        parent_version: None,
    });
    assert_eq!(a, SessionAction::RunQuery { table_id: oid(5), center: 42, radius: 10, version: LATEST_VERSION });
    let b = s.handle_request(SubscriptionRequest::QueryFieldRange {
        table_id: oid(5),
        current_index: 42,
        range: 10,
        parent_version: Some(3),
    });
    assert_eq!(b, SessionAction::RunQuery { table_id: oid(5), center: 42, radius: 10, version: 3 });
    assert!(s.handle_commit(&commit()).is_empty());
}

#[test]
fn closed_session_stays_closed() {
    let mut s = session_with(&[SubscriptionRequest::SubscribeAll]);
    assert!(s.open);
    s.close();
    assert!(!s.open);
}

#[test]
fn query_report_lists_fields_then_count() {
    let fields = vec![
        FieldData { index: 1, field_id: oid(0x11), bcs_bytes: vec![1], version: 2 },
        FieldData { index: 3, field_id: oid(0x13), bcs_bytes: vec![3], version: 4 },
    ];
    let out = query_report(oid(9), fields);
    assert_eq!(
        out,
        vec![
            StreamMessage::FieldData { table_id: oid(9), index: 1, field_id: oid(0x11), bcs_bytes: vec![1], version: 2 },
            StreamMessage::FieldData { table_id: oid(9), index: 3, field_id: oid(0x13), bcs_bytes: vec![3], version: 4 },
            StreamMessage::QueryComplete { table_id: oid(9), total_fields: 2 },
        ]
    );
    assert_eq!(query_report(oid(9), vec![]), vec![StreamMessage::QueryComplete { table_id: oid(9), total_fields: 0 }]);
}

#[test]
fn query_errors_carry_a_description() {
    assert_eq!(query_failure("store down"), StreamMessage::Error { message: "Query failed: store down".to_string() });
    assert_eq!(
        store_unavailable(),
        StreamMessage::Error { message: "Field query not supported: store not available".to_string() }
    );
}

#[test]
fn ids_compare_by_bytes() {
    assert!(oid(1).same_as(&oid(1)));
    assert!(!oid(1).same_as(&oid(2)));
    let mut b = [3u8; 32];
    b[31] = 4;
    assert!(!addr(3).same_as(&Address::new(b)));
}

#[test]
fn broadcaster_capacity() {
    let b = CustomBroadcaster::new(9000);
    assert_eq!(b.capacity(), CHANNEL_CAPACITY);
    assert_eq!(b.capacity(), 1000);
    assert_eq!(b.port(), 9000);
    assert!(CustomBroadcaster::with_capacity(9000, 0).is_none());
    assert_eq!(CustomBroadcaster::with_capacity(1, 16).unwrap().capacity(), 16);
    assert!(CustomBroadcaster::with_capacity(1, usize::MAX).is_none());
}

#[test]
fn raw_output_keeps_its_fields() {
    let o = SerializableOutput::new("D9".to_string(), 77);
    assert_eq!(o.digest_str(), "D9");
    assert_eq!(o.timestamp(), 77);
}
