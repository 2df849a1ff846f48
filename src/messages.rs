//! The wire protocol: requests a subscriber sends, and the messages streamed
//! back to it.

use crate::ids::{Address, ObjectId};
use vstd::prelude::*;

verus! {

/// A control message from a subscriber.
#[derive(Clone, Copy, Debug, PartialEq, Eq)]
pub enum SubscriptionRequest {
    /// Follow the writes of one pool object.
    SubscribePool { pool_id: ObjectId },
    /// Follow the transactions one account sends.
    SubscribeAccount { account: Address },
    /// Follow every transaction and every event.
    SubscribeAll,
    /// Read the fields of `table_id` within `range` of `current_index`, at
    /// `parent_version` or, without one, at the latest version.
    QueryFieldRange {
        table_id: ObjectId,
        current_index: u64,
        range: u64,
        parent_version: Option<u64>,
    },
}

/// A record of the raw output of one transaction.
#[derive(Clone, Debug, PartialEq, Eq)]
pub struct SerializableOutput {
    digest: String,
    timestamp_ms: u64,
}

impl SerializableOutput {
    pub fn new(digest: String, timestamp_ms: u64) -> (r: SerializableOutput)
        ensures
            r.digest() == digest@,
            r.timestamp_ms() == timestamp_ms,
    {
        SerializableOutput { digest, timestamp_ms }
    }

    pub closed spec fn digest(&self) -> Seq<char> {
        self.digest@
    }

    pub closed spec fn timestamp_ms(&self) -> u64 {
        self.timestamp_ms
    }

    pub fn digest_str(&self) -> (r: &str)
        ensures
            r@ == self.digest(),
    {
        self.digest.as_str()
    }

    pub fn timestamp(&self) -> (r: u64)
        ensures
            r == self.timestamp_ms(),
    {
        self.timestamp_ms
    }
}

/// A message streamed to a subscriber.
#[derive(Clone, Debug, PartialEq, Eq)]
pub enum StreamMessage {
    PoolUpdate { pool_id: ObjectId, digest: String, object: Option<Vec<u8>> },
    AccountActivity { account: Address, digest: String, kind: String },
    BalanceChange { account: Address, coin_type: String, new_balance: u64 },
    Event {
        package_id: ObjectId,
        transaction_module: String,
        sender: Address,
        type_: String,
        contents: Vec<u8>,
        digest: String,
    },
    FieldData { table_id: ObjectId, index: u64, field_id: ObjectId, bcs_bytes: Vec<u8>, version: u64 },
    QueryComplete { table_id: ObjectId, total_fields: usize },
    Error { message: String },
    Raw(SerializableOutput),
}

/// A stream message as plain values.
pub enum MessageView {
    PoolUpdate { pool_id: Seq<u8>, digest: Seq<char>, object: Option<Seq<u8>> },
    AccountActivity { account: Seq<u8>, digest: Seq<char>, kind: Seq<char> },
    BalanceChange { account: Seq<u8>, coin_type: Seq<char>, new_balance: u64 },
    Event {
        package_id: Seq<u8>,
        transaction_module: Seq<char>,
        sender: Seq<u8>,
        type_: Seq<char>,
        contents: Seq<u8>,
        digest: Seq<char>,
    },
    FieldData { table_id: Seq<u8>, index: u64, field_id: Seq<u8>, bcs_bytes: Seq<u8>, version: u64 },
    QueryComplete { table_id: Seq<u8>, total_fields: nat },
    Error { message: Seq<char> },
    Raw { digest: Seq<char>, timestamp_ms: u64 },
}

/// The bytes held, if any.
pub open spec fn bytes_view(b: Option<Vec<u8>>) -> Option<Seq<u8>> {
    match b {
        Some(v) => Some(v@),
        None => None,
    }
}

impl View for StreamMessage {
    type V = MessageView;

    open spec fn view(&self) -> MessageView {
        match self {
            StreamMessage::PoolUpdate { pool_id, digest, object } => MessageView::PoolUpdate {
                pool_id: pool_id@,
                digest: digest@,
                object: bytes_view(*object),
            },
            StreamMessage::AccountActivity { account, digest, kind } => MessageView::AccountActivity {
                account: account@,
                digest: digest@,
                kind: kind@,
            },
            StreamMessage::BalanceChange { account, coin_type, new_balance } => MessageView::BalanceChange {
                account: account@,
                coin_type: coin_type@,
                new_balance: *new_balance,
            },
            StreamMessage::Event { package_id, transaction_module, sender, type_, contents, digest } =>
                MessageView::Event {
                package_id: package_id@,
                transaction_module: transaction_module@,
                sender: sender@,
                type_: type_@,
                contents: contents@,
                digest: digest@,
            },
            StreamMessage::FieldData { table_id, index, field_id, bcs_bytes, version } => MessageView::FieldData {
                table_id: table_id@,
                index: *index,
                field_id: field_id@,
                bcs_bytes: bcs_bytes@,
                version: *version,
            },
            StreamMessage::QueryComplete { table_id, total_fields } => MessageView::QueryComplete {
                table_id: table_id@,
                total_fields: *total_fields as nat,
            },
            StreamMessage::Error { message } => MessageView::Error { message: message@ },
            StreamMessage::Raw(o) => MessageView::Raw { digest: o.digest(), timestamp_ms: o.timestamp_ms() },
        }
    }
}

/// The views of a list of messages.
pub open spec fn views(ms: Seq<StreamMessage>) -> Seq<MessageView> {
    ms.map_values(|m: StreamMessage| m@)
}

} // verus!
