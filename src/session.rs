//! One subscriber's session: its filter, what it is sent for each commit, and
//! what it does with each request.

use crate::ids::{Address, ObjectId};
use crate::messages::{bytes_view, views, MessageView, StreamMessage, SubscriptionRequest};
use crate::scan::FieldData;
use vstd::prelude::*;
use vstd::string::StringExecFns;

verus! {

/// An event a transaction emitted.
#[derive(Clone, Debug, PartialEq, Eq)]
pub struct EmittedEvent {
    pub package_id: ObjectId,
    pub transaction_module: String,
    pub sender: Address,
    pub type_: String,
    pub contents: Vec<u8>,
}

/// An object a transaction wrote, with its content when that content is a
/// structured object.
#[derive(Clone, Debug, PartialEq, Eq)]
pub struct WrittenObject {
    pub id: ObjectId,
    pub contents: Option<Vec<u8>>,
}

/// One committed transaction as the subscribers see it.
#[derive(Clone, Debug, PartialEq, Eq)]
pub struct CommitEvent {
    pub digest: String,
    pub sender: Address,
    pub written: Vec<WrittenObject>,
    pub events: Vec<EmittedEvent>,
}

/// A subscriber's filter as sets.
pub struct FilterView {
    pub pools: Set<Seq<u8>>,
    pub accounts: Set<Seq<u8>>,
    pub all: bool,
}

/// The pools and accounts a subscriber follows, or all traffic.
#[derive(Clone, Debug)]
pub struct SubscriptionFilter {
    pub pools: Vec<ObjectId>,
    pub accounts: Vec<Address>,
    pub all: bool,
}

impl View for SubscriptionFilter {
    type V = FilterView;

    open spec fn view(&self) -> FilterView {
        FilterView {
            pools: self.pools@.map_values(|p: ObjectId| p@).to_set(),
            accounts: self.accounts@.map_values(|a: Address| a@).to_set(),
            all: self.all,
        }
    }
}

/// The account-activity message for the sender of `e`.
pub open spec fn activity_of(e: CommitEvent) -> MessageView {
    MessageView::AccountActivity { account: e.sender@, digest: e.digest@, kind: "Transaction"@ }
}

/// The message for one emitted event of a transaction with digest `digest`.
pub open spec fn event_message(ev: EmittedEvent, digest: Seq<char>) -> MessageView {
    MessageView::Event {
        package_id: ev.package_id@,
        transaction_module: ev.transaction_module@,
        sender: ev.sender@,
        type_: ev.type_@,
        contents: ev.contents@,
        digest,
    }
}

/// The event messages for `evs`, in order.
pub open spec fn event_messages(evs: Seq<EmittedEvent>, digest: Seq<char>) -> Seq<MessageView>
    decreases evs.len(),
{
    if evs.len() == 0 {
        Seq::empty()
    } else {
        event_messages(evs.drop_last(), digest).push(event_message(evs.last(), digest))
    }
}

/// The pool updates for the written objects among `pools`, in order.
pub open spec fn pool_updates(pools: Set<Seq<u8>>, ws: Seq<WrittenObject>, digest: Seq<char>) -> Seq<
    MessageView,
>
    decreases ws.len(),
{
    if ws.len() == 0 {
        Seq::empty()
    } else {
        let before = pool_updates(pools, ws.drop_last(), digest);
        let w = ws.last();
        if pools.contains(w.id@) {
            before.push(
                MessageView::PoolUpdate {
                    pool_id: w.id@,
                    digest,
                    object: bytes_view(w.contents),
                },
            )
        } else {
            before
        }
    }
}

/// What a subscriber with filter `f` is sent for the commit `e`: with `all`,
/// the sender's activity and every event; an update for each written pool it
/// follows; the sender's activity again when it follows the sender.
pub open spec fn projection(f: FilterView, e: CommitEvent) -> Seq<MessageView> {
    let firehose = if f.all {
        seq![activity_of(e)] + event_messages(e.events@, e.digest@)
    } else {
        Seq::empty()
    };
    let account = if f.accounts.contains(e.sender@) {
        seq![activity_of(e)]
    } else {
        Seq::empty()
    };
    firehose + pool_updates(f.pools, e.written@, e.digest@) + account
}

fn activity_message(e: &CommitEvent) -> (r: StreamMessage)
    ensures
        r@ == activity_of(*e),
{
    StreamMessage::AccountActivity {
        account: e.sender,
        digest: e.digest.clone(),
        kind: "Transaction".to_owned(),
    }
}

fn clone_bytes(b: &Vec<u8>) -> (r: Vec<u8>)
    ensures
        r@ == b@,
{
    let r = b.clone();
    assert(r@ =~= b@);
    r
}

impl SubscriptionFilter {
    /// A filter that follows nothing.
    pub fn new() -> (r: SubscriptionFilter)
        ensures
            r@.pools == Set::<Seq<u8>>::empty(),
            r@.accounts == Set::<Seq<u8>>::empty(),
            !r@.all,
    {
        let r = SubscriptionFilter { pools: Vec::new(), accounts: Vec::new(), all: false };
        assert(r@.pools =~= Set::<Seq<u8>>::empty());
        assert(r@.accounts =~= Set::<Seq<u8>>::empty());
        r
    }

    /// Whether the filter follows the pool `id`.
    pub fn follows_pool(&self, id: &ObjectId) -> (r: bool)
        ensures
            r == self@.pools.contains(id@),
    {
        let ghost ps = self.pools@.map_values(|p: ObjectId| p@);
        let mut i: usize = 0;
        while i < self.pools.len()
            invariant
                0 <= i <= self.pools@.len(),
                ps == self.pools@.map_values(|p: ObjectId| p@),
                forall|j: int| 0 <= j < i ==> ps[j] != id@,
            decreases self.pools@.len() - i,
        {
            if self.pools[i].same_as(id) {
                assert(ps[i as int] == id@);
                return true;
            }
            i = i + 1;
        }
        assert(!ps.contains(id@));
        false
    }

    /// Whether the filter follows the account `a`.
    pub fn follows_account(&self, a: &Address) -> (r: bool)
        ensures
            r == self@.accounts.contains(a@),
    {
        let ghost xs = self.accounts@.map_values(|x: Address| x@);
        let mut i: usize = 0;
        while i < self.accounts.len()
            invariant
                0 <= i <= self.accounts@.len(),
                xs == self.accounts@.map_values(|x: Address| x@),
                forall|j: int| 0 <= j < i ==> xs[j] != a@,
            decreases self.accounts@.len() - i,
        {
            if self.accounts[i].same_as(a) {
                assert(xs[i as int] == a@);
                return true;
            }
            i = i + 1;
        }
        assert(!xs.contains(a@));
        false
    }

    /// Follow the pool `id` too.
    pub fn add_pool(&mut self, id: ObjectId)
        ensures
            final(self)@.pools == old(self)@.pools.insert(id@),
            final(self)@.accounts == old(self)@.accounts,
            final(self)@.all == old(self)@.all,
    {
        let ghost before = self.pools@;
        self.pools.push(id);
        proof {
            let vs = before.map_values(|p: ObjectId| p@);
            assert(self.pools@.map_values(|p: ObjectId| p@) =~= vs.push(id@));
            vs.lemma_push_to_set_commute(id@);
        }
    }

    /// Follow the account `a` too.
    pub fn add_account(&mut self, a: Address)
        ensures
            final(self)@.accounts == old(self)@.accounts.insert(a@),
            final(self)@.pools == old(self)@.pools,
            final(self)@.all == old(self)@.all,
    {
        let ghost before = self.accounts@;
        self.accounts.push(a);
        proof {
            let vs = before.map_values(|x: Address| x@);
            assert(self.accounts@.map_values(|x: Address| x@) =~= vs.push(a@));
            vs.lemma_push_to_set_commute(a@);
        }
    }

    /// The messages this filter lets through for the commit `e`, in the order
    /// they are sent.
    pub fn project(&self, e: &CommitEvent) -> (r: Vec<StreamMessage>)
        ensures
            views(r@) == projection(self@, *e),
    {
        let mut out: Vec<StreamMessage> = Vec::new();
        if self.all {
            out.push(activity_message(e));
            let mut i: usize = 0;
            while i < e.events.len()
                invariant
                    0 <= i <= e.events@.len(),
                    views(out@) == seq![activity_of(*e)] + event_messages(
                        e.events@.take(i as int),
                        e.digest@,
                    ),
                decreases e.events@.len() - i,
            {
                let ev = &e.events[i];
                let m = StreamMessage::Event {
                    package_id: ev.package_id,
                    transaction_module: ev.transaction_module.clone(),
                    sender: ev.sender,
                    type_: ev.type_.clone(),
                    contents: clone_bytes(&ev.contents),
                    digest: e.digest.clone(),
                };
                let ghost prev = out@;
                out.push(m);
                proof {
                    assert(e.events@.take(i + 1).drop_last() =~= e.events@.take(i as int));
                    assert(views(out@) =~= views(prev).push(m@));
                }
                i = i + 1;
            }
            assert(e.events@.take(e.events@.len() as int) =~= e.events@);
        }
        let ghost head = views(out@);
        assert(head == (if self@.all {
            seq![activity_of(*e)] + event_messages(e.events@, e.digest@)
        } else {
            Seq::empty()
        }));
        let mut k: usize = 0;
        while k < e.written.len()
            invariant
                0 <= k <= e.written@.len(),
                views(out@) == head + pool_updates(self@.pools, e.written@.take(k as int), e.digest@),
            decreases e.written@.len() - k,
        {
            let w = &e.written[k];
            let ghost prev = out@;
            proof {
                assert(e.written@.take(k + 1).drop_last() =~= e.written@.take(k as int));
            }
            if self.follows_pool(&w.id) {
                let object = match &w.contents {
                    Some(b) => Some(clone_bytes(b)),
                    None => None,
                };
                let m = StreamMessage::PoolUpdate { pool_id: w.id, digest: e.digest.clone(), object };
                out.push(m);
                assert(views(out@) =~= views(prev).push(m@));
            }
            k = k + 1;
        }
        assert(e.written@.take(e.written@.len() as int) =~= e.written@);
        let ghost mid = views(out@);
        if self.follows_account(&e.sender) {
            let m = activity_message(e);
            out.push(m);
            assert(views(out@) =~= mid.push(m@));
            assert(views(out@) =~= projection(self@, *e));
        } else {
            assert(views(out@) =~= projection(self@, *e));
        }
        out
    }
}

/// The version bound of a read that asks for the latest state: the greatest
/// version an object can have.
pub const LATEST_VERSION: u64 = 0x7fff_ffff_ffff_ffff;

/// What the transport does after a request.
#[derive(Clone, Copy, Debug, PartialEq, Eq)]
pub enum SessionAction {
    /// Nothing is sent.
    Nothing,
    /// Read the fields of `table_id` within `radius` of `center` at `version`,
    /// then report them.
    RunQuery { table_id: ObjectId, center: u64, radius: u64, version: u64 },
}

/// A subscriber's session: its filter, and whether it is still open.
#[derive(Clone, Debug)]
pub struct ClientSession {
    pub filter: SubscriptionFilter,
    pub open: bool,
}

impl ClientSession {
    /// An open session that follows nothing.
    pub fn new() -> (r: ClientSession)
        ensures
            r.open,
            r.filter@.pools == Set::<Seq<u8>>::empty(),
            r.filter@.accounts == Set::<Seq<u8>>::empty(),
            !r.filter@.all,
    {
        ClientSession { filter: SubscriptionFilter::new(), open: true }
    }

    /// Apply a request: a subscription changes the filter; a range read is
    /// handed back to run, at the latest version when none is given.
    pub fn handle_request(&mut self, req: SubscriptionRequest) -> (a: SessionAction)
        ensures
            final(self).open == old(self).open,
            match req {
                SubscriptionRequest::SubscribePool { pool_id } => {
                    &&& final(self).filter@.pools == old(self).filter@.pools.insert(pool_id@)
                    &&& final(self).filter@.accounts == old(self).filter@.accounts
                    &&& final(self).filter@.all == old(self).filter@.all
                    &&& a == SessionAction::Nothing
                },
                SubscriptionRequest::SubscribeAccount { account } => {
                    &&& final(self).filter@.accounts == old(self).filter@.accounts.insert(account@)
                    &&& final(self).filter@.pools == old(self).filter@.pools
                    &&& final(self).filter@.all == old(self).filter@.all
                    &&& a == SessionAction::Nothing
                },
                SubscriptionRequest::SubscribeAll => {
                    &&& final(self).filter@.pools == old(self).filter@.pools
                    &&& final(self).filter@.accounts == old(self).filter@.accounts
                    &&& final(self).filter@.all
                    &&& a == SessionAction::Nothing
                },
                SubscriptionRequest::QueryFieldRange {
                    table_id,
                    current_index,
                    range,
                    parent_version,
                } => {
                    &&& final(self).filter@ == old(self).filter@
                    &&& a == SessionAction::RunQuery {
                        table_id,
                        center: current_index,
                        radius: range,
                        version: match parent_version {
                            Some(v) => v,
                            None => LATEST_VERSION,
                        },
                    }
                },
            },
    {
        match req {
            SubscriptionRequest::SubscribePool { pool_id } => {
                self.filter.add_pool(pool_id);
                SessionAction::Nothing
            },
            SubscriptionRequest::SubscribeAccount { account } => {
                self.filter.add_account(account);
                SessionAction::Nothing
            },
            SubscriptionRequest::SubscribeAll => {
                let ghost before = self.filter@;
                self.filter.all = true;
                assert(self.filter@.pools == before.pools);
                SessionAction::Nothing
            },
            SubscriptionRequest::QueryFieldRange { table_id, current_index, range, parent_version } => {
                let version = match parent_version {
                    Some(v) => v,
                    None => LATEST_VERSION,
                };
                SessionAction::RunQuery { table_id, center: current_index, radius: range, version }
            },
        }
    }

    /// The messages this session is sent for the commit `e`.
    pub fn handle_commit(&self, e: &CommitEvent) -> (r: Vec<StreamMessage>)
        ensures
            views(r@) == projection(self.filter@, *e),
    {
        self.filter.project(e)
    }

    /// End the session, after a close frame or a transport failure.
    pub fn close(&mut self)
        ensures
            !final(self).open,
            final(self).filter@ == old(self).filter@,
    {
        self.open = false;
    }
}

/// The report of a range read of `table_id` that found `fields`: one message
/// per field, then the count.
pub open spec fn query_report_of(table_id: ObjectId, fields: Seq<FieldData>) -> Seq<MessageView> {
    fields.map_values(
        |d: FieldData|
            MessageView::FieldData {
                table_id: table_id@,
                index: d.index,
                field_id: d.field_id@,
                bcs_bytes: d.bcs_bytes@,
                version: d.version,
            },
    ).push(MessageView::QueryComplete { table_id: table_id@, total_fields: fields.len() })
}

/// The messages that report a range read of `table_id` that found `fields`.
pub fn query_report(table_id: ObjectId, fields: Vec<FieldData>) -> (r: Vec<StreamMessage>)
    ensures
        views(r@) == query_report_of(table_id, fields@),
{
    let total = fields.len();
    let ghost all = fields@;
    let mut out: Vec<StreamMessage> = Vec::new();
    let mut k: usize = 0;
    while k < total
        invariant
            0 <= k <= total,
            total == all.len(),
            fields@ == all,
            views(out@) == all.take(k as int).map_values(
                |d: FieldData|
                    MessageView::FieldData {
                        table_id: table_id@,
                        index: d.index,
                        field_id: d.field_id@,
                        bcs_bytes: d.bcs_bytes@,
                        version: d.version,
                    },
            ),
        decreases total - k,
    {
        let d = &fields[k];
        let ghost prev = out@;
        let m = StreamMessage::FieldData {
            table_id,
            index: d.index,
            field_id: d.field_id,
            bcs_bytes: clone_bytes(&d.bcs_bytes),
            version: d.version,
        };
        out.push(m);
        proof {
            assert(all.take(k + 1) =~= all.take(k as int).push(all[k as int]));
            assert(views(out@) =~= views(prev).push(m@));
        }
        k = k + 1;
    }
    let ghost prev = out@;
    let m = StreamMessage::QueryComplete { table_id, total_fields: total };
    out.push(m);
    proof {
        assert(all.take(total as int) =~= all);
        assert(views(out@) =~= views(prev).push(m@));
    }
    out
}

/// The error message for a range read that failed as `description` says.
pub fn query_failure(description: &str) -> (r: StreamMessage)
    ensures
        r@ == (MessageView::Error { message: "Query failed: "@ + description@ }),
{
    let mut message = String::from_str("Query failed: ");
    message.append(description);
    StreamMessage::Error { message }
}

/// The error message for a range read on a node that keeps no store.
pub fn store_unavailable() -> (r: StreamMessage)
    ensures
        r@ == (MessageView::Error { message: "Field query not supported: store not available"@ }),
{
    StreamMessage::Error { message: String::from_str("Field query not supported: store not available") }
}

/// A subscriber is sent nothing its filter does not ask for: pool updates only
/// for pools it follows, sender activity only for accounts it follows or with
/// `all`, events only with `all`. So two subscribers with disjoint filters
/// never receive each other's pool updates or account activity.
pub proof fn lemma_filter_isolation(f: FilterView, e: CommitEvent)
    ensures
        forall|m: MessageView| #[trigger] projection(f, e).contains(m) ==> match m {
            MessageView::PoolUpdate { pool_id, .. } => f.pools.contains(pool_id),
            MessageView::AccountActivity { account, .. } => account == e.sender@ && (f.all
                || f.accounts.contains(account)),
            MessageView::Event { .. } => f.all,
            _ => false,
        },
{
    lemma_pool_updates_follow(f.pools, e.written@, e.digest@);
    lemma_event_messages_are_events(e.events@, e.digest@);
    let firehose = if f.all {
        seq![activity_of(e)] + event_messages(e.events@, e.digest@)
    } else {
        Seq::empty()
    };
    let account = if f.accounts.contains(e.sender@) {
        seq![activity_of(e)]
    } else {
        Seq::empty()
    };
    let pools = pool_updates(f.pools, e.written@, e.digest@);
    assert forall|m: MessageView| #[trigger] projection(f, e).contains(m) implies match m {
        MessageView::PoolUpdate { pool_id, .. } => f.pools.contains(pool_id),
        MessageView::AccountActivity { account, .. } => account == e.sender@ && (f.all
            || f.accounts.contains(account)),
        MessageView::Event { .. } => f.all,
        _ => false,
    } by {
        let p = projection(f, e);
        let i = choose|i: int| 0 <= i < p.len() && p[i] == m;
        if i < firehose.len() {
            if f.all && i > 0 {
                assert(event_messages(e.events@, e.digest@).contains(m)) by {
                    assert(event_messages(e.events@, e.digest@)[i - 1] == m);
                }
            }
        } else if i < firehose.len() + pools.len() {
            assert(pools[i - firehose.len()] == m);
            assert(pools.contains(m));
        } else {
            assert(account[i - firehose.len() - pools.len()] == m);
        }
    }
}

proof fn lemma_pool_updates_follow(pools: Set<Seq<u8>>, ws: Seq<WrittenObject>, digest: Seq<char>)
    ensures
        forall|m: MessageView| #[trigger] pool_updates(pools, ws, digest).contains(m) ==> (m matches MessageView::PoolUpdate { pool_id, .. } && pools.contains(pool_id)),
    decreases ws.len(),
{
    if ws.len() > 0 {
        lemma_pool_updates_follow(pools, ws.drop_last(), digest);
        let before = pool_updates(pools, ws.drop_last(), digest);
        assert forall|m: MessageView| #[trigger] pool_updates(pools, ws, digest).contains(m) implies (m matches MessageView::PoolUpdate { pool_id, .. } && pools.contains(pool_id)) by {
            let p = pool_updates(pools, ws, digest);
            let i = choose|i: int| 0 <= i < p.len() && p[i] == m;
            if i < before.len() {
                assert(before[i] == m);
                assert(before.contains(m));
            }
        }
    }
}

proof fn lemma_event_messages_are_events(evs: Seq<EmittedEvent>, digest: Seq<char>)
    ensures
        forall|m: MessageView| #[trigger] event_messages(evs, digest).contains(m) ==> m is Event,
    decreases evs.len(),
{
    if evs.len() > 0 {
        lemma_event_messages_are_events(evs.drop_last(), digest);
        let before = event_messages(evs.drop_last(), digest);
        assert forall|m: MessageView| #[trigger] event_messages(evs, digest).contains(m) implies m is Event by {
            let p = event_messages(evs, digest);
            let i = choose|i: int| 0 <= i < p.len() && p[i] == m;
            if i < before.len() {
                assert(before[i] == m);
                assert(before.contains(m));
            }
        }
    }
}

/// A subscriber with `all` receives every message that a subscriber following
/// only accounts receives, for the same commit.
pub proof fn lemma_all_covers_accounts(f_all: FilterView, f_accounts: FilterView, e: CommitEvent)
    requires
        f_all.all,
        !f_accounts.all,
        f_accounts.pools == Set::<Seq<u8>>::empty(),
    ensures
        forall|m: MessageView| #[trigger] projection(f_accounts, e).contains(m) ==> projection(f_all, e).contains(m),
{
    lemma_pool_updates_none(e.written@, e.digest@);
    let p = projection(f_accounts, e);
    let q = projection(f_all, e);
    assert(q[0] == activity_of(e));
    assert forall|m: MessageView| #[trigger] p.contains(m) implies q.contains(m) by {
        let i = choose|i: int| 0 <= i < p.len() && p[i] == m;
        assert(p =~= (if f_accounts.accounts.contains(e.sender@) {
            seq![activity_of(e)]
        } else {
            Seq::empty()
        }));
        assert(m == activity_of(e));
    }
}

proof fn lemma_pool_updates_none(ws: Seq<WrittenObject>, digest: Seq<char>)
    ensures
        pool_updates(Set::empty(), ws, digest) == Seq::<MessageView>::empty(),
    decreases ws.len(),
{
    if ws.len() > 0 {
        lemma_pool_updates_none(ws.drop_last(), digest);
    }
}

} // verus!
