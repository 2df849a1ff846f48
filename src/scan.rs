//! The range read as a state machine. Deriving a field's id and reading the
//! versioned store happen outside; the scan decides which index is looked up
//! next, when to stop, and what the result holds.

use crate::ids::ObjectId;
use crate::keys::{encode_key_bytes, index_bounds, key_bytes_of, range_lower, range_upper, KeyKind};
use vstd::prelude::*;

verus! {

/// One field found by a range read.
#[derive(Clone, Debug, PartialEq, Eq)]
pub struct FieldData {
    pub index: u64,
    pub field_id: ObjectId,
    pub bcs_bytes: Vec<u8>,
    pub version: u64,
}

/// What the store answered for the derived id of one index, at the greatest
/// version not above the bound.
#[derive(Clone, Debug, PartialEq, Eq)]
pub enum Lookup {
    /// A record whose content decodes as a structured object.
    Found { field_id: ObjectId, bytes: Vec<u8>, version: u64 },
    /// A record whose content does not decode; it is left out of the result.
    Undecodable,
    /// No record at or before the bound.
    Missing,
}

/// What one outcome adds to the result when it belongs to `index`.
pub open spec fn entry_of(index: u64, l: Lookup) -> Seq<FieldData> {
    match l {
        Lookup::Found { field_id, bytes, version } => seq![
            FieldData { index, field_id, bcs_bytes: bytes, version },
        ],
        _ => Seq::empty(),
    }
}

/// The fields found when `outs` are the outcomes of the indices `lower`,
/// `lower + 1`, ... in that order.
pub open spec fn hits(lower: u64, outs: Seq<Lookup>) -> Seq<FieldData>
    decreases outs.len(),
{
    if outs.len() == 0 {
        Seq::empty()
    } else {
        hits(lower, outs.drop_last()) + entry_of((lower + outs.len() - 1) as u64, outs.last())
    }
}

/// The number of misses at the end of `outs`, counted since the last record.
pub open spec fn trailing_misses(outs: Seq<Lookup>) -> nat
    decreases outs.len(),
{
    if outs.len() == 0 {
        0
    } else if outs.last() is Missing {
        trailing_misses(outs.drop_last()) + 1
    } else {
        0
    }
}

/// Whether a sparse scan that allows `limit` misses in a row stops right after
/// the outcomes `outs`.
pub open spec fn halts_after(outs: Seq<Lookup>, limit: nat) -> bool {
    &&& outs.len() > 0
    &&& outs.last() is Missing
    &&& trailing_misses(outs) >= limit
}

/// Whether no run of misses in `outs` reaches `limit`.
pub open spec fn no_halt(outs: Seq<Lookup>, limit: nat) -> bool {
    forall|k: int| 1 <= k <= outs.len() ==> !#[trigger] halts_after(outs.take(k), limit)
}

/// A read of the indices `first..=last`, in increasing order, of the fields of
/// one parent; with a limit it stops after that many misses in a row.
pub struct RangeScan {
    first: u64,
    last: u64,
    kind: KeyKind,
    limit: Option<usize>,
    fed: u64,
    finished: bool,
    misses: usize,
    found: Vec<FieldData>,
    outs: Ghost<Seq<Lookup>>,
}

impl RangeScan {
    /// The first index of the scan.
    pub closed spec fn first(&self) -> u64 {
        self.first
    }

    /// The last index of the scan.
    pub closed spec fn last(&self) -> u64 {
        self.last
    }

    /// The key type family the indices are encoded for.
    pub closed spec fn kind(&self) -> KeyKind {
        self.kind
    }

    /// The number of misses in a row after which the scan stops, if any.
    pub closed spec fn limit(&self) -> Option<usize> {
        self.limit
    }

    /// The outcomes fed so far, one per index from `first()` on.
    pub closed spec fn outcomes(&self) -> Seq<Lookup> {
        self.outs@
    }

    /// Whether every index has been looked up.
    pub open spec fn complete(&self) -> bool {
        self.outcomes().len() == self.last() - self.first() + 1
    }

    /// Whether the scan has stopped on too many misses in a row.
    pub open spec fn halted(&self) -> bool {
        self.limit() matches Some(l) && halts_after(self.outcomes(), l as nat)
    }

    /// Whether the scan asks for no more lookups.
    pub open spec fn done(&self) -> bool {
        self.complete() || self.halted()
    }

    /// The index whose outcome is fed next.
    pub open spec fn next(&self) -> int {
        self.first() + self.outcomes().len()
    }

    pub closed spec fn wf(&self) -> bool {
        &&& self.first <= self.last
        &&& self.outs@.len() <= self.last - self.first + 1
        &&& self.fed == self.outs@.len() || (self.fed == self.last - self.first
            && self.outs@.len() == self.last - self.first + 1)
        &&& self.finished == self.done()
        &&& (self.limit matches Some(l) ==> forall|k: int|
            1 <= k < self.outs@.len() ==> !#[trigger] halts_after(self.outs@.take(k), l as nat))
        &&& (self.limit matches Some(l) ==> self.misses == trailing_misses(self.outs@)
            && (!self.finished ==> self.misses < l || self.misses == 0))
        &&& self.found@ == hits(self.first, self.outs@)
    }

    /// A scan of `first..=last`.
    pub fn over(first: u64, last: u64, kind: KeyKind, limit: Option<usize>) -> (s: RangeScan)
        requires
            first <= last,
        ensures
            s.wf(),
            s.first() == first,
            s.last() == last,
            s.kind() == kind,
            s.limit() == limit,
            s.outcomes() == Seq::<Lookup>::empty(),
    {
        let s = RangeScan {
            first,
            last,
            kind,
            limit,
            fed: 0,
            finished: false,
            misses: 0,
            found: Vec::new(),
            outs: Ghost(Seq::empty()),
        };
        proof {
            assert(hits(first, Seq::<Lookup>::empty()) == Seq::<FieldData>::empty());
        }
        s
    }

    /// A scan of every index within `radius` of `center`, the bounds clamped to
    /// the index domain.
    pub fn around(center: u64, radius: u64, kind: KeyKind, limit: Option<usize>) -> (s: RangeScan)
        ensures
            s.wf(),
            s.first() == range_lower(center, radius),
            s.last() == range_upper(center, radius),
            s.kind() == kind,
            s.limit() == limit,
            s.outcomes() == Seq::<Lookup>::empty(),
    {
        let (lower, upper) = index_bounds(center, radius);
        RangeScan::over(lower, upper, kind, limit)
    }

    /// Whether the scan asks for no more lookups.
    pub fn is_done(&self) -> (r: bool)
        requires
            self.wf(),
        ensures
            r == self.done(),
    {
        self.finished
    }

    /// The index to look up next and its key bytes, or `None` once the scan is
    /// done.
    pub fn pending(&self) -> (r: Option<(u64, Vec<u8>)>)
        requires
            self.wf(),
        ensures
            self.done() ==> r is None,
            !self.done() ==> (r matches Some(p) && p.0 == self.next() && p.1@ == key_bytes_of(
                p.0,
                self.kind(),
            )),
    {
        if self.finished {
            return None;
        }
        let index = self.first + self.fed;
        match encode_key_bytes(index, self.kind) {
            Ok(key) => Some((index, key)),
            Err(_) => None,
        }
    }

    /// Record the outcome for the pending index.
    pub fn feed(&mut self, outcome: Lookup)
        requires
            old(self).wf(),
            !old(self).done(),
        ensures
            final(self).wf(),
            final(self).first() == old(self).first(),
            final(self).last() == old(self).last(),
            final(self).kind() == old(self).kind(),
            final(self).limit() == old(self).limit(),
            final(self).outcomes() == old(self).outcomes().push(outcome),
    {
        let ghost before = self.outs@;
        let ghost given = outcome;
        let ghost after = before.push(outcome);
        let index = self.first + self.fed;
        proof {
            assert(after.drop_last() =~= before);
            assert(index == (self.first + after.len() - 1) as u64);
            assert(after.last() == outcome);
            assert(hits(self.first, after) == hits(self.first, before) + entry_of(index, outcome));
            if let Some(l) = self.limit {
                assert forall|k: int| 1 <= k < after.len() implies !#[trigger] halts_after(
                    after.take(k),
                    l as nat,
                ) by {
                    if k < before.len() {
                        assert(after.take(k) =~= before.take(k));
                    } else {
                        assert(after.take(k) =~= before);
                    }
                }
            }
        }
        let is_miss = match outcome {
            Lookup::Found { field_id, bytes, version } => {
                self.found.push(FieldData { index, field_id, bcs_bytes: bytes, version });
                assert(self.found@ =~= hits(self.first, before) + entry_of(index, given));
                false
            },
            Lookup::Undecodable => {
                assert(self.found@ =~= hits(self.first, before) + entry_of(index, given));
                false
            },
            Lookup::Missing => {
                assert(self.found@ =~= hits(self.first, before) + entry_of(index, given));
                true
            },
        };
        self.outs = Ghost(after);
        let total = self.last - self.first;
        let complete = self.fed == total;
        if !complete {
            self.fed = self.fed + 1;
        }
        let mut halted = false;
        match self.limit {
            Some(l) => {
                if is_miss {
                    self.misses = self.misses + 1;
                    halted = self.misses >= l;
                } else {
                    self.misses = 0;
                }
            },
            None => {},
        }
        self.finished = complete || halted;
    }

    /// The fields found so far, in increasing index order.
    pub fn results(&self) -> (r: &Vec<FieldData>)
        requires
            self.wf(),
        ensures
            r@ == hits(self.first(), self.outcomes()),
    {
        &self.found
    }

    /// The fields found, in increasing index order.
    pub fn into_results(self) -> (r: Vec<FieldData>)
        requires
            self.wf(),
        ensures
            r@ == hits(self.first(), self.outcomes()),
    {
        self.found
    }
}

/// The fields found over consecutive pieces of a range: the piece `logs[0]`
/// starts at `lower`, each next piece right after the one before.
pub open spec fn chunk_hits(lower: u64, logs: Seq<Seq<Lookup>>) -> Seq<FieldData>
    decreases logs.len(),
{
    if logs.len() == 0 {
        Seq::empty()
    } else {
        hits(lower, logs[0]) + chunk_hits((lower + logs[0].len()) as u64, logs.drop_first())
    }
}

/// Reading `a` then `b` finds what reading `a` finds, then what reading `b`
/// from the index right after finds.
pub proof fn lemma_hits_concat(lower: u64, a: Seq<Lookup>, b: Seq<Lookup>)
    requires
        lower + a.len() + b.len() <= u64::MAX + 1,
    ensures
        hits(lower, a + b) == hits(lower, a) + hits((lower + a.len()) as u64, b),
    decreases b.len(),
{
    if b.len() == 0 {
        assert(a + b =~= a);
        assert(hits(lower, a) + hits((lower + a.len()) as u64, b) =~= hits(lower, a));
    } else {
        lemma_hits_concat(lower, a, b.drop_last());
        assert((a + b).drop_last() =~= a + b.drop_last());
        assert((a + b).last() == b.last());
        assert(hits(lower, a + b) =~= hits(lower, a) + hits((lower + a.len()) as u64, b));
    }
}

/// A scan that stops early finds a prefix of what the full scan of the same
/// range finds, when both read the same store: every field of the first is a
/// field of the second.
pub proof fn lemma_sparse_within_plain(lower: u64, sparse_log: Seq<Lookup>, plain_log: Seq<Lookup>)
    requires
        sparse_log.len() <= plain_log.len(),
        sparse_log == plain_log.take(sparse_log.len() as int),
        lower + plain_log.len() <= u64::MAX + 1,
    ensures
        hits(lower, sparse_log) == hits(lower, plain_log).take(hits(lower, sparse_log).len() as int),
        forall|f: FieldData| hits(lower, sparse_log).contains(f) ==> hits(lower, plain_log).contains(f),
{
    let rest = plain_log.skip(sparse_log.len() as int);
    assert(plain_log =~= sparse_log + rest);
    lemma_hits_concat(lower, sparse_log, rest);
    let h = hits(lower, sparse_log);
    assert(hits(lower, plain_log).take(h.len() as int) =~= h);
    assert forall|f: FieldData| h.contains(f) implies hits(lower, plain_log).contains(f) by {
        let i = choose|i: int| 0 <= i < h.len() && h[i] == f;
        assert(hits(lower, plain_log)[i] == f);
    }
}

/// When no run of misses reaches the limit, a scan with that limit that is done
/// finds exactly what the full scan of the same range finds.
pub proof fn lemma_sparse_complete(
    lower: u64,
    limit: nat,
    sparse_log: Seq<Lookup>,
    plain_log: Seq<Lookup>,
)
    requires
        sparse_log.len() <= plain_log.len(),
        sparse_log == plain_log.take(sparse_log.len() as int),
        sparse_log.len() == plain_log.len() || halts_after(sparse_log, limit),
        no_halt(plain_log, limit),
    ensures
        hits(lower, sparse_log) == hits(lower, plain_log),
{
    if sparse_log.len() < plain_log.len() {
        assert(!halts_after(plain_log.take(sparse_log.len() as int), limit));
    }
    assert(sparse_log =~= plain_log);
}

/// The fields found lie in the range read, in strictly increasing index
/// order: the result is a mapping from index to field.
pub proof fn lemma_hits_ordered(lower: u64, outs: Seq<Lookup>)
    requires
        lower + outs.len() <= u64::MAX + 1,
    ensures
        forall|i: int|
            0 <= i < hits(lower, outs).len() ==> lower <= #[trigger] hits(lower, outs)[i].index < lower
                + outs.len(),
        forall|i: int, j: int|
            0 <= i < j < hits(lower, outs).len() ==> hits(lower, outs)[i].index < hits(
                lower,
                outs,
            )[j].index,
    decreases outs.len(),
{
    if outs.len() > 0 {
        let prev = outs.drop_last();
        lemma_hits_ordered(lower, prev);
        let h = hits(lower, outs);
        let hp = hits(lower, prev);
        let top = (lower + outs.len() - 1) as u64;
        let e = entry_of(top, outs.last());
        assert(h == hp + e);
        assert forall|i: int| 0 <= i < h.len() implies lower <= #[trigger] h[i].index < lower
            + outs.len() by {
            if i < hp.len() {
                assert(h[i] == hp[i]);
            } else {
                assert(h[i] == e[i - hp.len()]);
            }
        }
        assert forall|i: int, j: int| 0 <= i < j < h.len() implies h[i].index < h[j].index by {
            if j < hp.len() {
                assert(h[i] == hp[i] && h[j] == hp[j]);
            } else {
                assert(h[j] == e[j - hp.len()]);
                assert(h[i] == hp[i]);
            }
        }
    }
}

/// Without a limit, a scan is done exactly when it has looked up every index
/// of its range: `last - first + 1` lookups, `2 * radius + 1` away from the
/// ends of the index domain.
pub proof fn lemma_plain_scan_covers_range(s: RangeScan)
    requires
        s.limit() is None,
    ensures
        s.done() <==> s.outcomes().len() == s.last() - s.first() + 1,
{
}

/// Reading a range in consecutive chunks and joining the chunks' fields in
/// order finds exactly what one scan of the whole range finds.
pub proof fn lemma_chunks_match_whole(lower: u64, logs: Seq<Seq<Lookup>>)
    requires
        lower + logs.flatten().len() <= u64::MAX + 1,
    ensures
        chunk_hits(lower, logs) == hits(lower, logs.flatten()),
    decreases logs.len(),
{
    if logs.len() == 0 {
        assert(logs.flatten() =~= Seq::<Lookup>::empty());
    } else {
        let rest = logs.drop_first();
        assert(logs.flatten() == logs[0] + rest.flatten());
        lemma_chunks_match_whole((lower + logs[0].len()) as u64, rest);
        lemma_hits_concat(lower, logs[0], rest.flatten());
    }
}

/// Split `first..=last` into consecutive chunks of `chunk_len` indices, the
/// last chunk possibly shorter; each chunk can be scanned on its own.
pub fn chunk_bounds(first: u64, last: u64, chunk_len: u64) -> (r: Vec<(u64, u64)>)
    requires
        first <= last,
        chunk_len > 0,
    ensures
        r@.len() >= 1,
        r@[0].0 == first,
        r@.last().1 == last,
        forall|i: int| 0 <= i < r@.len() ==> r@[i].0 <= #[trigger] r@[i].1,
        forall|i: int| 0 <= i < r@.len() ==> #[trigger] r@[i].1 - r@[i].0 + 1 <= chunk_len,
        forall|i: int| 0 <= i < r@.len() - 1 ==> #[trigger] r@[i].1 - r@[i].0 + 1 == chunk_len,
        forall|i: int| 0 <= i < r@.len() - 1 ==> r@[i + 1].0 == #[trigger] r@[i].1 + 1,
{
    let mut r: Vec<(u64, u64)> = Vec::new();
    let mut start: u64 = first;
    loop
        invariant
            first <= start <= last,
            chunk_len > 0,
            r@.len() == 0 ==> start == first,
            r@.len() > 0 ==> r@[0].0 == first && start == r@.last().1 + 1,
            forall|i: int| 0 <= i < r@.len() ==> r@[i].0 <= #[trigger] r@[i].1,
            forall|i: int| 0 <= i < r@.len() ==> #[trigger] r@[i].1 - r@[i].0 + 1 == chunk_len,
            forall|i: int| 0 <= i < r@.len() - 1 ==> r@[i + 1].0 == #[trigger] r@[i].1 + 1,
        decreases last - start,
    {
        let room = last - start;
        if room < chunk_len {
            r.push((start, last));
            return r;
        }
        let end = start + (chunk_len - 1);
        r.push((start, end));
        start = end + 1;
    }
}

/// Join the fields found by consecutive chunk scans, in chunk order.
pub fn merge_chunk_results(parts: Vec<Vec<FieldData>>) -> (r: Vec<FieldData>)
    ensures
        r@ == parts@.map_values(|p: Vec<FieldData>| p@).flatten(),
{
    let ghost views = parts@.map_values(|p: Vec<FieldData>| p@);
    let mut r: Vec<FieldData> = Vec::new();
    let mut rest = parts;
    let ghost mut done: Seq<Seq<FieldData>> = Seq::empty();
    let mut i: usize = 0;
    let n = rest.len();
    while i < n
        invariant
            n == rest@.len(),
            0 <= i <= n,
            rest@.len() == views.len(),
            forall|j: int| i <= j < n ==> #[trigger] rest@[j]@ == views[j],
            r@ == views.take(i as int).flatten(),
        decreases n - i,
    {
        let mut part: Vec<FieldData> = Vec::new();
        std::mem::swap(&mut part, &mut rest[i]);
        proof {
            assert(views.take(i + 1) =~= views.take(i as int).push(views[i as int]));
            views.take(i as int).lemma_flatten_push(views[i as int]);
        }
        r.append(&mut part);
        i = i + 1;
    }
    proof {
        assert(views.take(n as int) =~= views);
    }
    r
}

} // verus!
