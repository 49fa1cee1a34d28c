//! The sync engine: change tracking, push, pull and conflict resolution.
//!
//! Every syncable entity carries the same bookkeeping: an immutable id
//! and creation timestamp, the authoritative `updated_at`, the local
//! device's `local_updated_at`, a nullable tombstone and the
//! `is_synced` flag.  The engine works over that shape with the domain
//! fields left generic; the store's concrete entities mirror the same
//! rules.  Everything here is a pure decision: the caller moves bytes
//! to and from the remote authority and hands the results in.

use vstd::prelude::*;
use vstd::multiset::Multiset;

verus! {

/// Sync is configured exactly when both the remote URL and the remote
/// access key are present.
pub fn is_sync_configured(url: &Option<String>, key: &Option<String>) -> (r: bool)
    ensures
        r == (url.is_some() && key.is_some()),
{
    url.is_some() && key.is_some()
}

/// The user-visible status string: "configured" when both values are
/// present, "disabled" otherwise.  Unconfigured sync is not an error;
/// push and pull are then no-ops and every entity stays dirty.
pub fn get_sync_status(url: &Option<String>, key: &Option<String>) -> (r: String)
    ensures
        (url.is_some() && key.is_some()) ==> r@ == "configured"@,
        !(url.is_some() && key.is_some()) ==> r@ == "disabled"@,
{
    if is_sync_configured(url, key) {
        String::from_str("configured")
    } else {
        String::from_str("disabled")
    }
}

/// The local copy of a syncable entity: the change-tracking fields plus
/// the domain fields, which the sync rules never look into.
#[derive(Debug)]
pub struct SyncRecord<T> {
    pub id: String,
    pub created_at: i64,
    pub updated_at: i64,
    pub local_updated_at: i64,
    pub deleted_at: Option<i64>,
    pub is_synced: bool,
    pub fields: T,
}

/// A record as the remote authority reports it.
#[derive(Debug)]
pub struct RemoteRecord<T> {
    pub id: String,
    pub created_at: i64,
    pub updated_at: i64,
    pub deleted_at: Option<i64>,
    pub fields: T,
}

impl<T> SyncRecord<T> {
    /// The local copy was touched no earlier than it was created.
    pub open spec fn wf(&self) -> bool {
        self.local_updated_at >= self.created_at
    }
}

impl<T> RemoteRecord<T> {
    pub open spec fn wf(&self) -> bool {
        self.updated_at >= self.created_at
    }
}

/// Creates a fresh local entity: all three timestamps are `now`, no
/// tombstone, and the record starts dirty.
pub fn new_record<T>(id: String, now: i64, fields: T) -> (r: SyncRecord<T>)
    ensures
        r.id == id,
        r.created_at == now,
        r.updated_at == now,
        r.local_updated_at == now,
        r.deleted_at.is_none(),
        !r.is_synced,
        r.fields == fields,
        r.wf(),
{
    SyncRecord {
        id,
        created_at: now,
        updated_at: now,
        local_updated_at: now,
        deleted_at: None,
        is_synced: false,
        fields,
    }
}

/// A local edit: both modification timestamps advance to `now` and the
/// record becomes dirty.  Everything else, the domain fields included,
/// is the caller's to change.
pub fn mark_local_edit<T>(rec: &mut SyncRecord<T>, now: i64)
    requires
        now >= old(rec).local_updated_at,
        old(rec).wf(),
    ensures
        final(rec).updated_at == now,
        final(rec).local_updated_at == now,
        !final(rec).is_synced,
        final(rec).local_updated_at >= old(rec).local_updated_at,
        final(rec).id == old(rec).id,
        final(rec).created_at == old(rec).created_at,
        final(rec).deleted_at == old(rec).deleted_at,
        final(rec).fields == old(rec).fields,
        final(rec).wf(),
{
    rec.updated_at = now;
    rec.local_updated_at = now;
    rec.is_synced = false;
}

/// A soft delete: the tombstone and `local_updated_at` are set to
/// `now`, the record becomes dirty, and the row itself is retained so
/// the deletion can propagate.
pub fn mark_tombstone<T>(rec: &mut SyncRecord<T>, now: i64)
    requires
        now >= old(rec).local_updated_at,
        old(rec).wf(),
    ensures
        final(rec).deleted_at == Some(now),
        final(rec).local_updated_at == now,
        !final(rec).is_synced,
        final(rec).local_updated_at >= old(rec).local_updated_at,
        final(rec).id == old(rec).id,
        final(rec).created_at == old(rec).created_at,
        final(rec).updated_at == old(rec).updated_at,
        final(rec).fields == old(rec).fields,
        final(rec).wf(),
{
    rec.deleted_at = Some(now);
    rec.local_updated_at = now;
    rec.is_synced = false;
}

/// Which side a conflict keeps.  With both sides live (or both
/// tombstoned) the later writer wins and ties keep the local copy.
/// A tombstone on exactly one side wins regardless of order, unless
/// the live side's timestamp is strictly later — a later live edit
/// resurrects the record.
pub open spec fn local_wins<T>(local: SyncRecord<T>, remote: RemoteRecord<T>) -> bool {
    if local.deleted_at.is_none() && remote.deleted_at.is_some() {
        local.local_updated_at > remote.updated_at
    } else {
        local.local_updated_at >= remote.updated_at
    }
}

/// The local copy a pull writes when the remote side is adopted:
/// remote values throughout, known synced, with `local_updated_at`
/// recording the adopted authoritative timestamp.
pub open spec fn spec_adopted<T>(created_at: i64, remote: RemoteRecord<T>) -> SyncRecord<T> {
    SyncRecord {
        id: remote.id,
        created_at,
        updated_at: remote.updated_at,
        local_updated_at: remote.updated_at,
        deleted_at: remote.deleted_at,
        is_synced: true,
        fields: remote.fields,
    }
}

/// What a pull leaves for one id.  No local row: insert the remote
/// copy as freshly synced.  A clean local row: the remote side is
/// authoritative and overwrites it.  A dirty local row is a conflict:
/// the winner under `local_wins` is kept whole — a kept local copy
/// stays dirty so the win is pushed back, an adopted remote copy is
/// synced.
///
/// One corner is settled deliberately: a *clean* local tombstone is
/// overwritten by any pulled remote record, even an older live one.
/// A clean row is by definition already known to the remote side, so
/// remote authority over clean rows is taken to outrank tombstone
/// dominance there; the tombstone rule governs conflicts, where the
/// local copy holds unpushed work.
pub open spec fn spec_merge_pull<T>(
    local: Option<SyncRecord<T>>,
    remote: RemoteRecord<T>,
) -> SyncRecord<T> {
    match local {
        None => spec_adopted(remote.created_at, remote),
        Some(l) => {
            if l.is_synced {
                spec_adopted(l.created_at, remote)
            } else if local_wins(l, remote) {
                l
            } else {
                spec_adopted(l.created_at, remote)
            }
        },
    }
}

/// Resolves a pull for one id.  `created_at` is immutable and the id
/// is the join key, so a matching local row agrees with the remote row
/// on both.
pub fn merge_pull<T>(local: Option<SyncRecord<T>>, remote: RemoteRecord<T>) -> (r: SyncRecord<T>)
    requires
        remote.wf(),
        local matches Some(l) ==> l.wf() && l.id@ == remote.id@
            && l.created_at == remote.created_at,
    ensures
        r == spec_merge_pull(local, remote),
        r.wf(),
{
    match local {
        None => SyncRecord {
            id: remote.id,
            created_at: remote.created_at,
            updated_at: remote.updated_at,
            local_updated_at: remote.updated_at,
            deleted_at: remote.deleted_at,
            is_synced: true,
            fields: remote.fields,
        },
        Some(l) => {
            let keep_local = if !l.is_synced {
                if l.deleted_at.is_none() && remote.deleted_at.is_some() {
                    l.local_updated_at > remote.updated_at
                } else {
                    l.local_updated_at >= remote.updated_at
                }
            } else {
                false
            };
            if keep_local {
                l
            } else {
                SyncRecord {
                    id: remote.id,
                    created_at: l.created_at,
                    updated_at: remote.updated_at,
                    local_updated_at: remote.updated_at,
                    deleted_at: remote.deleted_at,
                    is_synced: true,
                    fields: remote.fields,
                }
            }
        },
    }
}

/// Law: last-writer-wins is deterministic.  Outside the one corner
/// where a remote tombstone overrides a tie, a conflict keeps the
/// local copy exactly when `local_updated_at` is at least the remote
/// `updated_at`; equal timestamps keep the local copy.
pub proof fn lemma_last_writer_wins<T>(local: SyncRecord<T>, remote: RemoteRecord<T>)
    requires
        !(local.deleted_at.is_none() && remote.deleted_at.is_some()
            && local.local_updated_at == remote.updated_at),
    ensures
        local_wins(local, remote) == (local.local_updated_at >= remote.updated_at),
        local.local_updated_at == remote.updated_at ==> local_wins(local, remote),
        !local.is_synced && local.local_updated_at >= remote.updated_at
            ==> spec_merge_pull(Some(local), remote) == local,
        !local.is_synced && local.local_updated_at < remote.updated_at
            ==> spec_merge_pull(Some(local), remote)
                == spec_adopted(local.created_at, remote),
{
}

/// Law: tombstone dominance.  With exactly one side tombstoned, the
/// tombstone wins exactly when its side's timestamp is at least the
/// live side's; a strictly later live edit resurrects the record.
pub proof fn lemma_tombstone_dominance<T>(local: SyncRecord<T>, remote: RemoteRecord<T>)
    requires
        local.deleted_at.is_some() != remote.deleted_at.is_some(),
    ensures
        local.deleted_at.is_some()
            ==> (local_wins(local, remote) == (local.local_updated_at >= remote.updated_at)),
        remote.deleted_at.is_some()
            ==> (!local_wins(local, remote) == (remote.updated_at >= local.local_updated_at)),
{
}

/// Ids are the join key, so a store holds each at most once.
pub open spec fn unique_ids<T>(s: Seq<SyncRecord<T>>) -> bool {
    forall|i: int, j: int|
        0 <= i < j < s.len() ==> (#[trigger] s[i].id@) != (#[trigger] s[j].id@)
}

/// What a push transmits per entity: the id and the
/// `local_updated_at` the snapshot was read at.  The timestamp is
/// re-checked on acknowledgement.
#[derive(Debug)]
pub struct PushSnapshot {
    pub id: String,
    pub local_updated_at: i64,
}

pub open spec fn snapshot_of<T>(r: SyncRecord<T>) -> PushSnapshot {
    PushSnapshot { id: r.id, local_updated_at: r.local_updated_at }
}

/// `s` is the snapshot of some dirty record in `records`.
pub open spec fn snapshot_from_dirty<T>(s: PushSnapshot, records: Seq<SyncRecord<T>>) -> bool {
    exists|j: int|
        0 <= j < records.len() && !(#[trigger] records[j]).is_synced && s == snapshot_of(records[j])
}

/// Everything a filtered record sequence holds was already there, and
/// satisfies the predicate.
proof fn lemma_filter_record_elems<T>(
    s: Seq<SyncRecord<T>>,
    pred: spec_fn(SyncRecord<T>) -> bool,
)
    ensures
        forall|x: SyncRecord<T>| #[trigger] s.filter(pred).contains(x)
            ==> s.contains(x) && pred(x),
    decreases s.len(),
{
    reveal(Seq::filter);
    if s.len() > 0 {
        lemma_filter_record_elems(s.drop_last(), pred);
        let fp = s.filter(pred);
        let dt = s.drop_last().filter(pred);
        assert forall|x: SyncRecord<T>| #[trigger] fp.contains(x)
            implies s.contains(x) && pred(x) by {
            let i = choose|i: int| 0 <= i < fp.len() && fp[i] == x;
            if pred(s.last()) {
                assert(fp == dt.push(s.last()));
                if i < fp.len() - 1 {
                    assert(dt[i] == x);
                    assert(dt.contains(x));
                    assert(s.drop_last().contains(x));
                    let j = choose|j: int|
                        0 <= j < s.drop_last().len() && s.drop_last()[j] == x;
                    assert(s[j] == x);
                } else {
                    assert(x == s.last());
                    assert(s[s.len() - 1] == x);
                }
            } else {
                assert(fp == dt);
                assert(dt.contains(x));
                assert(s.drop_last().contains(x));
                let j = choose|j: int|
                    0 <= j < s.drop_last().len() && s.drop_last()[j] == x;
                assert(s[j] == x);
            }
        }
    }
}

/// The snapshots a push round transmits: one per dirty record, oldest
/// `local_updated_at` first, so staleness stays bounded when a round
/// fails part-way.
pub fn push_snapshots<T>(records: &Vec<SyncRecord<T>>) -> (r: Vec<PushSnapshot>)
    ensures
        forall|i: int, j: int|
            0 <= i < j < r@.len()
                ==> (#[trigger] r@[i].local_updated_at) <= (#[trigger] r@[j].local_updated_at),
        r@.to_multiset() == records@.filter(|x: SyncRecord<T>| !x.is_synced).map_values(
            |x: SyncRecord<T>| snapshot_of(x),
        ).to_multiset(),
        // every snapshot comes from a dirty record ...
        forall|i: int| 0 <= i < r@.len() ==> snapshot_from_dirty(#[trigger] r@[i], records@),
        // ... and every dirty record is transmitted
        forall|j: int|
            0 <= j < records@.len() && !(#[trigger] records@[j]).is_synced
                ==> r@.contains(snapshot_of(records@[j])),
{
    broadcast use vstd::seq_lib::group_to_multiset_ensures;
    broadcast use vstd::multiset::group_multiset_axioms;

    let ghost dirty = |x: SyncRecord<T>| !x.is_synced;
    let ghost snap = |x: SyncRecord<T>| snapshot_of(x);
    let mut raw: Vec<PushSnapshot> = Vec::new();
    let mut i: usize = 0;
    proof {
        assert(records@.take(0).filter(dirty).map_values(snap)
            =~= Seq::<PushSnapshot>::empty());
    }
    while i < records.len()
        invariant
            0 <= i <= records@.len(),
            raw@ == records@.take(i as int).filter(dirty).map_values(snap),
            dirty == (|x: SyncRecord<T>| !x.is_synced),
            snap == (|x: SyncRecord<T>| snapshot_of(x)),
        decreases records@.len() - i,
    {
        let ghost raw_pre = raw@;
        if !records[i].is_synced {
            raw.push(PushSnapshot {
                id: records[i].id.clone(),
                local_updated_at: records[i].local_updated_at,
            });
        }
        proof {
            reveal(Seq::filter);
            let k = i as int;
            assert(records@.take(k + 1).drop_last() =~= records@.take(k));
            assert(records@.take(k + 1).last() == records@[k]);
            if !records@[k].is_synced {
                assert(records@.take(k + 1).filter(dirty)
                    == records@.take(k).filter(dirty).push(records@[k]));
                assert(raw@ =~= raw_pre.push(snapshot_of(records@[k])));
                assert(raw@ =~= records@.take(k + 1).filter(dirty).map_values(snap));
            } else {
                assert(records@.take(k + 1).filter(dirty) == records@.take(k).filter(dirty));
            }
        }
        i += 1;
    }
    proof {
        assert(records@.take(records@.len() as int) =~= records@);
    }
    let ghost raw_seq = raw@;
    // Sort the snapshots by timestamp, oldest first.
    let mut src = raw;
    let mut out: Vec<PushSnapshot> = Vec::new();
    proof {
        assert(out@.to_multiset().add(src@.to_multiset()) =~= raw_seq.to_multiset());
    }
    while src.len() > 0
        invariant
            out@.to_multiset().add(src@.to_multiset()) == raw_seq.to_multiset(),
            forall|i: int, j: int|
                0 <= i < j < out@.len()
                    ==> (#[trigger] out@[i].local_updated_at)
                        <= (#[trigger] out@[j].local_updated_at),
            forall|i: int, j: int|
                0 <= i < out@.len() && 0 <= j < src@.len()
                    ==> (#[trigger] out@[i].local_updated_at)
                        <= (#[trigger] src@[j].local_updated_at),
        decreases src.len(),
    {
        let mut m: usize = 0;
        let mut k: usize = 1;
        while k < src.len()
            invariant
                src@.len() > 0,
                0 <= m < k <= src@.len(),
                forall|j: int|
                    0 <= j < k
                        ==> src@[m as int].local_updated_at
                            <= (#[trigger] src@[j].local_updated_at),
            decreases src.len() - k,
        {
            if src[k].local_updated_at < src[m].local_updated_at {
                m = k;
            }
            k += 1;
        }
        let ghost pre = src@;
        let picked = src.remove(m);
        let ghost out_pre = out@;
        out.push(picked);
        proof {
            assert(pre.contains(picked));
            pre.to_multiset_ensures();
            assert(pre.to_multiset().count(picked) > 0);
            assert(src@ == pre.remove(m as int));
            vstd::seq_lib::to_multiset_remove(pre, m as int);
            vstd::seq_lib::to_multiset_build(out_pre, picked);
            broadcast use vstd::multiset::group_multiset_axioms;
            assert(out@.to_multiset().add(src@.to_multiset()) =~= raw_seq.to_multiset());
            assert forall|j: int| 0 <= j < src@.len()
                implies picked.local_updated_at <= (#[trigger] src@[j].local_updated_at) by {
                if j < m as int {
                    assert(src@[j] == pre[j]);
                } else {
                    assert(src@[j] == pre[j + 1]);
                }
            }
        }
    }
    proof {
        broadcast use vstd::multiset::group_multiset_axioms;
        assert(src@.to_multiset() =~= Multiset::empty());
        assert(out@.to_multiset() =~= raw_seq.to_multiset());
        let filtered = records@.filter(dirty);
        let mapped = filtered.map_values(snap);
        out@.to_multiset_ensures();
        mapped.to_multiset_ensures();
        lemma_filter_record_elems(records@, dirty);
        assert forall|i: int| 0 <= i < out@.len()
            implies snapshot_from_dirty(#[trigger] out@[i], records@) by {
            assert(out@.contains(out@[i]));
            assert(out@.to_multiset().count(out@[i]) > 0);
            assert(mapped.to_multiset().count(out@[i]) > 0);
            assert(mapped.contains(out@[i]));
            let p = choose|p: int| 0 <= p < mapped.len() && mapped[p] == out@[i];
            assert(filtered.contains(filtered[p]));
            assert(records@.contains(filtered[p]) && dirty(filtered[p]));
            let j = choose|j: int| 0 <= j < records@.len() && records@[j] == filtered[p];
            assert(!records@[j].is_synced);
            assert(out@[i] == snapshot_of(records@[j]));
        }
        assert forall|j: int| 0 <= j < records@.len() && !(#[trigger] records@[j]).is_synced
            implies out@.contains(snapshot_of(records@[j])) by {
            records@.lemma_filter_contains(dirty, j);
            assert(filtered.contains(records@[j]));
            let p = choose|p: int| 0 <= p < filtered.len() && filtered[p] == records@[j];
            assert(mapped[p] == snapshot_of(records@[j]));
            assert(mapped.contains(snapshot_of(records@[j])));
            assert(mapped.to_multiset().count(snapshot_of(records@[j])) > 0);
            assert(out@.to_multiset().count(snapshot_of(records@[j])) > 0);
        }
    }
    out
}

/// Marks one pushed entity as synced when the remote authority
/// acknowledges it — but only if no local edit moved
/// `local_updated_at` since the snapshot was read.  A record that was
/// edited in between stays dirty, to be retried next round.
pub fn acknowledge_push<T>(records: &mut Vec<SyncRecord<T>>, snapshot: &PushSnapshot) -> (r: bool)
    requires
        unique_ids(old(records)@),
    ensures
        final(records)@.len() == old(records)@.len(),
        unique_ids(final(records)@),
        forall|i: int|
            0 <= i < old(records)@.len() ==> #[trigger] final(records)@[i] == (
                if old(records)@[i].id@ == snapshot.id@
                    && old(records)@[i].local_updated_at == snapshot.local_updated_at {
                    SyncRecord { is_synced: true, ..old(records)@[i] }
                } else {
                    old(records)@[i]
                }
            ),
        r == exists|i: int|
            0 <= i < old(records)@.len() && (#[trigger] old(records)@[i].id@) == snapshot.id@
                && old(records)@[i].local_updated_at == snapshot.local_updated_at,
{
    let n = records.len();
    let mut i: usize = 0;
    while i < n
        invariant
            0 <= i <= n,
            n == old(records)@.len(),
            records@.len() == old(records)@.len(),
            unique_ids(old(records)@),
            forall|j: int| 0 <= j < records@.len() ==> #[trigger] records@[j] == old(records)@[j],
            forall|j: int|
                0 <= j < i
                    ==> !((#[trigger] old(records)@[j].id@) == snapshot.id@
                        && old(records)@[j].local_updated_at == snapshot.local_updated_at),
        decreases n - i,
    {
        if records[i].id == snapshot.id && records[i].local_updated_at == snapshot.local_updated_at
        {
            let rec = &mut records[i];
            rec.is_synced = true;
            proof {
                assert(records@[i as int] == SyncRecord {
                    is_synced: true,
                    ..old(records)@[i as int]
                });
                assert forall|p: int| 0 <= p < old(records)@.len()
                    implies #[trigger] records@[p] == (
                        if old(records)@[p].id@ == snapshot.id@
                            && old(records)@[p].local_updated_at == snapshot.local_updated_at {
                            SyncRecord { is_synced: true, ..old(records)@[p] }
                        } else {
                            old(records)@[p]
                        }
                    ) by {
                    if p != i as int && old(records)@[p].id@ == snapshot.id@ {
                        if p < i as int {
                            assert(old(records)@[p].id@ != old(records)@[i as int].id@);
                        } else {
                            assert(old(records)@[i as int].id@ != old(records)@[p].id@);
                        }
                    }
                }
                assert forall|p: int, q: int| 0 <= p < q < records@.len()
                    implies (#[trigger] records@[p].id@) != (#[trigger] records@[q].id@) by {
                    assert(records@[p].id@ == old(records)@[p].id@);
                    assert(records@[q].id@ == old(records)@[q].id@);
                }
            }
            return true;
        }
        i += 1;
    }
    false
}

/// Law: push is race-safe.  If a local edit lands between the snapshot
/// read and the acknowledgement, the acknowledged record's
/// `local_updated_at` no longer matches the snapshot, so the merge of
/// the acknowledgement leaves it exactly as it was: still dirty.
pub proof fn lemma_push_race_safety<T>(
    before: Seq<SyncRecord<T>>,
    after: Seq<SyncRecord<T>>,
    snapshot: PushSnapshot,
    i: int,
)
    requires
        0 <= i < before.len(),
        after.len() == before.len(),
        // `after` is what acknowledge_push leaves
        forall|j: int|
            0 <= j < before.len() ==> #[trigger] after[j] == (
                if before[j].id@ == snapshot.id@
                    && before[j].local_updated_at == snapshot.local_updated_at {
                    SyncRecord { is_synced: true, ..before[j] }
                } else {
                    before[j]
                }
            ),
        before[i].id@ == snapshot.id@,
        !before[i].is_synced,
        // a local edit advanced the record past the snapshot
        before[i].local_updated_at != snapshot.local_updated_at,
    ensures
        after[i] == before[i],
        !after[i].is_synced,
{
}

/// Advances the pull watermark, monotonically, to cover one applied
/// record.  The caller advances it only after the record is durably
/// applied, and re-applying is idempotent, so a crash in between is
/// safe.
pub fn advance_watermark(watermark: &mut i64, applied_updated_at: i64)
    ensures
        *final(watermark) == if applied_updated_at > *old(watermark) {
            applied_updated_at
        } else {
            *old(watermark)
        },
        *final(watermark) >= *old(watermark),
{
    if applied_updated_at > *watermark {
        *watermark = applied_updated_at;
    }
}

/// Applies one pulled remote record to the store and then advances the
/// watermark over it.  The store keeps one record per id: a matching
/// record is replaced by the merge's outcome, a new id is inserted.
pub fn apply_remote<T>(
    records: &mut Vec<SyncRecord<T>>,
    remote: RemoteRecord<T>,
    watermark: &mut i64,
)
    requires
        unique_ids(old(records)@),
        remote.wf(),
        forall|i: int|
            0 <= i < old(records)@.len() && (#[trigger] old(records)@[i].id@) == remote.id@
                ==> old(records)@[i].wf() && old(records)@[i].created_at == remote.created_at,
    ensures
        unique_ids(final(records)@),
        remote.updated_at > *old(watermark) ==> *final(watermark) == remote.updated_at,
        remote.updated_at <= *old(watermark) ==> *final(watermark) == *old(watermark),
        (exists|i: int|
            0 <= i < old(records)@.len() && (#[trigger] old(records)@[i].id@) == remote.id@)
            ==> {
                let i = choose|i: int|
                    0 <= i < old(records)@.len()
                        && (#[trigger] old(records)@[i].id@) == remote.id@;
                final(records)@ == old(records)@.update(
                    i,
                    spec_merge_pull(Some(old(records)@[i]), remote),
                )
            },
        (forall|i: int|
            0 <= i < old(records)@.len() ==> (#[trigger] old(records)@[i].id@) != remote.id@)
            ==> final(records)@ == old(records)@.push(spec_merge_pull(None, remote)),
{
    let remote_ts = remote.updated_at;
    let n = records.len();
    let mut i: usize = 0;
    while i < n
        invariant
            0 <= i <= n,
            n == records@.len(),
            records@ == old(records)@,
            *watermark == *old(watermark),
            remote_ts == remote.updated_at,
            unique_ids(records@),
            remote.wf(),
            forall|k: int|
                0 <= k < records@.len() && (#[trigger] records@[k].id@) == remote.id@
                    ==> records@[k].wf() && records@[k].created_at == remote.created_at,
            forall|j: int| 0 <= j < i ==> (#[trigger] records@[j].id@) != remote.id@,
        decreases n - i,
    {
        if records[i].id == remote.id {
            let local = records.remove(i);
            let merged = merge_pull(Some(local), remote);
            records.insert(i, merged);
            proof {
                let idx = i as int;
                assert(records@ =~= old(records)@.update(
                    idx,
                    spec_merge_pull(Some(old(records)@[idx]), remote),
                ));
                let w = choose|w: int|
                    0 <= w < old(records)@.len()
                        && (#[trigger] old(records)@[w].id@) == remote.id@;
                assert(w == idx);
                assert forall|p: int, q: int| 0 <= p < q < records@.len()
                    implies (#[trigger] records@[p].id@) != (#[trigger] records@[q].id@) by {
                    assert(records@[p].id@ == old(records)@[p].id@);
                    assert(records@[q].id@ == old(records)@[q].id@);
                }
            }
            if remote_ts > *watermark {
                *watermark = remote_ts;
            }
            return;
        }
        i += 1;
    }
    let merged = merge_pull(None, remote);
    let ghost merged_snap = merged;
    records.push(merged);
    proof {
        assert(merged_snap.id@ == remote.id@);
        assert forall|p: int, q: int| 0 <= p < q < records@.len()
            implies (#[trigger] records@[p].id@) != (#[trigger] records@[q].id@) by {
            if q == records@.len() - 1 {
                assert(records@[p] == old(records)@[p]);
                assert(records@[q] == merged_snap);
            } else {
                assert(records@[p] == old(records)@[p]);
                assert(records@[q] == old(records)@[q]);
            }
        }
    }
    if remote_ts > *watermark {
        *watermark = remote_ts;
    }
}

/// A pulled batch is applied in rank order: ranks are assigned by the
/// caller so that parent entities (a list) carry a lower rank than
/// their children (its tasks).
pub open spec fn batch_rank_sorted<T>(s: Seq<(u8, RemoteRecord<T>)>) -> bool {
    forall|i: int, j: int| 0 <= i < j < s.len() ==> (#[trigger] s[i]).0 <= (#[trigger] s[j]).0
}

/// Orders one pulled batch so that lower-ranked records come first.
/// Ranking parents below children keeps a parent's tombstone from
/// being applied after its children were reconciled, so an ill-ordered
/// cycle cannot resurrect children of a deleted parent.
pub fn order_pull_batch<T>(batch: Vec<(u8, RemoteRecord<T>)>) -> (r: Vec<(u8, RemoteRecord<T>)>)
    ensures
        r@.len() == batch@.len(),
        r@.to_multiset() == batch@.to_multiset(),
        batch_rank_sorted(r@),
{
    broadcast use vstd::seq_lib::group_to_multiset_ensures;
    broadcast use vstd::multiset::group_multiset_axioms;

    let ghost input_seq = batch@;
    let mut src = batch;
    let mut out: Vec<(u8, RemoteRecord<T>)> = Vec::new();
    proof {
        assert(out@.to_multiset().add(src@.to_multiset()) =~= input_seq.to_multiset());
    }
    while src.len() > 0
        invariant
            out@.to_multiset().add(src@.to_multiset()) == input_seq.to_multiset(),
            out@.len() + src@.len() == input_seq.len(),
            batch_rank_sorted(out@),
            forall|i: int, j: int|
                0 <= i < out@.len() && 0 <= j < src@.len()
                    ==> (#[trigger] out@[i]).0 <= (#[trigger] src@[j]).0,
        decreases src.len(),
    {
        let mut m: usize = 0;
        let mut k: usize = 1;
        while k < src.len()
            invariant
                src@.len() > 0,
                0 <= m < k <= src@.len(),
                forall|j: int| 0 <= j < k ==> src@[m as int].0 <= (#[trigger] src@[j]).0,
            decreases src.len() - k,
        {
            if src[k].0 < src[m].0 {
                m = k;
            }
            k += 1;
        }
        let ghost pre = src@;
        let picked = src.remove(m);
        let ghost out_pre = out@;
        out.push(picked);
        proof {
            assert(pre.contains(picked));
            pre.to_multiset_ensures();
            assert(pre.to_multiset().count(picked) > 0);
            assert(src@ == pre.remove(m as int));
            vstd::seq_lib::to_multiset_remove(pre, m as int);
            vstd::seq_lib::to_multiset_build(out_pre, picked);
            assert(out@.to_multiset().add(src@.to_multiset()) =~= input_seq.to_multiset());
            assert forall|j: int| 0 <= j < src@.len()
                implies picked.0 <= (#[trigger] src@[j]).0 by {
                if j < m as int {
                    assert(src@[j] == pre[j]);
                } else {
                    assert(src@[j] == pre[j + 1]);
                }
            }
        }
    }
    proof {
        assert(src@.to_multiset() =~= Multiset::empty());
        assert(out@.to_multiset() =~= input_seq.to_multiset());
    }
    out
}

/// Law: re-pulling an already applied remote record changes nothing,
/// so a crash between applying a pull and advancing the watermark is
/// safe to retry.
pub proof fn lemma_pull_idempotent<T>(local: Option<SyncRecord<T>>, remote: RemoteRecord<T>)
    requires
        local matches Some(l) ==> l.created_at == remote.created_at,
    ensures
        spec_merge_pull(Some(spec_merge_pull(local, remote)), remote)
            == spec_merge_pull(local, remote),
{
}

} // verus!
