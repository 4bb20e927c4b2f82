//! Outbox of Ipto writes: what is pending, what has been acknowledged, what has failed.

use vstd::prelude::*;
use crate::checkpoint::{CheckpointEpoch, MetadataOutboxCheckpoint, OutboxCheckpointView};
use crate::data::{DataIndividualShardId, IdempotencyKey};
use crate::ipto::{IptoInstanceId, IptoWritePayload, PayloadView};
use crate::ordered::{lemma_listing_exists, lemma_listing_len, opt_view, sorted, views, Duplicate, SortedMap};
use crate::storage::{RecordOffset, SegmentId};
use crate::text::{push_text, str_eq, IntoText};

verus! {

/// How far the delivery of an entry has got.
#[derive(Debug, Clone, Copy, PartialEq, Eq, Structural)]
pub enum OutboxStatus {
    Pending,
    Acknowledged,
    Failed,
}

/// A payload in the outbox.
#[derive(Debug, PartialEq, Eq)]
pub struct MetadataOutboxEntry {
    payload: IptoWritePayload,
    status: OutboxStatus,
    record_offset: Option<RecordOffset>,
    retry_count: u32,
    last_error: Option<String>,
}

/// The view of an entry.
pub struct EntryView {
    pub payload: PayloadView,
    pub status: OutboxStatus,
    pub record_offset: Option<u64>,
    pub retry_count: u32,
    pub last_error: Option<Seq<char>>,
}

impl View for MetadataOutboxEntry {
    type V = EntryView;

    closed spec fn view(&self) -> EntryView {
        EntryView {
            payload: self.payload@,
            status: self.status,
            record_offset: opt_view(self.record_offset),
            retry_count: self.retry_count,
            last_error: opt_view(self.last_error),
        }
    }
}

impl MetadataOutboxEntry {
    /// The payload to be written.
    pub fn payload(&self) -> (r: &IptoWritePayload)
        ensures
            r@ == self@.payload,
    {
        &self.payload
    }

    /// How far the delivery has got.
    pub fn status(&self) -> (r: OutboxStatus)
        ensures
            r == self@.status,
    {
        self.status
    }

    /// Where the payload stands in its segment.
    pub fn record_offset(&self) -> (r: Option<RecordOffset>)
        ensures
            opt_view(r) == self@.record_offset,
    {
        self.record_offset
    }

    /// The number of failed attempts.
    pub fn retry_count(&self) -> (r: u32)
        ensures
            r == self@.retry_count,
    {
        self.retry_count
    }

    /// The message of the last failure.
    pub fn last_error(&self) -> (r: Option<&str>)
        ensures
            opt_view(r) == self@.last_error,
    {
        match &self.last_error {
            Some(message) => Some(message.as_str()),
            None => None,
        }
    }
}

impl Clone for MetadataOutboxEntry {
    fn clone(&self) -> (r: Self)
        ensures
            r@ == self@,
    {
        MetadataOutboxEntry {
            payload: self.payload.clone(),
            status: self.status,
            record_offset: self.record_offset,
            retry_count: self.retry_count,
            last_error: self.last_error.clone(),
        }
    }
}

impl Duplicate for MetadataOutboxEntry {
    fn duplicate(&self) -> (r: Self) {
        self.clone()
    }
}

/// Whether an enqueued payload was new.
#[derive(Debug, Clone, Copy, PartialEq, Eq, Structural)]
pub enum OutboxEnqueueResult {
    Enqueued,
    Duplicate,
}

/// Numbers of entries in an outbox.
#[derive(Debug, Clone, Copy, PartialEq, Eq, Structural)]
pub struct MetadataOutboxSnapshot {
    pub total: usize,
    pub pending: usize,
    pub acknowledged: usize,
    pub failed: usize,
    pub queued_pending: usize,
}

/// Payloads by idempotency key, and the keys that wait for delivery.
#[derive(Debug)]
pub struct MetadataOutbox {
    entries: SortedMap<IdempotencyKey, MetadataOutboxEntry>,
    pending: Vec<IdempotencyKey>,
}

/// The view of an outbox.
pub struct OutboxView {
    pub entries: Map<Seq<char>, EntryView>,
    pub pending: Seq<Seq<char>>,
}

impl View for MetadataOutbox {
    type V = OutboxView;

    closed spec fn view(&self) -> OutboxView {
        OutboxView { entries: self.entries@, pending: views(self.pending@) }
    }
}

/// The outbox without entries.
pub open spec fn empty_outbox() -> OutboxView {
    OutboxView { entries: Map::empty(), pending: Seq::empty() }
}

/// The outbox after a payload has been handed to it: a known key changes nothing.
pub open spec fn enqueued(o: OutboxView, payload: PayloadView, record_offset: Option<u64>) -> OutboxView {
    if o.entries.contains_key(payload.key) {
        o
    } else {
        OutboxView {
            entries: o.entries.insert(
                payload.key,
                EntryView {
                    payload,
                    status: OutboxStatus::Pending,
                    record_offset,
                    retry_count: 0,
                    last_error: None,
                },
            ),
            pending: o.pending.push(payload.key),
        }
    }
}

/// The keys that differ from the given one.
pub open spec fn without(keys: Seq<Seq<char>>, key: Seq<char>) -> Seq<Seq<char>>
    decreases keys.len(),
{
    if keys.len() == 0 {
        keys
    } else if keys.last() == key {
        without(keys.drop_last(), key)
    } else {
        without(keys.drop_last(), key).push(keys.last())
    }
}

/// The outbox after the payload of a key has been written.
pub open spec fn acknowledged(o: OutboxView, key: Seq<char>) -> OutboxView {
    if o.entries.contains_key(key) {
        OutboxView {
            entries: o.entries.insert(key, EntryView { status: OutboxStatus::Acknowledged, ..o.entries[key] }),
            pending: without(o.pending, key),
        }
    } else {
        o
    }
}

/// One more, up to the largest number.
pub open spec fn one_more(n: u32) -> u32 {
    if n < u32::MAX {
        (n + 1) as u32
    } else {
        n
    }
}

/// The outbox after the write of a key has failed.
pub open spec fn failed(o: OutboxView, key: Seq<char>, message: Seq<char>) -> OutboxView {
    if o.entries.contains_key(key) {
        OutboxView {
            entries: o.entries.insert(
                key,
                EntryView {
                    status: OutboxStatus::Failed,
                    retry_count: one_more(o.entries[key].retry_count),
                    last_error: Some(message),
                    ..o.entries[key]
                },
            ),
            pending: without(o.pending, key),
        }
    } else {
        o
    }
}

/// Whether a key stands for a failed write.
pub open spec fn can_retry(o: OutboxView, key: Seq<char>) -> bool {
    o.entries.contains_key(key) && o.entries[key].status == OutboxStatus::Failed
}

/// The outbox after a failed write has been put back into the queue.
pub open spec fn retried(o: OutboxView, key: Seq<char>) -> OutboxView {
    if can_retry(o, key) {
        OutboxView {
            entries: o.entries.insert(key, EntryView { status: OutboxStatus::Pending, ..o.entries[key] }),
            pending: if o.pending.contains(key) {
                o.pending
            } else {
                o.pending.push(key)
            },
        }
    } else {
        o
    }
}

/// Whether a queued key waits for delivery, to the given target if there is one.
pub open spec fn waits(o: OutboxView, target: Option<Seq<char>>, key: Seq<char>) -> bool {
    &&& o.entries.contains_key(key)
    &&& o.entries[key].status == OutboxStatus::Pending
    &&& match target {
        Some(t) => o.entries[key].payload.target == t,
        None => true,
    }
}

/// The first queued key from a position on that waits for delivery.
pub open spec fn first_waiting(o: OutboxView, target: Option<Seq<char>>, from: int) -> Option<Seq<char>>
    decreases o.pending.len() - from,
{
    if from < 0 || from >= o.pending.len() {
        None
    } else if waits(o, target, o.pending[from]) {
        Some(o.pending[from])
    } else {
        first_waiting(o, target, from + 1)
    }
}

/// The entry that is to be delivered next.
pub open spec fn next_entry(o: OutboxView, target: Option<Seq<char>>) -> Option<EntryView> {
    match first_waiting(o, target, 0) {
        Some(key) => Some(o.entries[key]),
        None => None,
    }
}

/// The number of entries among the given keys that have a status.
pub open spec fn count_status(
    entries: Map<Seq<char>, EntryView>,
    keys: Seq<Seq<char>>,
    status: OutboxStatus,
) -> nat
    decreases keys.len(),
{
    if keys.len() == 0 {
        0
    } else {
        count_status(entries, keys.drop_last(), status) + if entries[keys.last()].status == status {
            1nat
        } else {
            0nat
        }
    }
}

/// The keys of an outbox in order.
pub open spec fn outbox_keys(o: OutboxView) -> Seq<Seq<char>> {
    sorted::<IdempotencyKey>(o.entries.dom())
}

/// Whether every entry at an offset or before it has been acknowledged, whatever its target:
/// a replay that begins behind the offset loses none that is still to be delivered.
pub open spec fn settled_up_to(entries: Map<Seq<char>, EntryView>, offset: u64) -> bool {
    forall|k: Seq<char>| #[trigger]
        entries.contains_key(k) && entries[k].record_offset is Some && entries[k].record_offset->0 <= offset
            ==> entries[k].status == OutboxStatus::Acknowledged
}

/// The largest offset of an acknowledged write to a target up to which every entry has been
/// acknowledged, and the mapping version of that write; of equal offsets the last in key
/// order counts.
pub open spec fn furthest(entries: Map<Seq<char>, EntryView>, keys: Seq<Seq<char>>, target: Seq<char>) -> Option<
    (u64, Seq<char>),
>
    decreases keys.len(),
{
    if keys.len() == 0 {
        None
    } else {
        let before = furthest(entries, keys.drop_last(), target);
        let e = entries[keys.last()];
        match e.record_offset {
            Some(offset) if e.status == OutboxStatus::Acknowledged && e.payload.target == target && settled_up_to(
                entries,
                offset,
            ) && (match before {
                Some((far, _)) => far <= offset,
                None => true,
            }) => Some((offset, e.payload.mapping_version)),
            _ => before,
        }
    }
}

/// The offset of an entry that has not been acknowledged.
spec fn unsettled(entries: Map<Seq<char>, EntryView>, key: Seq<char>) -> Option<u64> {
    if entries[key].status == OutboxStatus::Acknowledged {
        None
    } else {
        entries[key].record_offset
    }
}

impl MetadataOutbox {
    /// An outbox without entries.
    pub fn new() -> (r: Self)
        ensures
            r@ == empty_outbox(),
    {
        let r = MetadataOutbox { entries: SortedMap::new(), pending: Vec::new() };
        assert(views(r.pending@) =~= Seq::<Seq<char>>::empty());
        r
    }

    /// Hands a payload to the outbox.
    pub fn enqueue(&mut self, payload: IptoWritePayload) -> (r: OutboxEnqueueResult)
        ensures
            final(self)@ == enqueued(old(self)@, payload@, None),
            r == (if old(self)@.entries.contains_key(payload@.key) {
                OutboxEnqueueResult::Duplicate
            } else {
                OutboxEnqueueResult::Enqueued
            }),
    {
        self.enqueue_with_offset(payload, None)
    }

    /// Hands a payload to the outbox, together with where it stands in its segment.
    pub fn enqueue_with_offset(&mut self, payload: IptoWritePayload, record_offset: Option<RecordOffset>) -> (r:
        OutboxEnqueueResult)
        ensures
            final(self)@ == enqueued(old(self)@, payload@, opt_view(record_offset)),
            r == (if old(self)@.entries.contains_key(payload@.key) {
                OutboxEnqueueResult::Duplicate
            } else {
                OutboxEnqueueResult::Enqueued
            }),
    {
        let key = payload.idempotency_key.clone();
        if self.entries.contains_key(&key) {
            return OutboxEnqueueResult::Duplicate;
        }
        let _ = self.entries.insert(
            key.clone(),
            MetadataOutboxEntry {
                payload,
                status: OutboxStatus::Pending,
                record_offset,
                retry_count: 0,
                last_error: None,
            },
        );
        let ghost before = self.pending@;
        self.pending.push(key);
        assert(views(self.pending@) =~= views(before).push(payload@.key));
        OutboxEnqueueResult::Enqueued
    }

    fn find_waiting(&self, target: Option<&IptoInstanceId>) -> (r: Option<&MetadataOutboxEntry>)
        ensures
            opt_view(r) == next_entry(self@, opt_view(target)),
    {
        let mut i: usize = 0;
        while i < self.pending.len()
            invariant
                i <= self.pending.len(),
                first_waiting(self@, opt_view(target), 0) == first_waiting(self@, opt_view(target), i as int),
            decreases self.pending.len() - i,
        {
            assert(self@.pending[i as int] == self.pending@[i as int]@);
            if let Some(entry) = self.entries.get(&self.pending[i]) {
                let wanted = match target {
                    Some(t) => str_eq(entry.payload.target.as_str(), t.as_str()),
                    None => true,
                };
                if entry.status == OutboxStatus::Pending && wanted {
                    return Some(entry);
                }
            }
            i += 1;
        }
        None
    }

    /// The entry that is to be delivered next.
    pub fn next_pending(&self) -> (r: Option<&MetadataOutboxEntry>)
        ensures
            opt_view(r) == next_entry(self@, None),
    {
        self.find_waiting(None)
    }

    /// The entry that is to be delivered next to a target.
    pub fn next_pending_for_target(&self, target: &IptoInstanceId) -> (r: Option<&MetadataOutboxEntry>)
        ensures
            opt_view(r) == next_entry(self@, Some(target@)),
    {
        self.find_waiting(Some(target))
    }

    fn unqueue(&mut self, key: &IdempotencyKey)
        ensures
            final(self)@ == (OutboxView { pending: without(old(self)@.pending, key@), ..old(self)@ }),
    {
        let ghost all = views(self.pending@);
        let mut kept: Vec<IdempotencyKey> = Vec::new();
        let mut i: usize = 0;
        assert(views(kept@) =~= without(all.take(0), key@));
        while i < self.pending.len()
            invariant
                i <= self.pending.len(),
                all == views(self.pending@),
                views(kept@) == without(all.take(i as int), key@),
            decreases self.pending.len() - i,
        {
            assert(all.take(i + 1).drop_last() =~= all.take(i as int));
            let ghost before = kept@;
            if !str_eq(self.pending[i].as_str(), key.as_str()) {
                kept.push(self.pending[i].clone());
                assert(views(kept@) =~= views(before).push(all[i as int]));
            }
            i += 1;
        }
        assert(all.take(self.pending.len() as int) =~= all);
        self.pending = kept;
    }

    /// Marks the payload of a key as written. Returns whether the key is known.
    pub fn acknowledge(&mut self, key: &IdempotencyKey) -> (r: bool)
        ensures
            r == old(self)@.entries.contains_key(key@),
            final(self)@ == acknowledged(old(self)@, key@),
    {
        let ghost before = self.entries@;
        match self.entries.remove(key) {
            None => {
                assert(self.entries@ =~= before);
                false
            },
            Some(entry) => {
                let mut entry = entry;
                entry.status = OutboxStatus::Acknowledged;
                let ghost updated = entry@;
                let _ = self.entries.insert(key.clone(), entry);
                assert(self.entries@ =~= before.insert(key@, updated));
                self.unqueue(key);
                true
            },
        }
    }

    /// Marks the write of a key as failed. Returns whether the key is known.
    pub fn fail(&mut self, key: &IdempotencyKey, error: impl IntoText) -> (r: bool)
        ensures
            r == old(self)@.entries.contains_key(key@),
            final(self)@ == failed(old(self)@, key@, error.text()),
    {
        let ghost before = self.entries@;
        match self.entries.remove(key) {
            None => {
                assert(self.entries@ =~= before);
                false
            },
            Some(entry) => {
                let mut entry = entry;
                entry.status = OutboxStatus::Failed;
                entry.retry_count = if entry.retry_count < u32::MAX {
                    entry.retry_count + 1
                } else {
                    entry.retry_count
                };
                entry.last_error = Some(error.into_text());
                let ghost updated = entry@;
                let _ = self.entries.insert(key.clone(), entry);
                assert(self.entries@ =~= before.insert(key@, updated));
                self.unqueue(key);
                true
            },
        }
    }

    /// Puts a failed write back into the queue. Returns whether the key stands for one.
    pub fn retry_failed(&mut self, key: &IdempotencyKey) -> (r: bool)
        ensures
            r == can_retry(old(self)@, key@),
            final(self)@ == retried(old(self)@, key@),
    {
        match self.entries.get(key) {
            None => {
                return false;
            },
            Some(entry) => {
                if entry.status != OutboxStatus::Failed {
                    return false;
                }
            },
        }
        let ghost before = self.entries@;
        if let Some(entry) = self.entries.remove(key) {
            let mut entry = entry;
            entry.status = OutboxStatus::Pending;
            let ghost updated = entry@;
            let _ = self.entries.insert(key.clone(), entry);
            assert(self.entries@ =~= before.insert(key@, updated));
        }
        let ghost all = views(self.pending@);
        let mut queued = false;
        let mut i: usize = 0;
        while i < self.pending.len()
            invariant
                i <= self.pending.len(),
                all == views(self.pending@),
                queued ==> all.contains(key@),
                !queued ==> forall|j: int| 0 <= j < i ==> all[j] != key@,
            decreases self.pending.len() - i,
        {
            if str_eq(self.pending[i].as_str(), key.as_str()) {
                assert(all[i as int] == key@);
                queued = true;
            }
            i += 1;
        }
        if !queued {
            let ghost list = self.pending@;
            self.pending.push(key.clone());
            assert(views(self.pending@) =~= views(list).push(key@));
        }
        true
    }

    /// The number of entries.
    pub fn len(&self) -> (r: usize)
        ensures
            r == self@.entries.dom().len(),
    {
        self.entries.len()
    }

    /// Whether there is no entry.
    pub fn is_empty(&self) -> (r: bool)
        ensures
            r == (self@.entries == Map::<Seq<char>, EntryView>::empty()),
    {
        self.entries.is_empty()
    }

    /// The entry of a key.
    pub fn entry(&self, key: &IdempotencyKey) -> (r: Option<&MetadataOutboxEntry>)
        ensures
            match r {
                Some(entry) => self@.entries.contains_key(key@) && entry@ == self@.entries[key@],
                None => !self@.entries.contains_key(key@),
            },
    {
        self.entries.get(key)
    }

    /// Numbers of entries.
    pub fn snapshot(&self) -> (r: MetadataOutboxSnapshot)
        ensures
            r.total == self@.entries.dom().len(),
            r.pending == count_status(self@.entries, outbox_keys(self@), OutboxStatus::Pending),
            r.acknowledged == count_status(self@.entries, outbox_keys(self@), OutboxStatus::Acknowledged),
            r.failed == count_status(self@.entries, outbox_keys(self@), OutboxStatus::Failed),
            r.queued_pending == self@.pending.len(),
    {
        let total: usize = self.entries.len();
        let ghost keys = outbox_keys(self@);
        let ghost entries = self@.entries;
        let mut pending: usize = 0;
        let mut acknowledged: usize = 0;
        let mut failed: usize = 0;
        let mut i: usize = 0;
        assert(keys.take(0) =~= Seq::<Seq<char>>::empty());
        while i < total
            invariant
                i <= total,
                total == keys.len(),
                total == self.entries@.dom().len(),
                keys == self.entries.keys(),
                entries == self.entries@,
                pending + acknowledged + failed == i,
                pending == count_status(entries, keys.take(i as int), OutboxStatus::Pending),
                acknowledged == count_status(entries, keys.take(i as int), OutboxStatus::Acknowledged),
                failed == count_status(entries, keys.take(i as int), OutboxStatus::Failed),
            decreases total - i,
        {
            assert(keys.take(i + 1).drop_last() =~= keys.take(i as int));
            match self.entries.value_at(i).status {
                OutboxStatus::Pending => {
                    pending = pending + 1;
                },
                OutboxStatus::Acknowledged => {
                    acknowledged = acknowledged + 1;
                },
                OutboxStatus::Failed => {
                    failed = failed + 1;
                },
            }
            i += 1;
        }
        assert(keys.take(total as int) =~= keys);
        MetadataOutboxSnapshot { total, pending, acknowledged, failed, queued_pending: self.pending.len() }
    }

    /// The smallest offset of an entry that has not been acknowledged.
    fn first_unsettled(&self) -> (r: Option<u64>)
        ensures
            forall|offset: u64| #[trigger]
                settled_up_to(self@.entries, offset) == (match r {
                    Some(first) => offset < first,
                    None => true,
                }),
    {
        let total: usize = self.entries.len();
        let ghost keys = outbox_keys(self@);
        let ghost entries = self@.entries;
        let mut first: Option<u64> = None;
        let ghost mut at: int = -1;
        let mut i: usize = 0;
        while i < total
            invariant
                i <= total,
                total == keys.len(),
                total == self.entries@.dom().len(),
                keys == self.entries.keys(),
                entries == self.entries@,
                forall|j: int|
                    0 <= j < i ==> unsettled(entries, #[trigger] keys[j]) is Some ==> first is Some && first->0
                        <= unsettled(entries, keys[j])->0,
                first is Some ==> 0 <= at < i && unsettled(entries, keys[at]) == first,
            decreases total - i,
        {
            let entry = self.entries.value_at(i);
            if entry.status != OutboxStatus::Acknowledged {
                if let Some(offset) = entry.record_offset {
                    let earlier = match first {
                        Some(known) => offset.0 < known,
                        None => true,
                    };
                    if earlier {
                        first = Some(offset.0);
                        proof {
                            at = i as int;
                        }
                    }
                }
            }
            i += 1;
        }
        proof {
            assert forall|offset: u64| #[trigger]
                settled_up_to(entries, offset) == (match first {
                    Some(first) => offset < first,
                    None => true,
                }) by {
                if first is Some && first->0 <= offset {
                    assert(entries.contains_key(keys[at]));
                    assert(!settled_up_to(entries, offset));
                } else {
                    assert forall|k: Seq<char>| #[trigger]
                        entries.contains_key(k) && entries[k].record_offset is Some && entries[k].record_offset->0
                            <= offset implies entries[k].status == OutboxStatus::Acknowledged by {
                        assert(entries.dom().contains(k));
                        assert(keys.contains(k));
                        let j = choose|j: int| 0 <= j < keys.len() && keys[j] == k;
                        assert(unsettled(entries, keys[j]) is None);
                    }
                }
            }
        }
        first
    }

    /// How far a target has acknowledged the writes of a segment: not beyond an entry that is
    /// still to be delivered.
    pub fn acknowledged_checkpoint(
        &self,
        data_individual_shard_id: DataIndividualShardId,
        target: &IptoInstanceId,
        segment_id: SegmentId,
        epoch: CheckpointEpoch,
    ) -> (r: Option<MetadataOutboxCheckpoint>)
        ensures
            match (r, furthest(self@.entries, outbox_keys(self@), target@)) {
                (Some(c), Some((offset, mapping_version))) => c@ == (OutboxCheckpointView {
                    shard: data_individual_shard_id@,
                    target: target@,
                    segment_id: segment_id@,
                    last_acknowledged_offset: offset,
                    mapping_version,
                    epoch: epoch@,
                }),
                (None, None) => true,
                _ => false,
            },
            r matches Some(c) ==> settled_up_to(self@.entries, c@.last_acknowledged_offset),
    {
        let unsettled = self.first_unsettled();
        let total: usize = self.entries.len();
        let ghost keys = outbox_keys(self@);
        let ghost entries = self@.entries;
        let mut best: Option<(u64, String)> = None;
        let mut i: usize = 0;
        assert(keys.take(0) =~= Seq::<Seq<char>>::empty());
        while i < total
            invariant
                i <= total,
                total == keys.len(),
                total == self.entries@.dom().len(),
                keys == self.entries.keys(),
                entries == self.entries@,
                forall|offset: u64| #[trigger]
                    settled_up_to(entries, offset) == (match unsettled {
                        Some(first) => offset < first,
                        None => true,
                    }),
                best matches Some((far, _)) ==> settled_up_to(entries, far),
                match (best, furthest(entries, keys.take(i as int), target@)) {
                    (Some((a, b)), Some((x, y))) => a == x && b@ == y,
                    (None, None) => true,
                    _ => false,
                },
            decreases total - i,
        {
            assert(keys.take(i + 1).drop_last() =~= keys.take(i as int));
            let entry = self.entries.value_at(i);
            if entry.status == OutboxStatus::Acknowledged && str_eq(entry.payload.target.as_str(), target.as_str()) {
                if let Some(offset) = entry.record_offset {
                    let settled = match unsettled {
                        Some(first) => offset.0 < first,
                        None => true,
                    };
                    let further = match &best {
                        Some((far, _)) => *far <= offset.0,
                        None => true,
                    };
                    assert(settled_up_to(entries, offset.0) == settled);
                    if settled && further {
                        best = Some((offset.0, entry.payload.mapping_version.clone()));
                    }
                }
            }
            i += 1;
        }
        assert(keys.take(total as int) =~= keys);
        match best {
            Some((offset, mapping_version)) => Some(
                MetadataOutboxCheckpoint {
                    data_individual_shard_id,
                    target: target.clone(),
                    segment_id,
                    last_acknowledged_offset: RecordOffset(offset),
                    mapping_version,
                    epoch,
                },
            ),
            None => None,
        }
    }
}

impl Default for MetadataOutbox {
    fn default() -> (r: Self)
        ensures
            r@ == empty_outbox(),
    {
        MetadataOutbox::new()
    }
}

// ---------------------------------------------------------------------------
// Delivery
// ---------------------------------------------------------------------------

/// Why a payload was not written.
#[derive(Debug, PartialEq, Eq)]
pub struct IptoWriteError {
    message: String,
    retryable: bool,
}

/// The view of a write error.
pub struct WriteErrorView {
    pub message: Seq<char>,
    pub retryable: bool,
}

impl View for IptoWriteError {
    type V = WriteErrorView;

    closed spec fn view(&self) -> WriteErrorView {
        WriteErrorView { message: self.message@, retryable: self.retryable }
    }
}

/// The text of a write error.
pub open spec fn write_error_text(e: WriteErrorView) -> Seq<char> {
    if e.retryable {
        "retryable Ipto write error: "@ + e.message
    } else {
        "permanent Ipto write error: "@ + e.message
    }
}

impl IptoWriteError {
    /// A failure that a later attempt may not meet.
    pub fn retryable(message: impl IntoText) -> (r: Self)
        ensures
            r@ == (WriteErrorView { message: message.text(), retryable: true }),
    {
        IptoWriteError { message: message.into_text(), retryable: true }
    }

    /// A failure that every attempt meets.
    pub fn permanent(message: impl IntoText) -> (r: Self)
        ensures
            r@ == (WriteErrorView { message: message.text(), retryable: false }),
    {
        IptoWriteError { message: message.into_text(), retryable: false }
    }

    /// What went wrong.
    pub fn message(&self) -> (r: &str)
        ensures
            r@ == self@.message,
    {
        self.message.as_str()
    }

    /// Whether a later attempt may succeed.
    pub fn is_retryable(&self) -> (r: bool)
        ensures
            r == self@.retryable,
    {
        self.retryable
    }

    /// The error as a text for an operator.
    pub fn describe(&self) -> (r: String)
        ensures
            r@ == write_error_text(self@),
    {
        let mut out = if self.retryable {
            "retryable Ipto write error: ".to_owned()
        } else {
            "permanent Ipto write error: ".to_owned()
        };
        push_text(&mut out, self.message.as_str());
        out
    }
}

impl Clone for IptoWriteError {
    fn clone(&self) -> (r: Self)
        ensures
            r == *self,
    {
        IptoWriteError { message: self.message.clone(), retryable: self.retryable }
    }
}

/// The outcome of a write.
pub type Outcome = Result<(), WriteErrorView>;

/// The view of the outcome of a write.
pub open spec fn outcome_of(r: Result<(), IptoWriteError>) -> Outcome {
    match r {
        Ok(()) => Ok(()),
        Err(e) => Err(e@),
    }
}

/// A payload that was handed to a writer, and what came of it.
pub struct Attempt {
    pub payload: PayloadView,
    pub outcome: Outcome,
}

/// Writes payloads to an Ipto instance.
pub trait IptoWriter {
    /// The writes that have been attempted so far. A verified writer says what they are. One
    /// outside of verified code has no words for it and leaves this out: of it only so much is
    /// said that they are some function of what the writer is.
    closed spec fn attempts(&self) -> Seq<Attempt> {
        arbitrary::<spec_fn(&Self) -> Seq<Attempt>>()(self)
    }

    /// Attempts to write a payload.
    fn write(&mut self, payload: &IptoWritePayload) -> (r: Result<(), IptoWriteError>)
        ensures
            final(self).attempts() == old(self).attempts().push(
                Attempt { payload: payload@, outcome: outcome_of(r) },
            ),
    ;
}

/// What came of an attempt to deliver the next entry.
#[derive(Debug, Clone, PartialEq, Eq)]
#[allow(inconsistent_fields)]
pub enum MetadataOutboxDeliveryResult {
    NoPending,
    Acknowledged { idempotency_key: IdempotencyKey },
    Failed { idempotency_key: IdempotencyKey, retryable: bool, message: String },
}

/// The view of a delivery result.
pub enum DeliveryView {
    NoPending,
    Acknowledged(Seq<char>),
    Failed(Seq<char>, WriteErrorView),
}

impl View for MetadataOutboxDeliveryResult {
    type V = DeliveryView;

    open spec fn view(&self) -> DeliveryView {
        match self {
            MetadataOutboxDeliveryResult::NoPending => DeliveryView::NoPending,
            MetadataOutboxDeliveryResult::Acknowledged { idempotency_key } => DeliveryView::Acknowledged(
                idempotency_key@,
            ),
            MetadataOutboxDeliveryResult::Failed { idempotency_key, retryable, message } => DeliveryView::Failed(
                idempotency_key@,
                WriteErrorView { message: message@, retryable: *retryable },
            ),
        }
    }
}

/// The outbox after the write of a key has had an outcome.
pub open spec fn settled(o: OutboxView, key: Seq<char>, outcome: Outcome) -> OutboxView {
    match outcome {
        Ok(()) => acknowledged(o, key),
        Err(e) => failed(o, key, e.message),
    }
}

/// What is reported of the write of a key.
pub open spec fn delivery(key: Seq<char>, outcome: Outcome) -> DeliveryView {
    match outcome {
        Ok(()) => DeliveryView::Acknowledged(key),
        Err(e) => DeliveryView::Failed(key, e),
    }
}

/// The outbox after the attempts have been made, each with the entry that was next.
pub open spec fn after_attempts(o: OutboxView, target: Option<Seq<char>>, attempts: Seq<Attempt>) -> OutboxView
    decreases attempts.len(),
{
    if attempts.len() == 0 {
        o
    } else {
        let before = after_attempts(o, target, attempts.drop_last());
        match next_entry(before, target) {
            Some(entry) => settled(before, entry.payload.key, attempts.last().outcome),
            None => before,
        }
    }
}

/// Whether an attempt failed in a way that a later one may not.
pub open spec fn backs_off(a: Attempt) -> bool {
    a.outcome matches Err(e) && e.retryable
}

/// The number of attempts that succeeded.
pub open spec fn successes(attempts: Seq<Attempt>) -> nat
    decreases attempts.len(),
{
    if attempts.len() == 0 {
        0
    } else {
        successes(attempts.drop_last()) + if attempts.last().outcome is Ok {
            1nat
        } else {
            0nat
        }
    }
}

/// Whether the attempts are those of one drain: each takes the entry that is next, none
/// follows a failure that calls for a pause, and there are at most so many.
pub open spec fn in_turn(o: OutboxView, target: Option<Seq<char>>, attempts: Seq<Attempt>, max_attempts: nat) -> bool {
    &&& attempts.len() <= max_attempts
    &&& forall|i: int|
        0 <= i < attempts.len() ==> next_entry(after_attempts(o, target, attempts.take(i)), target) is Some && (
        #[trigger] attempts[i]).payload == next_entry(after_attempts(o, target, attempts.take(i)), target)->0.payload
    &&& forall|i: int| 0 <= i < attempts.len() - 1 ==> !backs_off(#[trigger] attempts[i])
}

/// Whether a drain has no reason to go on: it has made all its attempts, the last one
/// calls for a pause, or nothing waits.
pub open spec fn is_over(o: OutboxView, target: Option<Seq<char>>, attempts: Seq<Attempt>, max_attempts: nat) -> bool {
    ||| attempts.len() == max_attempts
    ||| attempts.len() > 0 && backs_off(attempts.last())
    ||| next_entry(after_attempts(o, target, attempts), target) is None
}

/// Whether `new` is `before` and then the attempts of one step.
pub open spec fn new_attempts(before: Seq<Attempt>, new: Seq<Attempt>) -> Seq<Attempt> {
    new.skip(before.len() as int)
}

impl MetadataOutbox {
    /// Records what came of the write of a key.
    pub fn settle(&mut self, key: &IdempotencyKey, outcome: Result<(), IptoWriteError>) -> (r:
        MetadataOutboxDeliveryResult)
        ensures
            final(self)@ == settled(old(self)@, key@, outcome_of(outcome)),
            r@ == delivery(key@, outcome_of(outcome)),
    {
        match outcome {
            Ok(()) => {
                let _ = self.acknowledge(key);
                MetadataOutboxDeliveryResult::Acknowledged { idempotency_key: key.clone() }
            },
            Err(error) => {
                let message = error.message().to_owned();
                let _ = self.fail(key, error.message());
                MetadataOutboxDeliveryResult::Failed {
                    idempotency_key: key.clone(),
                    retryable: error.is_retryable(),
                    message,
                }
            },
        }
    }
}

/// What one delivery does: with nothing waiting, nothing; otherwise it hands the payload
/// of the next entry to the writer and records the outcome.
pub open spec fn delivered(
    o: OutboxView,
    target: Option<Seq<char>>,
    before: Seq<Attempt>,
    after_o: OutboxView,
    after: Seq<Attempt>,
    r: DeliveryView,
) -> bool {
    match next_entry(o, target) {
        None => after_o == o && after == before && r == DeliveryView::NoPending,
        Some(entry) => {
            &&& after.len() == before.len() + 1
            &&& after == before.push(after.last())
            &&& after.last().payload == entry.payload
            &&& after_o == settled(o, entry.payload.key, after.last().outcome)
            &&& r == delivery(entry.payload.key, after.last().outcome)
        },
    }
}

fn deliver_next<W: IptoWriter + ?Sized>(
    outbox: &mut MetadataOutbox,
    target: Option<&IptoInstanceId>,
    writer: &mut W,
) -> (r: MetadataOutboxDeliveryResult)
    ensures
        delivered(
            old(outbox)@,
            opt_view(target),
            old(writer).attempts(),
            final(outbox)@,
            final(writer).attempts(),
            r@,
        ),
{
    let payload = match outbox.find_waiting(target) {
        Some(entry) => entry.payload().clone(),
        None => {
            return MetadataOutboxDeliveryResult::NoPending;
        },
    };
    let outcome = writer.write(&payload);
    outbox.settle(&payload.idempotency_key, outcome)
}

/// Delivers the entry that is next.
pub fn deliver_next_pending<W: IptoWriter + ?Sized>(outbox: &mut MetadataOutbox, writer: &mut W) -> (r:
    MetadataOutboxDeliveryResult)
    ensures
        delivered(old(outbox)@, None, old(writer).attempts(), final(outbox)@, final(writer).attempts(), r@),
{
    deliver_next(outbox, None, writer)
}

/// Delivers the entry that is next for a target.
pub fn deliver_next_pending_for_target<W: IptoWriter + ?Sized>(
    outbox: &mut MetadataOutbox,
    target: &IptoInstanceId,
    writer: &mut W,
) -> (r: MetadataOutboxDeliveryResult)
    ensures
        delivered(old(outbox)@, Some(target@), old(writer).attempts(), final(outbox)@, final(writer).attempts(), r@),
{
    deliver_next(outbox, Some(target), writer)
}

/// What a drain did.
#[derive(Debug, Clone, Copy, PartialEq, Eq, Structural)]
pub struct MetadataOutboxDrainSummary {
    pub attempted: usize,
    pub acknowledged: usize,
    pub failed: usize,
    pub stopped_after_failure: bool,
}

impl MetadataOutboxDrainSummary {
    /// Whether nothing was attempted.
    pub fn is_empty(&self) -> (r: bool)
        ensures
            r == (self.attempted == 0),
    {
        self.attempted == 0
    }
}

/// Whether a summary tells of the attempts.
pub open spec fn summarizes(s: MetadataOutboxDrainSummary, attempts: Seq<Attempt>) -> bool {
    &&& s.attempted == attempts.len()
    &&& s.acknowledged == successes(attempts)
    &&& s.failed == attempts.len() - successes(attempts)
    &&& s.stopped_after_failure == (attempts.len() > 0 && backs_off(attempts.last()))
}

/// What a drain does: it makes attempts in turn until there is no reason to go on, and
/// leaves the outbox as they left it.
pub open spec fn drained(
    o: OutboxView,
    target: Option<Seq<char>>,
    before: Seq<Attempt>,
    after_o: OutboxView,
    after: Seq<Attempt>,
    s: MetadataOutboxDrainSummary,
    max_attempts: nat,
) -> bool {
    let made = new_attempts(before, after);
    &&& after == before + made
    &&& in_turn(o, target, made, max_attempts)
    &&& is_over(o, target, made, max_attempts)
    &&& after_o == after_attempts(o, target, made)
    &&& summarizes(s, made)
}

proof fn lemma_one_attempt(
    o: OutboxView,
    target: Option<Seq<char>>,
    made: Seq<Attempt>,
    a: Attempt,
    max_attempts: nat,
)
    requires
        in_turn(o, target, made, max_attempts),
        made.len() < max_attempts,
        made.len() > 0 ==> !backs_off(made.last()),
        next_entry(after_attempts(o, target, made), target) is Some,
        a.payload == next_entry(after_attempts(o, target, made), target)->0.payload,
    ensures
        in_turn(o, target, made.push(a), max_attempts),
        after_attempts(o, target, made.push(a)) == settled(
            after_attempts(o, target, made),
            a.payload.key,
            a.outcome,
        ),
        successes(made.push(a)) == successes(made) + if a.outcome is Ok {
            1nat
        } else {
            0nat
        },
        made.push(a).last() == a,
{
    let all = made.push(a);
    assert(all.drop_last() =~= made);
    assert forall|j: int| 0 <= j < all.len() implies next_entry(after_attempts(o, target, all.take(j)), target) is Some
        && (#[trigger] all[j]).payload == next_entry(after_attempts(o, target, all.take(j)), target)->0.payload by {
        if j < made.len() {
            assert(all.take(j) =~= made.take(j));
            assert(all[j] == made[j]);
        } else {
            assert(all.take(j) =~= made);
        }
    }
    assert forall|j: int| 0 <= j < all.len() - 1 implies !backs_off(#[trigger] all[j]) by {
        if j < made.len() - 1 {
            assert(all[j] == made[j]);
        } else {
            assert(all[j] == made.last());
        }
    }
}

fn drain<W: IptoWriter + ?Sized>(
    outbox: &mut MetadataOutbox,
    target: Option<&IptoInstanceId>,
    writer: &mut W,
    max_attempts: usize,
) -> (r: MetadataOutboxDrainSummary)
    ensures
        drained(
            old(outbox)@,
            opt_view(target),
            old(writer).attempts(),
            final(outbox)@,
            final(writer).attempts(),
            r,
            max_attempts as nat,
        ),
{
    let ghost o = outbox@;
    let ghost t = opt_view(target);
    let ghost before = writer.attempts();
    let ghost mut made: Seq<Attempt> = Seq::empty();
    let mut summary = MetadataOutboxDrainSummary {
        attempted: 0,
        acknowledged: 0,
        failed: 0,
        stopped_after_failure: false,
    };
    let mut i: usize = 0;
    assert(before + made =~= before);
    while i < max_attempts
        invariant_except_break
            made.len() == i,
            made.len() > 0 ==> !backs_off(made.last()),
        invariant
            o == old(outbox)@,
            t == opt_view(target),
            i <= max_attempts,
            summary.attempted <= max_attempts,
            writer.attempts() == before + made,
            in_turn(o, t, made, max_attempts as nat),
            outbox@ == after_attempts(o, t, made),
            summarizes(summary, made),
            successes(made) <= made.len(),
        ensures
            is_over(o, t, made, max_attempts as nat),
        decreases max_attempts - i,
    {
        let ghost sofar = made;
        let ghost was = outbox@;
        let result = deliver_next(outbox, target, writer);
        proof {
            if next_entry(was, t) is Some {
                let a = writer.attempts().last();
                lemma_one_attempt(o, t, sofar, a, max_attempts as nat);
                made = sofar.push(a);
                assert(writer.attempts() =~= before + made);
            }
        }
        match result {
            MetadataOutboxDeliveryResult::NoPending => {
                break ;
            },
            MetadataOutboxDeliveryResult::Acknowledged { .. } => {
                summary.attempted = summary.attempted + 1;
                summary.acknowledged = summary.acknowledged + 1;
            },
            MetadataOutboxDeliveryResult::Failed { retryable, .. } => {
                summary.attempted = summary.attempted + 1;
                summary.failed = summary.failed + 1;
                summary.stopped_after_failure = retryable;
                if retryable {
                    break ;
                }
            },
        }
        i += 1;
    }
    assert(new_attempts(before, writer.attempts()) =~= made);
    summary
}

/// Delivers entries one after another, at most so many, and pauses after a failure that a
/// later attempt may not meet.
pub fn drain_pending_outbox<W: IptoWriter + ?Sized>(
    outbox: &mut MetadataOutbox,
    writer: &mut W,
    max_attempts: usize,
) -> (r: MetadataOutboxDrainSummary)
    ensures
        drained(
            old(outbox)@,
            None,
            old(writer).attempts(),
            final(outbox)@,
            final(writer).attempts(),
            r,
            max_attempts as nat,
        ),
{
    drain(outbox, None, writer, max_attempts)
}

/// Delivers the entries of a target one after another, at most so many, and pauses after
/// a failure that a later attempt may not meet.
pub fn drain_pending_outbox_for_target<W: IptoWriter + ?Sized>(
    outbox: &mut MetadataOutbox,
    target: &IptoInstanceId,
    writer: &mut W,
    max_attempts: usize,
) -> (r: MetadataOutboxDrainSummary)
    ensures
        drained(
            old(outbox)@,
            Some(target@),
            old(writer).attempts(),
            final(outbox)@,
            final(writer).attempts(),
            r,
            max_attempts as nat,
        ),
{
    drain(outbox, Some(target), writer, max_attempts)
}

// ---------------------------------------------------------------------------
// Laws
// ---------------------------------------------------------------------------

/// Whether an outbox is consistent: every entry stands under the key of its payload, and
/// the queue holds the keys of the pending entries, each once, and no others.
pub open spec fn consistent(o: OutboxView) -> bool {
    &&& o.entries.dom().finite()
    &&& forall|k: Seq<char>| #[trigger] o.entries.contains_key(k) ==> o.entries[k].payload.key == k
    &&& o.pending.no_duplicates()
    &&& forall|i: int| 0 <= i < o.pending.len() ==> waits(o, None, #[trigger] o.pending[i])
    &&& forall|k: Seq<char>| #[trigger] waits(o, None, k) ==> o.pending.contains(k)
}

/// Taking a key out of a list takes out that key and nothing else, and keeps the order.
proof fn lemma_without(keys: Seq<Seq<char>>, key: Seq<char>)
    ensures
        !without(keys, key).contains(key),
        forall|k: Seq<char>| k != key ==> (#[trigger] without(keys, key).contains(k) <==> keys.contains(k)),
        keys.no_duplicates() ==> without(keys, key).no_duplicates(),
    decreases keys.len(),
{
    if keys.len() > 0 {
        let front = keys.drop_last();
        let kept = without(front, key);
        lemma_without(front, key);
        let r = without(keys, key);
        assert forall|k: Seq<char>| k != key implies (#[trigger] r.contains(k) <==> keys.contains(k)) by {
            if keys.contains(k) {
                let i = choose|i: int| 0 <= i < keys.len() && keys[i] == k;
                if i < front.len() {
                    assert(front[i] == k);
                    assert(kept.contains(k));
                    let j = choose|j: int| 0 <= j < kept.len() && kept[j] == k;
                    assert(r[j] == k);
                } else {
                    assert(r.last() == k);
                    assert(r[r.len() - 1] == k);
                }
            }
            if r.contains(k) {
                let j = choose|j: int| 0 <= j < r.len() && r[j] == k;
                if j < kept.len() {
                    assert(kept[j] == k);
                    assert(kept.contains(k));
                    assert(front.contains(k));
                    let i = choose|i: int| 0 <= i < front.len() && front[i] == k;
                    assert(keys[i] == k);
                } else {
                    assert(keys[keys.len() - 1] == k);
                }
            }
        }
        if r.contains(key) {
            let j = choose|j: int| 0 <= j < r.len() && r[j] == key;
            if j < kept.len() {
                assert(kept[j] == key);
            }
        }
        if keys.no_duplicates() {
            assert(front.no_duplicates());
            assert forall|i: int, j: int| 0 <= i < r.len() && 0 <= j < r.len() && i != j implies r[i] != r[j] by {
                if keys.last() != key {
                    let last = keys.last();
                    if kept.contains(last) {
                        assert(front.contains(last));
                        let n = choose|n: int| 0 <= n < front.len() && front[n] == last;
                        assert(keys[n] == keys[keys.len() - 1]);
                    }
                    if i == kept.len() {
                        assert(r[j] == kept[j]);
                        assert(kept.contains(kept[j]));
                    } else if j == kept.len() {
                        assert(r[i] == kept[i]);
                        assert(kept.contains(kept[i]));
                    }
                }
            }
        }
    }
}

/// Every operation keeps an outbox consistent, starting from the empty one: a payload is
/// queued exactly as long as it is pending.
pub proof fn law_queue_holds_what_is_pending(
    o: OutboxView,
    payload: PayloadView,
    record_offset: Option<u64>,
    key: Seq<char>,
    message: Seq<char>,
)
    requires
        consistent(o),
    ensures
        consistent(empty_outbox()),
        consistent(enqueued(o, payload, record_offset)),
        consistent(acknowledged(o, key)),
        consistent(failed(o, key, message)),
        consistent(retried(o, key)),
{
    lemma_enqueued_consistent(o, payload, record_offset);
    lemma_unqueued_consistent(o, acknowledged(o, key), key);
    lemma_unqueued_consistent(o, failed(o, key, message), key);
    lemma_retried_consistent(o, key);
}

proof fn lemma_enqueued_consistent(o: OutboxView, payload: PayloadView, record_offset: Option<u64>)
    requires
        consistent(o),
    ensures
        consistent(enqueued(o, payload, record_offset)),
{
    let n = enqueued(o, payload, record_offset);
    let key = payload.key;
    if !o.entries.contains_key(key) {
        assert forall|i: int| 0 <= i < n.pending.len() implies waits(n, None, #[trigger] n.pending[i]) by {
            if i < o.pending.len() {
                assert(waits(o, None, o.pending[i]));
            }
        }
        assert forall|k: Seq<char>| #[trigger] waits(n, None, k) implies n.pending.contains(k) by {
            if k == key {
                assert(n.pending[o.pending.len() as int] == k);
            } else {
                assert(waits(o, None, k));
                let i = choose|i: int| 0 <= i < o.pending.len() && o.pending[i] == k;
                assert(n.pending[i] == k);
            }
        }
        assert forall|i: int, j: int| 0 <= i < n.pending.len() && 0 <= j < n.pending.len() && i != j implies n.pending[i]
            != n.pending[j] by {
            if i < o.pending.len() {
                assert(waits(o, None, o.pending[i]));
            }
            if j < o.pending.len() {
                assert(waits(o, None, o.pending[j]));
            }
        }
    }
}

proof fn lemma_unqueued_consistent(o: OutboxView, n: OutboxView, key: Seq<char>)
    requires
        consistent(o),
        o.entries.contains_key(key) ==> {
            &&& n.pending == without(o.pending, key)
            &&& n.entries == o.entries.insert(key, n.entries[key])
            &&& n.entries[key].status != OutboxStatus::Pending
            &&& n.entries[key].payload == o.entries[key].payload
        },
        !o.entries.contains_key(key) ==> n == o,
    ensures
        consistent(n),
{
    if o.entries.contains_key(key) {
        lemma_without(o.pending, key);
        assert forall|i: int| 0 <= i < n.pending.len() implies waits(n, None, #[trigger] n.pending[i]) by {
            let k = n.pending[i];
            assert(n.pending.contains(k));
            assert(k != key);
            assert(o.pending.contains(k));
            let j = choose|j: int| 0 <= j < o.pending.len() && o.pending[j] == k;
            assert(waits(o, None, o.pending[j]));
        }
        assert forall|k: Seq<char>| #[trigger] waits(n, None, k) implies n.pending.contains(k) by {
            assert(k != key);
            assert(waits(o, None, k));
        }
    }
}

proof fn lemma_retried_consistent(o: OutboxView, key: Seq<char>)
    requires
        consistent(o),
    ensures
        consistent(retried(o, key)),
{
    let n = retried(o, key);
    if can_retry(o, key) {
        if o.pending.contains(key) {
            let i = choose|i: int| 0 <= i < o.pending.len() && o.pending[i] == key;
            assert(waits(o, None, o.pending[i]));
        }
        assert forall|i: int| 0 <= i < n.pending.len() implies waits(n, None, #[trigger] n.pending[i]) by {
            if i < o.pending.len() {
                assert(waits(o, None, o.pending[i]));
            }
        }
        assert forall|k: Seq<char>| #[trigger] waits(n, None, k) implies n.pending.contains(k) by {
            if k == key {
                assert(n.pending[o.pending.len() as int] == k);
            } else {
                assert(waits(o, None, k));
                let i = choose|i: int| 0 <= i < o.pending.len() && o.pending[i] == k;
                assert(n.pending[i] == k);
            }
        }
        assert forall|i: int, j: int| 0 <= i < n.pending.len() && 0 <= j < n.pending.len() && i != j implies n.pending[i]
            != n.pending[j] by {
            if i < o.pending.len() {
                assert(o.pending.contains(o.pending[i]));
            }
            if j < o.pending.len() {
                assert(o.pending.contains(o.pending[j]));
            }
        }
    }
}

/// Whether the payload of a key, and where it stands in its segment, are kept.
pub open spec fn keeps_payload(o: OutboxView, n: OutboxView, k: Seq<char>) -> bool {
    &&& n.entries.contains_key(k)
    &&& n.entries[k].payload == o.entries[k].payload
    &&& n.entries[k].record_offset == o.entries[k].record_offset
}

/// Nothing is lost: an operation keeps every payload and where it stands in its segment.
pub proof fn law_payloads_are_kept(
    o: OutboxView,
    payload: PayloadView,
    record_offset: Option<u64>,
    key: Seq<char>,
    message: Seq<char>,
    k: Seq<char>,
)
    requires
        o.entries.contains_key(k),
    ensures
        keeps_payload(o, enqueued(o, payload, record_offset), k),
        keeps_payload(o, acknowledged(o, key), k),
        keeps_payload(o, failed(o, key, message), k),
        keeps_payload(o, retried(o, key), k),
{
}

/// Handing over the same payload again changes nothing.
pub proof fn law_enqueue_is_idempotent(
    o: OutboxView,
    payload: PayloadView,
    first: Option<u64>,
    again: PayloadView,
    second: Option<u64>,
)
    requires
        again.key == payload.key,
    ensures
        enqueued(enqueued(o, payload, first), again, second) == enqueued(o, payload, first),
{
}

proof fn lemma_first_waiting(o: OutboxView, target: Option<Seq<char>>, from: int)
    requires
        0 <= from <= o.pending.len(),
    ensures
        match first_waiting(o, target, from) {
            Some(k) => exists|i: int|
                {
                    &&& from <= i < o.pending.len()
                    &&& #[trigger] o.pending[i] == k
                    &&& waits(o, target, k)
                    &&& forall|j: int| from <= j < i ==> !waits(o, target, #[trigger] o.pending[j])
                },
            None => forall|i: int| from <= i < o.pending.len() ==> !waits(o, target, #[trigger] o.pending[i]),
        },
    decreases o.pending.len() - from,
{
    if from < o.pending.len() {
        if waits(o, target, o.pending[from]) {
            assert(o.pending[from] == first_waiting(o, target, from)->0);
        } else {
            lemma_first_waiting(o, target, from + 1);
            if let Some(k) = first_waiting(o, target, from + 1) {
                let i = choose|i: int|
                    {
                        &&& from + 1 <= i < o.pending.len()
                        &&& #[trigger] o.pending[i] == k
                        &&& waits(o, target, k)
                        &&& forall|j: int| from + 1 <= j < i ==> !waits(o, target, #[trigger] o.pending[j])
                    };
                assert(o.pending[i] == k);
            }
        }
    }
}

/// In a consistent outbox something is next for a target exactly when an entry for it is
/// pending, and what is next is such an entry, the one queued longest.
pub proof fn law_next_is_the_longest_pending(o: OutboxView, target: Option<Seq<char>>)
    requires
        consistent(o),
    ensures
        next_entry(o, target) is None <==> forall|k: Seq<char>| !#[trigger] waits(o, target, k),
        next_entry(o, target) matches Some(entry) ==> {
            &&& waits(o, target, entry.payload.key)
            &&& o.entries[entry.payload.key] == entry
            &&& forall|i: int|
                0 <= i < o.pending.index_of(entry.payload.key) ==> !waits(o, target, #[trigger] o.pending[i])
        },
{
    lemma_first_waiting(o, target, 0);
    match first_waiting(o, target, 0) {
        None => {
            assert forall|k: Seq<char>| !#[trigger] waits(o, target, k) by {
                if waits(o, target, k) {
                    assert(waits(o, None, k));
                    let i = choose|i: int| 0 <= i < o.pending.len() && o.pending[i] == k;
                    assert(waits(o, target, o.pending[i]));
                }
            }
        },
        Some(k) => {
            let i = choose|i: int|
                {
                    &&& 0 <= i < o.pending.len()
                    &&& #[trigger] o.pending[i] == k
                    &&& waits(o, target, k)
                    &&& forall|j: int| 0 <= j < i ==> !waits(o, target, #[trigger] o.pending[j])
                };
            assert(o.entries.contains_key(k));
            let at = o.pending.index_of(k);
            assert(o.pending.contains(k));
            assert(o.pending[at] == k);
            assert(at == i);
        },
    }
}

/// An acknowledged or failed write is not delivered again, until a failed one is retried:
/// it is in no queue, and so it is not what is next.
pub proof fn law_settled_is_not_next(o: OutboxView, key: Seq<char>, outcome: Outcome, target: Option<Seq<char>>)
    requires
        consistent(o),
        o.entries.contains_key(key),
    ensures
        ({
            let n = settled(o, key, outcome);
            &&& !n.pending.contains(key)
            &&& next_entry(n, target) matches Some(entry) ==> entry.payload.key != key
            &&& n.entries[key].status == (if outcome is Ok {
                OutboxStatus::Acknowledged
            } else {
                OutboxStatus::Failed
            })
        }),
{
    let n = settled(o, key, outcome);
    lemma_without(o.pending, key);
    match outcome {
        Ok(()) => {
            lemma_unqueued_consistent(o, n, key);
        },
        Err(e) => {
            lemma_unqueued_consistent(o, n, key);
        },
    }
    law_next_is_the_longest_pending(n, target);
}

/// A failed write that is retried waits for delivery again.
pub proof fn law_retry_waits_again(o: OutboxView, key: Seq<char>)
    requires
        consistent(o),
        can_retry(o, key),
    ensures
        waits(retried(o, key), None, key),
        retried(o, key).pending.contains(key),
        retried(o, key).entries[key].retry_count == o.entries[key].retry_count,
        retried(o, key).entries[key].last_error == o.entries[key].last_error,
{
    lemma_retried_consistent(o, key);
    assert(waits(retried(o, key), None, key));
}

/// A drain keeps an outbox consistent.
pub proof fn law_drain_keeps_consistency(o: OutboxView, target: Option<Seq<char>>, attempts: Seq<Attempt>)
    requires
        consistent(o),
    ensures
        consistent(after_attempts(o, target, attempts)),
    decreases attempts.len(),
{
    if attempts.len() > 0 {
        law_drain_keeps_consistency(o, target, attempts.drop_last());
        let before = after_attempts(o, target, attempts.drop_last());
        if let Some(entry) = next_entry(before, target) {
            let key = entry.payload.key;
            lemma_unqueued_consistent(before, settled(before, key, attempts.last().outcome), key);
        }
    }
}

/// A drain for a target leaves the entries of other targets as they are.
pub proof fn law_drain_leaves_other_targets(
    o: OutboxView,
    target: Seq<char>,
    attempts: Seq<Attempt>,
    k: Seq<char>,
)
    requires
        consistent(o),
        o.entries.contains_key(k),
        o.entries[k].payload.target != target,
    ensures
        after_attempts(o, Some(target), attempts).entries.contains_key(k),
        after_attempts(o, Some(target), attempts).entries[k] == o.entries[k],
    decreases attempts.len(),
{
    if attempts.len() > 0 {
        let before = after_attempts(o, Some(target), attempts.drop_last());
        law_drain_leaves_other_targets(o, target, attempts.drop_last(), k);
        law_drain_keeps_consistency(o, Some(target), attempts.drop_last());
        law_next_is_the_longest_pending(before, Some(target));
    }
}

proof fn lemma_counts(entries: Map<Seq<char>, EntryView>, keys: Seq<Seq<char>>)
    ensures
        count_status(entries, keys, OutboxStatus::Pending) + count_status(entries, keys, OutboxStatus::Acknowledged)
            + count_status(entries, keys, OutboxStatus::Failed) == keys.len(),
    decreases keys.len(),
{
    if keys.len() > 0 {
        lemma_counts(entries, keys.drop_last());
    }
}

proof fn lemma_count_is_len(o: OutboxView, keys: Seq<Seq<char>>)
    requires
        keys.no_duplicates(),
    ensures
        keys.to_set().filter(|k: Seq<char>| o.entries[k].status == OutboxStatus::Pending).finite(),
        keys.to_set().filter(|k: Seq<char>| o.entries[k].status == OutboxStatus::Pending).len() == count_status(
            o.entries,
            keys,
            OutboxStatus::Pending,
        ),
    decreases keys.len(),
{
    let wanted = |k: Seq<char>| o.entries[k].status == OutboxStatus::Pending;
    if keys.len() == 0 {
        assert(keys.to_set().filter(wanted) =~= Set::empty());
    } else {
        let front = keys.drop_last();
        let last = keys.last();
        lemma_count_is_len(o, front);
        let s = front.to_set().filter(wanted);
        assert(!front.contains(last));
        assert(keys.to_set() =~= front.to_set().insert(last)) by {
            assert forall|k: Seq<char>| keys.to_set().contains(k) == front.to_set().insert(last).contains(k) by {
                if keys.contains(k) {
                    let i = choose|i: int| 0 <= i < keys.len() && keys[i] == k;
                    if i < front.len() {
                        assert(front[i] == k);
                    }
                }
                if front.contains(k) {
                    let i = choose|i: int| 0 <= i < front.len() && front[i] == k;
                    assert(keys[i] == k);
                }
                assert(keys[keys.len() - 1] == last);
            }
        }
        if wanted(last) {
            assert(keys.to_set().filter(wanted) =~= s.insert(last));
        } else {
            assert(keys.to_set().filter(wanted) =~= s);
        }
    }
}

proof fn lemma_furthest(entries: Map<Seq<char>, EntryView>, keys: Seq<Seq<char>>, target: Seq<char>)
    ensures
        match furthest(entries, keys, target) {
            Some((offset, version)) => {
                &&& settled_up_to(entries, offset)
                &&& exists|i: int|
                    0 <= i < keys.len() && reached(entries[#[trigger] keys[i]], target) == Some(offset)
                        && entries[keys[i]].payload.mapping_version == version
                &&& forall|i: int|
                    0 <= i < keys.len() && reached(entries[#[trigger] keys[i]], target) is Some && settled_up_to(
                        entries,
                        reached(entries[keys[i]], target)->0,
                    ) ==> reached(entries[keys[i]], target)->0 <= offset
            },
            None => forall|i: int|
                0 <= i < keys.len() && reached(entries[#[trigger] keys[i]], target) is Some ==> !settled_up_to(
                    entries,
                    reached(entries[keys[i]], target)->0,
                ),
        },
    decreases keys.len(),
{
    if keys.len() > 0 {
        let front = keys.drop_last();
        lemma_furthest(entries, front, target);
        let last = keys.len() - 1;
        if furthest(entries, keys, target) == furthest(entries, front, target) {
            if furthest(entries, front, target) is Some {
                let (offset, version) = furthest(entries, front, target)->0;
                let i = choose|i: int|
                    0 <= i < front.len() && reached(entries[#[trigger] front[i]], target) == Some(offset)
                        && entries[front[i]].payload.mapping_version == version;
                assert(keys[i] == front[i]);
            }
        } else {
            assert(reached(entries[keys[last]], target) is Some);
        }
        assert forall|i: int| 0 <= i < keys.len() implies i == last || #[trigger] keys[i] == front[i] by {}
    }
}

/// The offset of an acknowledged write to a target.
pub open spec fn reached(e: EntryView, target: Seq<char>) -> Option<u64> {
    if e.status == OutboxStatus::Acknowledged && e.payload.target == target {
        e.record_offset
    } else {
        None
    }
}

/// A checkpoint loses nothing: up to its offset every entry, whatever its target, has been
/// acknowledged. It stands at an acknowledged write to the target, and at the last one of
/// which this holds; there is none only if it holds of none of them.
pub proof fn law_checkpoint_loses_nothing(o: OutboxView, target: Seq<char>)
    requires
        consistent(o),
    ensures
        match furthest(o.entries, outbox_keys(o), target) {
            Some((offset, version)) => {
                &&& settled_up_to(o.entries, offset)
                &&& exists|k: Seq<char>| #[trigger]
                    o.entries.contains_key(k) && reached(o.entries[k], target) == Some(offset)
                        && o.entries[k].payload.mapping_version == version
                &&& forall|k: Seq<char>| #[trigger]
                    o.entries.contains_key(k) && reached(o.entries[k], target) is Some && settled_up_to(
                        o.entries,
                        reached(o.entries[k], target)->0,
                    ) ==> reached(o.entries[k], target)->0 <= offset
            },
            None => forall|k: Seq<char>| #[trigger]
                o.entries.contains_key(k) && reached(o.entries[k], target) is Some ==> !settled_up_to(
                    o.entries,
                    reached(o.entries[k], target)->0,
                ),
        },
{
    let keys = outbox_keys(o);
    lemma_listing_exists::<IdempotencyKey>(o.entries.dom());
    lemma_furthest(o.entries, keys, target);
    assert forall|k: Seq<char>| #[trigger] o.entries.contains_key(k) implies exists|i: int|
        0 <= i < keys.len() && keys[i] == k by {
        assert(o.entries.dom().contains(k));
        assert(keys.contains(k));
    }
    if furthest(o.entries, keys, target) is Some {
        let (offset, version) = furthest(o.entries, keys, target)->0;
        let i = choose|i: int|
            0 <= i < keys.len() && reached(o.entries[#[trigger] keys[i]], target) == Some(offset)
                && o.entries[keys[i]].payload.mapping_version == version;
        assert(o.entries.contains_key(keys[i]));
    }
}

/// The numbers of a snapshot add up, and in a consistent outbox as many keys are queued
/// as entries are pending.
pub proof fn law_snapshot_adds_up(o: OutboxView)
    requires
        consistent(o),
    ensures
        count_status(o.entries, outbox_keys(o), OutboxStatus::Pending) + count_status(
            o.entries,
            outbox_keys(o),
            OutboxStatus::Acknowledged,
        ) + count_status(o.entries, outbox_keys(o), OutboxStatus::Failed) == o.entries.dom().len(),
        count_status(o.entries, outbox_keys(o), OutboxStatus::Pending) == o.pending.len(),
{
    let keys = outbox_keys(o);
    lemma_listing_exists::<IdempotencyKey>(o.entries.dom());
    lemma_listing_len::<IdempotencyKey>(keys, o.entries.dom());
    lemma_counts(o.entries, keys);
    lemma_count_is_len(o, keys);
    let wanted = |k: Seq<char>| o.entries[k].status == OutboxStatus::Pending;
    let s = keys.to_set().filter(wanted);
    assert(s =~= o.pending.to_set()) by {
        assert forall|k: Seq<char>| s.contains(k) == o.pending.to_set().contains(k) by {
            if s.contains(k) {
                assert(keys.contains(k));
                let i = choose|i: int| 0 <= i < keys.len() && keys[i] == k;
                assert(o.entries.dom().contains(keys[i]));
                assert(waits(o, None, k));
            }
            if o.pending.contains(k) {
                let i = choose|i: int| 0 <= i < o.pending.len() && o.pending[i] == k;
                assert(waits(o, None, o.pending[i]));
                assert(o.entries.dom().contains(k));
                assert(keys.contains(k));
            }
        }
    }
    o.pending.unique_seq_to_set();
}

proof fn lemma_without_keeps_order(keys: Seq<Seq<char>>, key: Seq<char>)
    ensures
        keys.no_duplicates() && keys.len() > 0 && keys[0] == key ==> without(keys, key) == keys.skip(1),
        !keys.contains(key) ==> without(keys, key) == keys,
        forall|x: Seq<char>| #[trigger] without(keys, key).contains(x) <==> keys.contains(x) && x != key,
    decreases keys.len(),
{
    if keys.len() > 0 {
        let front = keys.drop_last();
        lemma_without_keeps_order(front, key);
        assert(keys[keys.len() - 1] == keys.last());
        if !keys.contains(key) {
            assert(!front.contains(key)) by {
                if front.contains(key) {
                    let i = choose|i: int| 0 <= i < front.len() && front[i] == key;
                    assert(keys[i] == key);
                }
            }
            assert(without(keys, key) =~= keys);
        }
        if keys.no_duplicates() && keys[0] == key {
            if keys.len() == 1 {
                assert(front =~= Seq::empty());
                assert(without(keys, key) =~= keys.skip(1));
            } else {
                assert(front[0] == key);
                assert(keys.last() != key);
                assert(front.no_duplicates());
                assert(without(keys, key) =~= keys.skip(1));
            }
        }
        let after = without(keys, key);
        let sofar = without(front, key);
        assert forall|x: Seq<char>| #[trigger] after.contains(x) <==> keys.contains(x) && x != key by {
            assert(sofar.contains(x) <==> front.contains(x) && x != key);
            if front.contains(x) {
                let i = choose|i: int| 0 <= i < front.len() && front[i] == x;
                assert(keys[i] == x);
            }
            if keys.contains(x) && x != keys.last() {
                let i = choose|i: int| 0 <= i < keys.len() && keys[i] == x;
                assert(front[i] == x);
            }
            if keys.last() != key {
                if sofar.contains(x) {
                    let i = choose|i: int| 0 <= i < sofar.len() && sofar[i] == x;
                    assert(after[i] == x);
                }
                if x == keys.last() {
                    assert(after[after.len() - 1] == x);
                }
                if after.contains(x) && x != keys.last() {
                    let i = choose|i: int| 0 <= i < after.len() && after[i] == x;
                    assert(sofar[i] == x);
                }
            }
        }
    }
}

/// A payload whose key is new is pending, waits behind all others, has not been tried, and
/// remembers where it stands in the log; a payload whose key is known changes nothing. No
/// other entry is touched.
pub proof fn law_enqueued_payloads_wait(o: OutboxView, payload: PayloadView, record_offset: Option<u64>)
    ensures
        o.entries.contains_key(payload.key) ==> enqueued(o, payload, record_offset) == o,
        !o.entries.contains_key(payload.key) ==> {
            let after = enqueued(o, payload, record_offset);
            let entry = after.entries[payload.key];
            &&& after.entries.contains_key(payload.key)
            &&& entry.payload == payload && entry.status == OutboxStatus::Pending && entry.record_offset
                == record_offset && entry.retry_count == 0 && entry.last_error is None
            &&& after.pending == o.pending.push(payload.key)
            &&& forall|k: Seq<char>|
                k != payload.key ==> #[trigger] after.entries.contains_key(k) == o.entries.contains_key(k)
                    && after.entries[k] == o.entries[k]
        },
{
}

/// An entry that is acknowledged is that, keeps its payload, its place, its retries and its
/// last error, and waits no longer; no other entry is touched.
pub proof fn law_acknowledged_entries(o: OutboxView, key: Seq<char>)
    ensures
        !o.entries.contains_key(key) ==> acknowledged(o, key) == o,
        o.entries.contains_key(key) ==> {
            let after = acknowledged(o, key);
            &&& after.entries.contains_key(key)
            &&& after.entries[key].status == OutboxStatus::Acknowledged
            &&& after.entries[key].payload == o.entries[key].payload
            &&& after.entries[key].record_offset == o.entries[key].record_offset
            &&& after.entries[key].retry_count == o.entries[key].retry_count
            &&& after.entries[key].last_error == o.entries[key].last_error
            &&& forall|x: Seq<char>| #[trigger] after.pending.contains(x) <==> o.pending.contains(x) && x != key
            &&& o.pending.no_duplicates() && o.pending.len() > 0 && o.pending[0] == key ==> after.pending
                == o.pending.skip(1)
            &&& forall|k: Seq<char>|
                k != key ==> #[trigger] after.entries.contains_key(k) == o.entries.contains_key(k) && after.entries[k]
                    == o.entries[k]
        },
{
    lemma_without_keeps_order(o.pending, key);
}

/// An entry that failed is that, has one more retry on its count and the message as its last
/// error, keeps its payload and its place, and waits no longer; no other entry is touched.
pub proof fn law_failed_entries(o: OutboxView, key: Seq<char>, message: Seq<char>)
    ensures
        !o.entries.contains_key(key) ==> failed(o, key, message) == o,
        o.entries.contains_key(key) ==> {
            let after = failed(o, key, message);
            &&& after.entries.contains_key(key)
            &&& after.entries[key].status == OutboxStatus::Failed
            &&& after.entries[key].payload == o.entries[key].payload
            &&& after.entries[key].record_offset == o.entries[key].record_offset
            &&& o.entries[key].retry_count < u32::MAX ==> after.entries[key].retry_count == o.entries[key].retry_count + 1
            &&& o.entries[key].retry_count == u32::MAX ==> after.entries[key].retry_count == u32::MAX
            &&& after.entries[key].last_error == Some(message)
            &&& forall|x: Seq<char>| #[trigger] after.pending.contains(x) <==> o.pending.contains(x) && x != key
            &&& o.pending.no_duplicates() && o.pending.len() > 0 && o.pending[0] == key ==> after.pending
                == o.pending.skip(1)
            &&& forall|k: Seq<char>|
                k != key ==> #[trigger] after.entries.contains_key(k) == o.entries.contains_key(k) && after.entries[k]
                    == o.entries[k]
        },
{
    lemma_without_keeps_order(o.pending, key);
}

/// Only an entry that failed is retried: it is pending again, behind all others, with its
/// count of retries and its last error as they were. Anything else changes nothing.
pub proof fn law_only_failures_are_retried(o: OutboxView, key: Seq<char>)
    ensures
        !(o.entries.contains_key(key) && o.entries[key].status == OutboxStatus::Failed) ==> retried(o, key) == o
            && !can_retry(o, key),
        o.entries.contains_key(key) && o.entries[key].status == OutboxStatus::Failed ==> {
            let after = retried(o, key);
            &&& can_retry(o, key)
            &&& after.entries.contains_key(key)
            &&& after.entries[key].status == OutboxStatus::Pending
            &&& after.entries[key].payload == o.entries[key].payload
            &&& after.entries[key].record_offset == o.entries[key].record_offset
            &&& after.entries[key].retry_count == o.entries[key].retry_count
            &&& after.entries[key].last_error == o.entries[key].last_error
            &&& !o.pending.contains(key) ==> after.pending == o.pending.push(key)
            &&& forall|k: Seq<char>|
                k != key ==> #[trigger] after.entries.contains_key(k) == o.entries.contains_key(k) && after.entries[k]
                    == o.entries[k]
        },
{
}

/// The next entry for a target is the one of its pending entries that has waited longest;
/// without a target, of all pending entries. There is none exactly if no entry of the target
/// is pending.
pub proof fn law_next_in_turn(o: OutboxView, target: Option<Seq<char>>)
    requires
        consistent(o),
    ensures
        next_entry(o, target) is None <==> forall|k: Seq<char>| #[trigger]
            o.entries.contains_key(k) && o.entries[k].status == OutboxStatus::Pending ==> target is Some
                && o.entries[k].payload.target != target->0,
        next_entry(o, target) matches Some(entry) ==> {
            &&& o.entries.contains_pair(entry.payload.key, entry)
            &&& entry.status == OutboxStatus::Pending
            &&& target is Some ==> entry.payload.target == target->0
            &&& exists|i: int|
                {
                    &&& 0 <= i < o.pending.len()
                    &&& #[trigger] o.pending[i] == entry.payload.key
                    &&& forall|j: int|
                        0 <= j < i ==> target is Some && o.entries[#[trigger] o.pending[j]].payload.target != target->0
                }
        },
        target is None && o.pending.len() > 0 ==> next_entry(o, target) == Some(o.entries[o.pending[0]]),
{
    law_next_is_the_longest_pending(o, target);
    if next_entry(o, target) is None {
        assert forall|k: Seq<char>| #[trigger]
            o.entries.contains_key(k) && o.entries[k].status == OutboxStatus::Pending implies target is Some
            && o.entries[k].payload.target != target->0 by {
            assert(!waits(o, target, k));
        }
    } else {
        let entry = next_entry(o, target)->0;
        let key = entry.payload.key;
        let at = o.pending.index_of(key);
        assert(waits(o, None, key));
        assert(o.pending.contains(key));
        assert(o.pending[at] == key);
        assert forall|j: int| 0 <= j < at implies target is Some && o.entries[#[trigger] o.pending[j]].payload.target
            != target->0 by {
            assert(!waits(o, target, o.pending[j]));
            assert(waits(o, None, o.pending[j]));
        }
        if target is None && o.pending.len() > 0 {
            if at > 0 {
                assert(!waits(o, target, o.pending[0]));
                assert(waits(o, None, o.pending[0]));
            }
        }
    }
    if target is None && o.pending.len() > 0 {
        assert(waits(o, None, o.pending[0]));
    }
}

/// A payload that was written is acknowledged; one that was not has failed with what the
/// writer said, and that is what is reported.
pub proof fn law_attempts_are_settled(o: OutboxView, key: Seq<char>, outcome: Outcome)
    requires
        o.entries.contains_key(key),
    ensures
        outcome is Ok ==> settled(o, key, outcome).entries[key].status == OutboxStatus::Acknowledged && delivery(
            key,
            outcome,
        ) == DeliveryView::Acknowledged(key),
        outcome matches Err(e) ==> settled(o, key, outcome).entries[key].status == OutboxStatus::Failed && settled(
            o,
            key,
            outcome,
        ).entries[key].last_error == Some(e.message) && delivery(key, outcome) == DeliveryView::Failed(key, e),
        forall|k: Seq<char>|
            k != key ==> #[trigger] settled(o, key, outcome).entries.contains_key(k) == o.entries.contains_key(k)
                && settled(o, key, outcome).entries[k] == o.entries[k],
{
    if outcome is Ok {
        law_acknowledged_entries(o, key);
    } else {
        law_failed_entries(o, key, outcome->Err_0.message);
    }
}

/// A delivery hands the payload of the next entry to the writer, once, and settles that entry
/// by what came of it; where nothing waits, nothing is written and nothing changes.
pub proof fn law_one_delivery(
    o: OutboxView,
    target: Option<Seq<char>>,
    before: Seq<Attempt>,
    after_o: OutboxView,
    after: Seq<Attempt>,
    r: DeliveryView,
)
    requires
        consistent(o),
        delivered(o, target, before, after_o, after, r),
    ensures
        next_entry(o, target) is None ==> r == DeliveryView::NoPending && after == before && after_o == o,
        next_entry(o, target) matches Some(entry) ==> {
            &&& after.len() == before.len() + 1
            &&& after.drop_last() == before
            &&& after.last().payload == entry.payload
            &&& after.last().outcome is Ok ==> r == DeliveryView::Acknowledged(entry.payload.key)
                && after_o.entries[entry.payload.key].status == OutboxStatus::Acknowledged
            &&& after.last().outcome matches Err(e) ==> r == DeliveryView::Failed(entry.payload.key, e)
                && after_o.entries[entry.payload.key].status == OutboxStatus::Failed
                && after_o.entries[entry.payload.key].last_error == Some(e.message)
        },
{
    law_next_in_turn(o, target);
    if next_entry(o, target) is Some {
        let entry = next_entry(o, target)->0;
        law_attempts_are_settled(o, entry.payload.key, after.last().outcome);
        assert(after.drop_last() =~= before);
    }
}

/// A drain makes no more attempts than it may, each with the entry that is then next, and
/// counts them: those that succeeded, those that failed, and whether it stopped because the
/// last one is to be tried again later. It stops at such a failure and at no other; where it
/// neither stopped nor reached its limit, nothing waits any more.
pub proof fn law_drains_are_reported(
    o: OutboxView,
    target: Option<Seq<char>>,
    before: Seq<Attempt>,
    after_o: OutboxView,
    after: Seq<Attempt>,
    s: MetadataOutboxDrainSummary,
    max_attempts: nat,
)
    requires
        consistent(o),
        drained(o, target, before, after_o, after, s, max_attempts),
    ensures
        before.is_prefix_of(after),
        s.attempted == after.len() - before.len() && s.attempted <= max_attempts,
        s.acknowledged + s.failed == s.attempted,
        forall|i: int|
            before.len() <= i < after.len() - 1 ==> !((#[trigger] after[i]).outcome is Err
                && after[i].outcome->Err_0.retryable),
        s.stopped_after_failure <==> s.attempted > 0 && after.last().outcome is Err
            && after.last().outcome->Err_0.retryable,
        !s.stopped_after_failure && s.attempted < max_attempts ==> next_entry(after_o, target) is None,
        s.acknowledged == s.attempted <==> forall|i: int|
            before.len() <= i < after.len() ==> (#[trigger] after[i]).outcome is Ok,
        s.attempted > 0 ==> (next_entry(o, target) matches Some(first) && after[before.len() as int].payload
            == first.payload),
        max_attempts > 0 && next_entry(o, target) is Some ==> s.attempted > 0,
{
    let made = new_attempts(before, after);
    assert(after.skip(before.len() as int) =~= made);
    assert forall|i: int| before.len() <= i < after.len() - 1 implies !((#[trigger] after[i]).outcome is Err
        && after[i].outcome->Err_0.retryable) by {
        assert(made[i - before.len()] == after[i]);
        assert(!backs_off(made[i - before.len()]));
    }
    lemma_successes(made);
    if made.len() > 0 {
        assert(made.last() == after.last());
        assert(made[0] == after[before.len() as int]);
        assert(made.take(0) =~= Seq::<Attempt>::empty());
        assert(after_attempts(o, target, made.take(0)) == o);
    }
    assert((forall|i: int| before.len() <= i < after.len() ==> (#[trigger] after[i]).outcome is Ok) <==> (forall|
        i: int,
    |
        0 <= i < made.len() ==> (#[trigger] made[i]).outcome is Ok)) by {
        if forall|i: int| before.len() <= i < after.len() ==> (#[trigger] after[i]).outcome is Ok {
            assert forall|i: int| 0 <= i < made.len() implies (#[trigger] made[i]).outcome is Ok by {
                assert(after[i + before.len()] == made[i]);
            }
        }
        if forall|i: int| 0 <= i < made.len() ==> (#[trigger] made[i]).outcome is Ok {
            assert forall|i: int| before.len() <= i < after.len() implies (#[trigger] after[i]).outcome is Ok by {
                assert(after[i] == made[i - before.len()]);
            }
        }
    }
}

proof fn lemma_successes(attempts: Seq<Attempt>)
    ensures
        successes(attempts) <= attempts.len(),
        successes(attempts) == attempts.len() <==> forall|i: int|
            0 <= i < attempts.len() ==> (#[trigger] attempts[i]).outcome is Ok,
    decreases attempts.len(),
{
    if attempts.len() > 0 {
        let front = attempts.drop_last();
        lemma_successes(front);
        assert(attempts[attempts.len() - 1] == attempts.last());
        if forall|i: int| 0 <= i < attempts.len() ==> (#[trigger] attempts[i]).outcome is Ok {
            assert forall|i: int| 0 <= i < front.len() implies (#[trigger] front[i]).outcome is Ok by {
                assert(front[i] == attempts[i]);
            }
        }
        if successes(attempts) == attempts.len() {
            assert forall|i: int| 0 <= i < attempts.len() implies (#[trigger] attempts[i]).outcome is Ok by {
                if i < front.len() {
                    assert(attempts[i] == front[i]);
                }
            }
        }
    }
}

/// The checkpoint of a target is the greatest place up to and at which every entry of the
/// outbox is acknowledged and at which an entry of the target stands.
pub proof fn law_checkpoint_is_the_furthest(o: OutboxView, target: Seq<char>, k: Seq<char>)
    requires
        consistent(o),
    ensures
        furthest(o.entries, outbox_keys(o), target) matches Some((offset, version)) ==> {
            &&& o.entries.contains_key(k) && o.entries[k].record_offset is Some && o.entries[k].record_offset->0
                <= offset ==> o.entries[k].status == OutboxStatus::Acknowledged
            &&& exists|x: Seq<char>| #[trigger]
                o.entries.contains_key(x) && o.entries[x].record_offset == Some(offset) && o.entries[x].payload.target
                    == target && o.entries[x].payload.mapping_version == version
        },
        o.entries.contains_key(k) && o.entries[k].payload.target == target && o.entries[k].record_offset is Some && (
        forall|x: Seq<char>| #[trigger]
            o.entries.contains_key(x) && o.entries[x].record_offset is Some && o.entries[x].record_offset->0
                <= o.entries[k].record_offset->0 ==> o.entries[x].status == OutboxStatus::Acknowledged) ==> (furthest(
            o.entries,
            outbox_keys(o),
            target,
        ) matches Some((offset, _)) && o.entries[k].record_offset->0 <= offset),
{
    law_checkpoint_loses_nothing(o, target);
    match furthest(o.entries, outbox_keys(o), target) {
        Some((offset, version)) => {
            let x = choose|x: Seq<char>| #[trigger]
                o.entries.contains_key(x) && reached(o.entries[x], target) == Some(offset)
                    && o.entries[x].payload.mapping_version == version;
            assert(o.entries.contains_key(x) && o.entries[x].record_offset == Some(offset));
        },
        None => {},
    }
    if o.entries.contains_key(k) && o.entries[k].payload.target == target && o.entries[k].record_offset is Some && (
    forall|x: Seq<char>| #[trigger]
        o.entries.contains_key(x) && o.entries[x].record_offset is Some && o.entries[x].record_offset->0
            <= o.entries[k].record_offset->0 ==> o.entries[x].status == OutboxStatus::Acknowledged) {
        assert(settled_up_to(o.entries, o.entries[k].record_offset->0));
        assert(reached(o.entries[k], target) == o.entries[k].record_offset);
    }
}

} // verus!
