//! Execution coordinator: admission control, deduplication, timeout
//! enforcement and result bookkeeping.
//!
//! The coordinator owns the set of in-flight execution slots and the bounded
//! set of already-seen task identifiers. `admit_task` decides, in one step,
//! what happens to a delivered task announcement: already seen, node busy,
//! or admitted into a fresh slot. Timeouts are enforced in two phases: an
//! expired slot is first signalled to cancel, and after a grace period it is
//! force-abandoned and a timeout failure is recorded; a late completion of
//! an abandoned task is discarded, so at most one result is ever recorded
//! per task identifier.
//!
//! Every mutating operation is specified as a function over the
//! coordinator's mathematical model (`CoordModel`), and the laws about
//! deduplication, the concurrency bound and timeout exclusivity are proved
//! over that model.

use vstd::prelude::*;

verus! {

/// A deduplication record: a task identifier and when it was first seen.
#[derive(Clone, Copy, PartialEq, Eq, Structural, Debug)]
pub struct SeenEntry {
    pub task_id: u64,
    pub inserted_at: u64,
}

/// Bookkeeping for one in-flight task execution.
#[derive(Clone, Copy, PartialEq, Eq, Structural, Debug)]
pub struct ExecutionSlot {
    pub task_id: u64,
    /// The requester's deadline.
    pub deadline: u64,
    pub started_at: u64,
    /// Whether cancellation has been signalled to this slot.
    pub cancel_requested: bool,
    /// Once cancellation is signalled: when the slot is force-abandoned.
    pub abandon_at: u64,
}

/// Counters exposed through the metrics registry.
#[derive(Clone, Copy, PartialEq, Eq, Structural, Debug)]
pub struct Metrics {
    pub admitted: u64,
    pub deduplicated: u64,
    pub rejected_busy: u64,
    pub succeeded: u64,
    pub failed: u64,
    pub timed_out: u64,
}

/// The coordinator's admission verdict for a delivered task announcement.
#[derive(Clone, Copy, PartialEq, Eq, Structural, Debug)]
pub enum AdmitOutcome {
    /// A fresh slot was created and the task is handed to a worker.
    Admitted,
    /// The task identifier was already seen; not an error.
    Deduplicated,
    /// All slots are occupied; the announcement is not taken.
    RejectedBusy,
}

/// Mathematical model of the coordinator.
#[verifier::ext_equal]
pub ghost struct CoordModel {
    pub seen: Seq<SeenEntry>,
    pub slots: Seq<ExecutionSlot>,
    /// Task identifiers for which a result has been recorded for
    /// publication, in order.
    pub published: Seq<u64>,
    pub limit: usize,
    pub retention: u64,
    pub max_duration: u64,
    pub grace: u64,
    pub metrics: Metrics,
}

/// `x + 1`, saturating at the top of the counter range.
pub open spec fn bump1(x: u64) -> u64 {
    if x == u64::MAX {
        x
    } else {
        (x + 1) as u64
    }
}

/// `a + b`, saturating at the top of the range.
pub open spec fn sat_add64(a: u64, b: u64) -> u64 {
    if a + b > u64::MAX {
        u64::MAX
    } else {
        (a + b) as u64
    }
}

/// The identifiers of the in-flight slots, in slot order.
pub open spec fn slot_ids(slots: Seq<ExecutionSlot>) -> Seq<u64> {
    slots.map_values(|s: ExecutionSlot| s.task_id)
}

/// No identifier occurs twice.
pub open spec fn unique64(s: Seq<u64>) -> bool {
    forall|i: int, j: int| 0 <= i < j < s.len() ==> s[i] != s[j]
}

/// No deduplication record's identifier occurs twice.
pub open spec fn unique_entry_ids(s: Seq<SeenEntry>) -> bool {
    forall|i: int, j: int| 0 <= i < j < s.len() ==> s[i].task_id != s[j].task_id
}

/// Some deduplication record carries this identifier.
pub open spec fn seen_has_id(s: Seq<SeenEntry>, id: u64) -> bool {
    exists|i: int| 0 <= i < s.len() && s[i].task_id == id
}

/// A deduplication record is kept while it is within the retention window
/// or its task is still in flight.
pub open spec fn keep_entry(e: SeenEntry, now: u64, retention: u64, active: Seq<u64>) -> bool {
    e.inserted_at + retention >= now || active.contains(e.task_id)
}

/// The deduplication records left after lazy eviction at time `now`.
pub open spec fn pruned_seen(s: Seq<SeenEntry>, now: u64, retention: u64, active: Seq<u64>) -> Seq<
    SeenEntry,
>
    decreases s.len(),
{
    if s.len() == 0 {
        Seq::empty()
    } else if keep_entry(s[0], now, retention, active) {
        seq![s[0]] + pruned_seen(s.subrange(1, s.len() as int), now, retention, active)
    } else {
        pruned_seen(s.subrange(1, s.len() as int), now, retention, active)
    }
}

/// Eviction keeps exactly the records that are fresh or in flight.
pub proof fn lemma_pruned_contains(s: Seq<SeenEntry>, now: u64, retention: u64, active: Seq<u64>)
    ensures
        forall|e: SeenEntry| #[trigger]
            pruned_seen(s, now, retention, active).contains(e) <==> (s.contains(e) && keep_entry(
                e,
                now,
                retention,
                active,
            )),
    decreases s.len(),
{
    if s.len() == 0 {
    } else {
        let rest = s.subrange(1, s.len() as int);
        lemma_pruned_contains(rest, now, retention, active);
        let pr = pruned_seen(s, now, retention, active);
        assert forall|e: SeenEntry| #[trigger]
            pr.contains(e) <==> (s.contains(e) && keep_entry(e, now, retention, active)) by {
            if pr.contains(e) {
                if keep_entry(s[0], now, retention, active) {
                    let i = choose|i: int| 0 <= i < pr.len() && pr[i] == e;
                    if i == 0 {
                        assert(s[0] == e);
                        assert(s.contains(e));
                    } else {
                        assert(pruned_seen(rest, now, retention, active)[i - 1] == e);
                        assert(pruned_seen(rest, now, retention, active).contains(e));
                        let j = choose|j: int| 0 <= j < rest.len() && rest[j] == e;
                        assert(s[j + 1] == e);
                        assert(s.contains(e));
                    }
                } else {
                    assert(pruned_seen(rest, now, retention, active).contains(e));
                    let j = choose|j: int| 0 <= j < rest.len() && rest[j] == e;
                    assert(s[j + 1] == e);
                    assert(s.contains(e));
                }
            }
            if s.contains(e) && keep_entry(e, now, retention, active) {
                let i = choose|i: int| 0 <= i < s.len() && s[i] == e;
                if i == 0 {
                    assert(keep_entry(s[0], now, retention, active));
                    assert(pr[0] == e);
                    assert(pr.contains(e));
                } else {
                    assert(rest[i - 1] == e);
                    assert(rest.contains(e));
                    let prr = pruned_seen(rest, now, retention, active);
                    assert(prr.contains(e));
                    let j = choose|j: int| 0 <= j < prr.len() && prr[j] == e;
                    if keep_entry(s[0], now, retention, active) {
                        assert(pr[j + 1] == e);
                        assert(pr.contains(e));
                    } else {
                        assert(pr.contains(e));
                    }
                }
            }
        }
    }
}

/// Eviction never duplicates a record's identifier.
pub proof fn lemma_pruned_unique(s: Seq<SeenEntry>, now: u64, retention: u64, active: Seq<u64>)
    requires
        unique_entry_ids(s),
    ensures
        unique_entry_ids(pruned_seen(s, now, retention, active)),
    decreases s.len(),
{
    if s.len() == 0 {
    } else {
        let rest = s.subrange(1, s.len() as int);
        assert(unique_entry_ids(rest)) by {
            assert(forall|i: int, j: int|
                0 <= i < j < rest.len() ==> rest[i] == s[i + 1] && rest[j] == s[j + 1]);
        }
        lemma_pruned_unique(rest, now, retention, active);
        lemma_pruned_contains(rest, now, retention, active);
        let pr = pruned_seen(s, now, retention, active);
        let prr = pruned_seen(rest, now, retention, active);
        if keep_entry(s[0], now, retention, active) {
            assert forall|i: int, j: int| 0 <= i < j < pr.len() implies pr[i].task_id
                != pr[j].task_id by {
                if i == 0 {
                    let e = prr[j - 1];
                    assert(prr.contains(e));
                    assert(rest.contains(e));
                    let k = choose|k: int| 0 <= k < rest.len() && rest[k] == e;
                    assert(s[k + 1] == e);
                    assert(s[0].task_id != s[k + 1].task_id);
                } else {
                    assert(pr[i] == prr[i - 1] && pr[j] == prr[j - 1]);
                }
            }
        }
    }
}

/// The coordinator's invariant: deduplication records and in-flight slots
/// carry pairwise distinct identifiers, and every in-flight slot is covered
/// by a deduplication record, so a running task can never be admitted again.
impl CoordModel {
    pub open spec fn wf(self) -> bool {
        &&& unique_entry_ids(self.seen)
        &&& unique64(slot_ids(self.slots))
        &&& forall|i: int|
            0 <= i < self.slots.len() ==> seen_has_id(self.seen, self.slots[i].task_id)
    }

    /// Whether a task is in flight.
    pub open spec fn has_slot(self, id: u64) -> bool {
        slot_ids(self.slots).contains(id)
    }

    /// Whether a deduplication record for `id` would survive lazy eviction
    /// at time `now`: the record is within the retention window or the task
    /// is still in flight.
    pub open spec fn is_seen_live(self, id: u64, now: u64) -> bool {
        exists|i: int|
            0 <= i < self.seen.len() && self.seen[i].task_id == id && keep_entry(
                self.seen[i],
                now,
                self.retention,
                slot_ids(self.slots),
            )
    }
}

/// The admission step over the model: evict stale deduplication records,
/// then report a duplicate, a full node, or admit into a fresh slot.
pub open spec fn admit_model(m: CoordModel, task_id: u64, deadline: u64, now: u64) -> (
    CoordModel,
    AdmitOutcome,
) {
    let seen1 = pruned_seen(m.seen, now, m.retention, slot_ids(m.slots));
    if seen_has_id(seen1, task_id) {
        (
            CoordModel {
                seen: seen1,
                metrics: Metrics { deduplicated: bump1(m.metrics.deduplicated), ..m.metrics },
                ..m
            },
            AdmitOutcome::Deduplicated,
        )
    } else if m.slots.len() >= m.limit {
        (
            CoordModel {
                seen: seen1,
                metrics: Metrics { rejected_busy: bump1(m.metrics.rejected_busy), ..m.metrics },
                ..m
            },
            AdmitOutcome::RejectedBusy,
        )
    } else {
        (
            CoordModel {
                seen: seen1.push(SeenEntry { task_id, inserted_at: now }),
                slots: m.slots.push(
                    ExecutionSlot {
                        task_id,
                        deadline,
                        started_at: now,
                        cancel_requested: false,
                        abandon_at: 0,
                    },
                ),
                metrics: Metrics { admitted: bump1(m.metrics.admitted), ..m.metrics },
                ..m
            },
            AdmitOutcome::Admitted,
        )
    }
}

/// After eviction, a record for `id` survives exactly when `id` is live.
pub proof fn lemma_pruned_has_iff_live(m: CoordModel, id: u64, now: u64)
    ensures
        seen_has_id(pruned_seen(m.seen, now, m.retention, slot_ids(m.slots)), id)
            <==> m.is_seen_live(id, now),
{
    let active = slot_ids(m.slots);
    let pr = pruned_seen(m.seen, now, m.retention, active);
    lemma_pruned_contains(m.seen, now, m.retention, active);
    if seen_has_id(pr, id) {
        let i = choose|i: int| 0 <= i < pr.len() && pr[i].task_id == id;
        let e = pr[i];
        assert(pr.contains(e));
        assert(m.seen.contains(e) && keep_entry(e, now, m.retention, active));
        let j = choose|j: int| 0 <= j < m.seen.len() && m.seen[j] == e;
        assert(m.is_seen_live(id, now));
    }
    if m.is_seen_live(id, now) {
        let i = choose|i: int|
            0 <= i < m.seen.len() && m.seen[i].task_id == id && keep_entry(
                m.seen[i],
                now,
                m.retention,
                active,
            );
        let e = m.seen[i];
        assert(m.seen.contains(e));
        assert(pr.contains(e));
        let j = choose|j: int| 0 <= j < pr.len() && pr[j] == e;
        assert(seen_has_id(pr, id));
    }
}

/// Admission preserves the coordinator invariant, and its verdict is
/// exactly determined by liveness of the identifier and free capacity.
pub proof fn lemma_admit_model_ok(m: CoordModel, task_id: u64, deadline: u64, now: u64)
    requires
        m.wf(),
    ensures
        admit_model(m, task_id, deadline, now).0.wf(),
        admit_model(m, task_id, deadline, now).1 == AdmitOutcome::Deduplicated <==> m.is_seen_live(
            task_id,
            now,
        ),
        admit_model(m, task_id, deadline, now).1 == AdmitOutcome::RejectedBusy <==> (
        !m.is_seen_live(task_id, now) && m.slots.len() >= m.limit),
        admit_model(m, task_id, deadline, now).1 == AdmitOutcome::Admitted <==> (!m.is_seen_live(
            task_id,
            now,
        ) && m.slots.len() < m.limit),
        admit_model(m, task_id, deadline, now).0.limit == m.limit,
        admit_model(m, task_id, deadline, now).0.retention == m.retention,
        admit_model(m, task_id, deadline, now).0.max_duration == m.max_duration,
        admit_model(m, task_id, deadline, now).0.grace == m.grace,
        admit_model(m, task_id, deadline, now).0.published == m.published,
        admit_model(m, task_id, deadline, now).1 == AdmitOutcome::Admitted ==> admit_model(
            m,
            task_id,
            deadline,
            now,
        ).0.slots == m.slots.push(
            ExecutionSlot {
                task_id,
                deadline,
                started_at: now,
                cancel_requested: false,
                abandon_at: 0,
            },
        ),
        admit_model(m, task_id, deadline, now).1 != AdmitOutcome::Admitted ==> admit_model(
            m,
            task_id,
            deadline,
            now,
        ).0.slots == m.slots,
{
    let active = slot_ids(m.slots);
    let pr = pruned_seen(m.seen, now, m.retention, active);
    lemma_pruned_contains(m.seen, now, m.retention, active);
    lemma_pruned_unique(m.seen, now, m.retention, active);
    lemma_pruned_has_iff_live(m, task_id, now);
    let (m2, out) = admit_model(m, task_id, deadline, now);
    // every slot keeps a deduplication record through eviction
    assert forall|i: int| 0 <= i < m.slots.len() implies seen_has_id(pr, m.slots[i].task_id) by {
        let id = m.slots[i].task_id;
        let j = choose|j: int| 0 <= j < m.seen.len() && m.seen[j].task_id == id;
        let e = m.seen[j];
        assert(active[i] == id);
        assert(active.contains(id));
        assert(keep_entry(e, now, m.retention, active));
        assert(m.seen.contains(e));
        assert(pr.contains(e));
        let k = choose|k: int| 0 <= k < pr.len() && pr[k] == e;
        assert(seen_has_id(pr, id));
    }
    if out == AdmitOutcome::Admitted {
        let entry = SeenEntry { task_id, inserted_at: now };
        let slot = ExecutionSlot {
            task_id,
            deadline,
            started_at: now,
            cancel_requested: false,
            abandon_at: 0,
        };
        assert(unique_entry_ids(pr.push(entry))) by {
            assert forall|i: int, j: int| 0 <= i < j < pr.push(entry).len() implies pr.push(
                entry,
            )[i].task_id != pr.push(entry)[j].task_id by {
                if j == pr.len() {
                    assert(pr.push(entry)[i] == pr[i]);
                    if pr[i].task_id == task_id {
                        assert(seen_has_id(pr, task_id));
                    }
                } else {
                    assert(pr.push(entry)[i] == pr[i] && pr.push(entry)[j] == pr[j]);
                }
            }
        }
        assert(unique64(slot_ids(m2.slots))) by {
            let ids2 = slot_ids(m.slots.push(slot));
            assert forall|i: int, j: int| 0 <= i < j < ids2.len() implies ids2[i] != ids2[j] by {
                assert(ids2[i] == m.slots.push(slot)[i].task_id);
                assert(ids2[j] == m.slots.push(slot)[j].task_id);
                if j == m.slots.len() {
                    if m.slots[i].task_id == task_id {
                        assert(seen_has_id(m.seen, task_id));
                        let k = choose|k: int|
                            0 <= k < m.seen.len() && m.seen[k].task_id == task_id;
                        assert(active[i] == task_id);
                        assert(active.contains(task_id));
                        assert(keep_entry(m.seen[k], now, m.retention, active));
                        assert(m.is_seen_live(task_id, now));
                    }
                } else {
                    assert(slot_ids(m.slots)[i] == m.slots[i].task_id);
                    assert(slot_ids(m.slots)[j] == m.slots[j].task_id);
                }
            }
        }
        assert forall|i: int| 0 <= i < m2.slots.len() implies seen_has_id(
            m2.seen,
            m2.slots[i].task_id,
        ) by {
            if i < m.slots.len() {
                assert(m2.slots[i] == m.slots[i]);
                let k = choose|k: int| 0 <= k < pr.len() && pr[k].task_id == m.slots[i].task_id;
                assert(pr.push(entry)[k].task_id == m.slots[i].task_id);
            } else {
                assert(m2.slots[i] == slot);
                assert(pr.push(entry)[pr.len() as int].task_id == task_id);
            }
        }
    } else {
        assert forall|i: int| 0 <= i < m2.slots.len() implies seen_has_id(
            m2.seen,
            m2.slots[i].task_id,
        ) by {
            assert(m2.slots[i] == m.slots[i]);
            assert(seen_has_id(pr, m.slots[i].task_id));
        }
    }
}

/// The in-flight slots with every slot for `id` removed.
pub open spec fn remove_slot(slots: Seq<ExecutionSlot>, id: u64) -> Seq<ExecutionSlot>
    decreases slots.len(),
{
    if slots.len() == 0 {
        Seq::empty()
    } else if slots[0].task_id == id {
        remove_slot(slots.subrange(1, slots.len() as int), id)
    } else {
        seq![slots[0]] + remove_slot(slots.subrange(1, slots.len() as int), id)
    }
}

/// Removing an absent identifier changes nothing.
pub proof fn lemma_remove_slot_absent(slots: Seq<ExecutionSlot>, id: u64)
    requires
        forall|i: int| 0 <= i < slots.len() ==> slots[i].task_id != id,
    ensures
        remove_slot(slots, id) == slots,
    decreases slots.len(),
{
    if slots.len() == 0 {
        assert(remove_slot(slots, id) =~= slots);
    } else {
        let rest = slots.subrange(1, slots.len() as int);
        lemma_remove_slot_absent(rest, id);
        assert(remove_slot(slots, id) =~= slots);
    }
}

/// With unique identifiers, removal takes out exactly the slot at `idx`.
pub proof fn lemma_remove_slot_at(slots: Seq<ExecutionSlot>, id: u64, idx: int)
    requires
        unique64(slot_ids(slots)),
        0 <= idx < slots.len(),
        slots[idx].task_id == id,
    ensures
        remove_slot(slots, id) == slots.remove(idx),
    decreases slots.len(),
{
    let rest = slots.subrange(1, slots.len() as int);
    assert(unique64(slot_ids(rest))) by {
        assert(forall|i: int|
            0 <= i < rest.len() ==> slot_ids(rest)[i] == slot_ids(slots)[i + 1]);
    }
    if idx == 0 {
        assert forall|i: int| 0 <= i < rest.len() implies rest[i].task_id != id by {
            assert(slot_ids(slots)[0] != slot_ids(slots)[i + 1]);
        }
        lemma_remove_slot_absent(rest, id);
        assert(remove_slot(slots, id) =~= slots.remove(0));
    } else {
        assert(slots[0].task_id != id) by {
            assert(slot_ids(slots)[0] != slot_ids(slots)[idx]);
        }
        assert(rest[idx - 1].task_id == id);
        lemma_remove_slot_at(rest, id, idx - 1);
        assert(remove_slot(slots, id) =~= slots.remove(idx));
    }
}

/// The completion step over the model: a completion for an in-flight task
/// frees its slot and records the result for publication; a completion for
/// an unknown or already-abandoned task is discarded.
pub open spec fn complete_model(m: CoordModel, task_id: u64, ok: bool) -> (CoordModel, bool) {
    if slot_ids(m.slots).contains(task_id) {
        (
            CoordModel {
                slots: remove_slot(m.slots, task_id),
                published: m.published.push(task_id),
                metrics: if ok {
                    Metrics { succeeded: bump1(m.metrics.succeeded), ..m.metrics }
                } else {
                    Metrics { failed: bump1(m.metrics.failed), ..m.metrics }
                },
                ..m
            },
            true,
        )
    } else {
        (m, false)
    }
}

/// Completion preserves the invariant and frees exactly one slot.
pub proof fn lemma_complete_model_ok(m: CoordModel, task_id: u64, ok: bool)
    requires
        m.wf(),
    ensures
        complete_model(m, task_id, ok).0.wf(),
        complete_model(m, task_id, ok).1 <==> m.has_slot(task_id),
        complete_model(m, task_id, ok).0.seen == m.seen,
        complete_model(m, task_id, ok).1 ==> complete_model(m, task_id, ok).0.slots.len()
            == m.slots.len() - 1 && !complete_model(m, task_id, ok).0.has_slot(task_id)
            && complete_model(m, task_id, ok).0.published == m.published.push(task_id),
        !complete_model(m, task_id, ok).1 ==> complete_model(m, task_id, ok).0 == m,
{
    if m.has_slot(task_id) {
        let idx = choose|i: int| 0 <= i < slot_ids(m.slots).len() && slot_ids(m.slots)[i] == task_id;
        assert(m.slots[idx].task_id == task_id);
        lemma_remove_slot_at(m.slots, task_id, idx);
        let s2 = m.slots.remove(idx);
        assert forall|i: int, j: int| 0 <= i < j < slot_ids(s2).len() implies slot_ids(s2)[i]
            != slot_ids(s2)[j] by {
            let i0 = if i < idx { i } else { i + 1 };
            let j0 = if j < idx { j } else { j + 1 };
            assert(s2[i] == m.slots[i0] && s2[j] == m.slots[j0]);
            assert(slot_ids(m.slots)[i0] != slot_ids(m.slots)[j0]);
        }
        assert forall|i: int| 0 <= i < s2.len() implies seen_has_id(m.seen, s2[i].task_id) by {
            let i0 = if i < idx { i } else { i + 1 };
            assert(s2[i] == m.slots[i0]);
        }
        assert forall|i: int| 0 <= i < s2.len() implies s2[i].task_id != task_id by {
            let i0 = if i < idx { i } else { i + 1 };
            assert(s2[i] == m.slots[i0]);
            assert(slot_ids(m.slots)[i0] != slot_ids(m.slots)[idx]);
        }
        if complete_model(m, task_id, ok).0.has_slot(task_id) {
            let k = choose|k: int| 0 <= k < slot_ids(s2).len() && slot_ids(s2)[k] == task_id;
            assert(s2[k].task_id == task_id);
        }
    }
}

/// Whether a slot's deadline, or the configured maximum execution
/// duration, has elapsed at time `now`.
pub open spec fn slot_expired(s: ExecutionSlot, now: u64, max_duration: u64) -> bool {
    now > s.deadline || now > sat_add64(s.started_at, max_duration)
}

/// One slot's fate in a timeout scan: an expired slot is first signalled to
/// cancel with a grace period; a signalled slot whose grace elapsed is
/// abandoned (`None`); anything else is kept unchanged.
pub open spec fn scan_slot(s: ExecutionSlot, now: u64, max_duration: u64, grace: u64) -> Option<
    ExecutionSlot,
> {
    if s.cancel_requested {
        if now >= s.abandon_at {
            None
        } else {
            Some(s)
        }
    } else if slot_expired(s, now, max_duration) {
        Some(ExecutionSlot { cancel_requested: true, abandon_at: sat_add64(now, grace), ..s })
    } else {
        Some(s)
    }
}

/// The timeout scan over a slot sequence: the kept (possibly signalled)
/// slots, and the identifiers of the abandoned ones.
pub open spec fn scan_slots(slots: Seq<ExecutionSlot>, now: u64, max_duration: u64, grace: u64) -> (
    Seq<ExecutionSlot>,
    Seq<u64>,
)
    decreases slots.len(),
{
    if slots.len() == 0 {
        (Seq::empty(), Seq::empty())
    } else {
        let (ks, ts) = scan_slots(slots.subrange(1, slots.len() as int), now, max_duration, grace);
        match scan_slot(slots[0], now, max_duration, grace) {
            Some(s1) => (seq![s1] + ks, ts),
            None => (ks, seq![slots[0].task_id] + ts),
        }
    }
}

/// The timeout scan keeps identifiers unique, abandons each slot at most
/// once, and partitions the slots into kept and abandoned ones.
pub proof fn lemma_scan_slots_facts(slots: Seq<ExecutionSlot>, now: u64, max_duration: u64, grace: u64)
    requires
        unique64(slot_ids(slots)),
    ensures
        ({
            let (ks, ts) = scan_slots(slots, now, max_duration, grace);
            &&& ks.len() + ts.len() == slots.len()
            &&& unique64(slot_ids(ks))
            &&& unique64(ts)
            &&& forall|id: u64| slot_ids(ks).contains(id) ==> slot_ids(slots).contains(id)
            &&& forall|id: u64| #[trigger] ts.contains(id) ==> slot_ids(slots).contains(id)
            &&& forall|id: u64| ts.contains(id) ==> !slot_ids(ks).contains(id)
            &&& forall|i: int|
                0 <= i < slots.len() ==> (#[trigger] ts.contains(slots[i].task_id) <==> scan_slot(
                    slots[i],
                    now,
                    max_duration,
                    grace,
                ) is None)
        }),
    decreases slots.len(),
{
    let (ks, ts) = scan_slots(slots, now, max_duration, grace);
    if slots.len() == 0 {
    } else {
        let rest = slots.subrange(1, slots.len() as int);
        assert(unique64(slot_ids(rest))) by {
            assert(forall|i: int|
                0 <= i < rest.len() ==> slot_ids(rest)[i] == slot_ids(slots)[i + 1]);
        }
        lemma_scan_slots_facts(rest, now, max_duration, grace);
        let (krest, trest) = scan_slots(rest, now, max_duration, grace);
        assert(forall|i: int| 0 <= i < rest.len() ==> rest[i] == slots[i + 1]);
        // the head's identifier is fresh among the tail's
        assert forall|i: int| 0 <= i < rest.len() implies rest[i].task_id != slots[0].task_id by {
            assert(slot_ids(slots)[0] != slot_ids(slots)[i + 1]);
        }
        assert forall|id: u64| #[trigger] slot_ids(rest).contains(id) implies slot_ids(
            slots,
        ).contains(id) by {
            let i = choose|i: int| 0 <= i < rest.len() && slot_ids(rest)[i] == id;
            assert(slot_ids(slots)[i + 1] == id);
        }
        assert(!slot_ids(rest).contains(slots[0].task_id)) by {
            if slot_ids(rest).contains(slots[0].task_id) {
                let i = choose|i: int|
                    0 <= i < rest.len() && slot_ids(rest)[i] == slots[0].task_id;
                assert(rest[i].task_id == slots[0].task_id);
            }
        }
        match scan_slot(slots[0], now, max_duration, grace) {
            Some(s1) => {
                assert(s1.task_id == slots[0].task_id);
                assert(ks =~= seq![s1] + krest);
                assert(ts =~= trest);
                assert forall|i: int, j: int| 0 <= i < j < slot_ids(ks).len() implies slot_ids(
                    ks,
                )[i] != slot_ids(ks)[j] by {
                    if i == 0 {
                        assert(slot_ids(ks)[j] == krest[j - 1].task_id);
                        assert(slot_ids(krest).contains(krest[j - 1].task_id)) by {
                            assert(slot_ids(krest)[j - 1] == krest[j - 1].task_id);
                        }
                    } else {
                        assert(slot_ids(ks)[i] == slot_ids(krest)[i - 1]);
                        assert(slot_ids(ks)[j] == slot_ids(krest)[j - 1]);
                    }
                }
                assert forall|id: u64| slot_ids(ks).contains(id) implies slot_ids(
                    slots,
                ).contains(id) by {
                    let i = choose|i: int| 0 <= i < ks.len() && slot_ids(ks)[i] == id;
                    if i == 0 {
                        assert(slot_ids(slots)[0] == id);
                    } else {
                        assert(slot_ids(krest)[i - 1] == id);
                        assert(slot_ids(krest).contains(id));
                    }
                }
                assert forall|id: u64| ts.contains(id) implies !slot_ids(ks).contains(id) by {
                    if slot_ids(ks).contains(id) {
                        let i = choose|i: int| 0 <= i < ks.len() && slot_ids(ks)[i] == id;
                        if i == 0 {
                            assert(id == slots[0].task_id);
                            assert(slot_ids(rest).contains(id));
                        } else {
                            assert(slot_ids(krest)[i - 1] == id);
                            assert(slot_ids(krest).contains(id));
                        }
                    }
                }
                assert forall|i: int| 0 <= i < slots.len() implies (#[trigger] ts.contains(
                    slots[i].task_id,
                ) <==> scan_slot(slots[i], now, max_duration, grace) is None) by {
                    if i == 0 {
                        if ts.contains(slots[0].task_id) {
                            assert(slot_ids(rest).contains(slots[0].task_id));
                        }
                    } else {
                        assert(slots[i] == rest[i - 1]);
                    }
                }
            },
            None => {
                assert(ks =~= krest);
                assert(ts =~= seq![slots[0].task_id] + trest);
                assert forall|i: int, j: int| 0 <= i < j < ts.len() implies ts[i] != ts[j] by {
                    if i == 0 {
                        assert(ts[j] == trest[j - 1]);
                        assert(trest.contains(trest[j - 1]));
                        assert(slot_ids(rest).contains(trest[j - 1]));
                    } else {
                        assert(ts[i] == trest[i - 1] && ts[j] == trest[j - 1]);
                    }
                }
                assert forall|id: u64| #[trigger] ts.contains(id) implies slot_ids(
                    slots,
                ).contains(id) by {
                    let i = choose|i: int| 0 <= i < ts.len() && ts[i] == id;
                    if i == 0 {
                        assert(slot_ids(slots)[0] == id);
                    } else {
                        assert(trest[i - 1] == id);
                        assert(trest.contains(id));
                        assert(slot_ids(rest).contains(id));
                    }
                }
                assert forall|id: u64| ts.contains(id) implies !slot_ids(ks).contains(id) by {
                    if slot_ids(ks).contains(id) {
                        assert(slot_ids(krest).contains(id));
                        assert(slot_ids(rest).contains(id));
                        let i = choose|i: int| 0 <= i < ts.len() && ts[i] == id;
                        if i == 0 {
                            assert(slot_ids(rest).contains(slots[0].task_id));
                        } else {
                            assert(trest.contains(id));
                        }
                    }
                }
                assert forall|i: int| 0 <= i < slots.len() implies (#[trigger] ts.contains(
                    slots[i].task_id,
                ) <==> scan_slot(slots[i], now, max_duration, grace) is None) by {
                    if i == 0 {
                        assert(ts[0] == slots[0].task_id);
                        assert(ts.contains(slots[0].task_id));
                    } else {
                        assert(slots[i] == rest[i - 1]);
                        if trest.contains(slots[i].task_id) {
                            assert(ts[
                                1 + choose|k: int|
                                    0 <= k < trest.len() && trest[k] == slots[i].task_id
                            ] == slots[i].task_id);
                            assert(ts.contains(slots[i].task_id));
                        }
                        if ts.contains(slots[i].task_id) {
                            let k = choose|k: int| 0 <= k < ts.len() && ts[k] == slots[i].task_id;
                            if k == 0 {
                                assert(slots[i].task_id == slots[0].task_id);
                            } else {
                                assert(trest[k - 1] == slots[i].task_id);
                                assert(trest.contains(slots[i].task_id));
                            }
                        }
                    }
                }
            },
        }
    }
}

/// The timeout step over the model: scan every slot, abandon the ones whose
/// grace elapsed, and record a timeout result for each abandoned task.
pub open spec fn scan_model(m: CoordModel, now: u64) -> (CoordModel, Seq<u64>) {
    let (ks, ts) = scan_slots(m.slots, now, m.max_duration, m.grace);
    (
        CoordModel {
            slots: ks,
            published: m.published + ts,
            metrics: Metrics {
                timed_out: sat_add64(m.metrics.timed_out, ts.len() as u64),
                ..m.metrics
            },
            ..m
        },
        ts,
    )
}

/// The timeout scan preserves the invariant.
pub proof fn lemma_scan_model_ok(m: CoordModel, now: u64)
    requires
        m.wf(),
    ensures
        scan_model(m, now).0.wf(),
        scan_model(m, now).0.seen == m.seen,
        unique64(scan_model(m, now).1),
        forall|id: u64| #[trigger] scan_model(m, now).1.contains(id) ==> m.has_slot(id),
        forall|id: u64|
            scan_model(m, now).1.contains(id) ==> !scan_model(m, now).0.has_slot(id),
{
    lemma_scan_slots_facts(m.slots, now, m.max_duration, m.grace);
    let (ks, ts) = scan_slots(m.slots, now, m.max_duration, m.grace);
    assert forall|i: int| 0 <= i < ks.len() implies seen_has_id(m.seen, ks[i].task_id) by {
        assert(slot_ids(ks)[i] == ks[i].task_id);
        assert(slot_ids(ks).contains(ks[i].task_id));
        assert(slot_ids(m.slots).contains(ks[i].task_id));
        let j = choose|j: int| 0 <= j < m.slots.len() && slot_ids(m.slots)[j] == ks[i].task_id;
        assert(m.slots[j].task_id == ks[i].task_id);
    }
}

/// The draining step over the model: cancellation is signalled to every
/// slot that has not been signalled yet, with the full grace period.
pub open spec fn drain_model(m: CoordModel, now: u64) -> CoordModel {
    CoordModel {
        slots: m.slots.map_values(
            |s: ExecutionSlot|
                if s.cancel_requested {
                    s
                } else {
                    ExecutionSlot { cancel_requested: true, abandon_at: sat_add64(now, m.grace), ..s }
                },
        ),
        ..m
    }
}

/// Draining changes no identifier and preserves the invariant.
pub proof fn lemma_drain_model_ok(m: CoordModel, now: u64)
    requires
        m.wf(),
    ensures
        drain_model(m, now).wf(),
        slot_ids(drain_model(m, now).slots) == slot_ids(m.slots),
        drain_model(m, now).seen == m.seen,
        drain_model(m, now).published == m.published,
        drain_model(m, now).slots.len() == m.slots.len(),
        forall|i: int| 0 <= i < drain_model(m, now).slots.len() ==> drain_model(m, now).slots[i].cancel_requested,
{
    let m2 = drain_model(m, now);
    assert(slot_ids(m2.slots) =~= slot_ids(m.slots));
}

/// The forced-shutdown step over the model: every remaining slot is
/// abandoned and a cancellation failure is recorded for it.
pub open spec fn force_abandon_model(m: CoordModel) -> (CoordModel, Seq<u64>) {
    (
        CoordModel {
            slots: Seq::empty(),
            published: m.published + slot_ids(m.slots),
            metrics: Metrics {
                failed: sat_add64(m.metrics.failed, slot_ids(m.slots).len() as u64),
                ..m.metrics
            },
            ..m
        },
        slot_ids(m.slots),
    )
}

/// Whether some in-flight slot carries this identifier.
fn slots_contain(slots: &Vec<ExecutionSlot>, id: u64) -> (r: bool)
    ensures
        r == slot_ids(slots@).contains(id),
{
    let mut i: usize = 0;
    while i < slots.len()
        invariant
            0 <= i <= slots@.len(),
            forall|j: int| 0 <= j < i ==> slots@[j].task_id != id,
        decreases slots@.len() - i,
    {
        if slots[i].task_id == id {
            proof {
                assert(slot_ids(slots@)[i as int] == id);
            }
            return true;
        }
        i = i + 1;
    }
    proof {
        if slot_ids(slots@).contains(id) {
            let j = choose|j: int| 0 <= j < slots@.len() && slot_ids(slots@)[j] == id;
            assert(slots@[j].task_id == id);
        }
    }
    false
}

/// Whether some deduplication record carries this identifier.
fn entries_contain(entries: &Vec<SeenEntry>, id: u64) -> (r: bool)
    ensures
        r == seen_has_id(entries@, id),
{
    let mut i: usize = 0;
    while i < entries.len()
        invariant
            0 <= i <= entries@.len(),
            forall|j: int| 0 <= j < i ==> entries@[j].task_id != id,
        decreases entries@.len() - i,
    {
        if entries[i].task_id == id {
            return true;
        }
        i = i + 1;
    }
    false
}

/// `x + 1`, saturating at the top of the counter range.
fn bump(x: u64) -> (r: u64)
    ensures
        r == bump1(x),
{
    if x == u64::MAX {
        x
    } else {
        x + 1
    }
}

/// `a + b`, saturating at the top of the range.
fn sat_add(a: u64, b: u64) -> (r: u64)
    ensures
        r == sat_add64(a, b),
{
    if a > u64::MAX - b {
        u64::MAX
    } else {
        a + b
    }
}

/// The execution coordinator. It owns the in-flight execution slots and the
/// deduplication records; the event loop admits announcements through it and
/// workers report completions back through it. Its whole behaviour is given
/// by the model transitions `admit_model`, `complete_model`, `scan_model`,
/// `drain_model` and `force_abandon_model` over its view.
pub struct Coordinator {
    seen: Vec<SeenEntry>,
    slots: Vec<ExecutionSlot>,
    published: Vec<u64>,
    limit: usize,
    retention: u64,
    max_duration: u64,
    grace: u64,
    metrics: Metrics,
}

impl View for Coordinator {
    type V = CoordModel;

    closed spec fn view(&self) -> CoordModel {
        CoordModel {
            seen: self.seen@,
            slots: self.slots@,
            published: self.published@,
            limit: self.limit,
            retention: self.retention,
            max_duration: self.max_duration,
            grace: self.grace,
            metrics: self.metrics,
        }
    }
}

impl Coordinator {
    /// A fresh coordinator: nothing seen, nothing in flight, nothing
    /// recorded for publication.
    pub fn new(limit: usize, retention: u64, max_duration: u64, grace: u64) -> (r: Coordinator)
        ensures
            r@.wf(),
            r@.seen.len() == 0,
            r@.slots.len() == 0,
            r@.published.len() == 0,
            r@.limit == limit,
            r@.retention == retention,
            r@.max_duration == max_duration,
            r@.grace == grace,
            r@.metrics == (Metrics {
                admitted: 0,
                deduplicated: 0,
                rejected_busy: 0,
                succeeded: 0,
                failed: 0,
                timed_out: 0,
            }),
    {
        Coordinator {
            seen: Vec::new(),
            slots: Vec::new(),
            published: Vec::new(),
            limit,
            retention,
            max_duration,
            grace,
            metrics: Metrics {
                admitted: 0,
                deduplicated: 0,
                rejected_busy: 0,
                succeeded: 0,
                failed: 0,
                timed_out: 0,
            },
        }
    }

    /// How many tasks are in flight.
    pub fn active_len(&self) -> (r: usize)
        ensures
            r == self@.slots.len(),
    {
        self.slots.len()
    }

    /// The configured concurrency limit.
    pub fn limit(&self) -> (r: usize)
        ensures
            r == self@.limit,
    {
        self.limit
    }

    /// The configured grace period between cancellation and abandonment.
    pub fn grace(&self) -> (r: u64)
        ensures
            r == self@.grace,
    {
        self.grace
    }

    /// A snapshot of the counters, for the metrics registry.
    pub fn metrics(&self) -> (r: Metrics)
        ensures
            r == self@.metrics,
    {
        self.metrics
    }

    /// How many results have been recorded for publication.
    pub fn published_len(&self) -> (r: usize)
        ensures
            r == self@.published.len(),
    {
        self.published.len()
    }

    /// Whether a result for the given identifier has been recorded.
    pub fn was_published(&self, id: u64) -> (r: bool)
        ensures
            r == self@.published.contains(id),
    {
        let mut i: usize = 0;
        while i < self.published.len()
            invariant
                0 <= i <= self@.published.len(),
                forall|j: int| 0 <= j < i ==> self@.published[j] != id,
            decreases self@.published.len() - i,
        {
            if self.published[i] == id {
                return true;
            }
            i = i + 1;
        }
        false
    }

    /// Whether a task is in flight.
    pub fn has_active_slot(&self, id: u64) -> (r: bool)
        ensures
            r == self@.has_slot(id),
    {
        slots_contain(&self.slots, id)
    }

    /// Admits, deduplicates or rejects a delivered task announcement, after
    /// lazily evicting stale deduplication records. The single verdict per
    /// identifier is what makes node-local admission at-most-once.
    pub fn admit_task(&mut self, task_id: u64, deadline: u64, now: u64) -> (r: AdmitOutcome)
        requires
            old(self)@.wf(),
        ensures
            final(self)@ == admit_model(old(self)@, task_id, deadline, now).0,
            r == admit_model(old(self)@, task_id, deadline, now).1,
            final(self)@.wf(),
            r == AdmitOutcome::Deduplicated <==> old(self)@.is_seen_live(task_id, now),
            r == AdmitOutcome::RejectedBusy <==> (!old(self)@.is_seen_live(task_id, now)
                && old(self)@.slots.len() >= old(self)@.limit),
            r == AdmitOutcome::Admitted <==> (!old(self)@.is_seen_live(task_id, now)
                && old(self)@.slots.len() < old(self)@.limit),
            r == AdmitOutcome::Admitted ==> final(self)@.slots.len() == old(self)@.slots.len() + 1
                && final(self)@.has_slot(task_id),
            r != AdmitOutcome::Admitted ==> final(self)@.slots == old(self)@.slots,
            final(self)@.published == old(self)@.published,
            final(self)@.limit == old(self)@.limit,
            final(self)@.retention == old(self)@.retention,
            final(self)@.max_duration == old(self)@.max_duration,
            final(self)@.grace == old(self)@.grace,
    {
        let ghost m0 = self@;
        // lazy eviction of stale deduplication records
        let mut kept: Vec<SeenEntry> = Vec::new();
        let mut i: usize = 0;
        proof {
            assert(m0.seen.subrange(0, m0.seen.len() as int) =~= m0.seen);
            assert(kept@ + pruned_seen(
                m0.seen.subrange(i as int, m0.seen.len() as int),
                now,
                m0.retention,
                slot_ids(m0.slots),
            ) =~= pruned_seen(m0.seen, now, m0.retention, slot_ids(m0.slots)));
        }
        while i < self.seen.len()
            invariant
                0 <= i <= self.seen@.len(),
                self == old(self),
                m0 == self@,
                m0.wf(),
                kept@ + pruned_seen(
                    m0.seen.subrange(i as int, m0.seen.len() as int),
                    now,
                    m0.retention,
                    slot_ids(m0.slots),
                ) == pruned_seen(m0.seen, now, m0.retention, slot_ids(m0.slots)),
            decreases self.seen@.len() - i,
        {
            let e: SeenEntry = self.seen[i];
            let fresh: bool = now <= e.inserted_at || now - e.inserted_at <= self.retention;
            let in_flight: bool = slots_contain(&self.slots, e.task_id);
            proof {
                let suffix = m0.seen.subrange(i as int, m0.seen.len() as int);
                assert(suffix[0] == e);
                assert(suffix.subrange(1, suffix.len() as int) =~= m0.seen.subrange(
                    i as int + 1,
                    m0.seen.len() as int,
                ));
                assert((fresh || in_flight) == keep_entry(e, now, m0.retention, slot_ids(m0.slots)));
            }
            if fresh || in_flight {
                kept.push(e);
                proof {
                    assert(kept@ + pruned_seen(
                        m0.seen.subrange(i as int + 1, m0.seen.len() as int),
                        now,
                        m0.retention,
                        slot_ids(m0.slots),
                    ) =~= pruned_seen(m0.seen, now, m0.retention, slot_ids(m0.slots)));
                }
            }
            i = i + 1;
        }
        proof {
            assert(m0.seen.subrange(m0.seen.len() as int, m0.seen.len() as int)
                =~= Seq::<SeenEntry>::empty());
            assert(kept@ =~= pruned_seen(m0.seen, now, m0.retention, slot_ids(m0.slots)));
            lemma_admit_model_ok(m0, task_id, deadline, now);
        }
        self.seen = kept;
        if entries_contain(&self.seen, task_id) {
            self.metrics.deduplicated = bump(self.metrics.deduplicated);
            proof {
                assert(self@ =~= admit_model(m0, task_id, deadline, now).0);
            }
            AdmitOutcome::Deduplicated
        } else if self.slots.len() >= self.limit {
            self.metrics.rejected_busy = bump(self.metrics.rejected_busy);
            proof {
                assert(self@ =~= admit_model(m0, task_id, deadline, now).0);
            }
            AdmitOutcome::RejectedBusy
        } else {
            self.seen.push(SeenEntry { task_id, inserted_at: now });
            self.slots.push(
                ExecutionSlot {
                    task_id,
                    deadline,
                    started_at: now,
                    cancel_requested: false,
                    abandon_at: 0,
                },
            );
            self.metrics.admitted = bump(self.metrics.admitted);
            proof {
                assert(self@ =~= admit_model(m0, task_id, deadline, now).0);
                assert(slot_ids(self@.slots)[self@.slots.len() - 1] == task_id);
            }
            AdmitOutcome::Admitted
        }
    }

    /// Takes a worker's completion report. Frees the task's slot and records
    /// the result for publication; a completion for an unknown or
    /// already-abandoned task is discarded, so a result is recorded at most
    /// once per admission.
    pub fn complete(&mut self, task_id: u64, ok: bool) -> (r: bool)
        requires
            old(self)@.wf(),
        ensures
            final(self)@ == complete_model(old(self)@, task_id, ok).0,
            r == complete_model(old(self)@, task_id, ok).1,
            final(self)@.wf(),
            r <==> old(self)@.has_slot(task_id),
            r ==> final(self)@.slots.len() == old(self)@.slots.len() - 1
                && !final(self)@.has_slot(task_id)
                && final(self)@.published == old(self)@.published.push(task_id),
            !r ==> final(self)@ == old(self)@,
    {
        let ghost m0 = self@;
        let mut i: usize = 0;
        while i < self.slots.len()
            invariant
                0 <= i <= self.slots@.len(),
                self == old(self),
                m0 == self@,
                m0.wf(),
                forall|j: int| 0 <= j < i ==> self.slots@[j].task_id != task_id,
            decreases self.slots@.len() - i,
        {
            if self.slots[i].task_id == task_id {
                proof {
                    assert(slot_ids(m0.slots)[i as int] == task_id);
                    lemma_remove_slot_at(m0.slots, task_id, i as int);
                    lemma_complete_model_ok(m0, task_id, ok);
                }
                self.slots.remove(i);
                self.published.push(task_id);
                if ok {
                    self.metrics.succeeded = bump(self.metrics.succeeded);
                } else {
                    self.metrics.failed = bump(self.metrics.failed);
                }
                proof {
                    assert(self@ =~= complete_model(m0, task_id, ok).0);
                }
                return true;
            }
            i = i + 1;
        }
        proof {
            lemma_complete_model_ok(m0, task_id, ok);
            if m0.has_slot(task_id) {
                let j = choose|j: int|
                    0 <= j < m0.slots.len() && slot_ids(m0.slots)[j] == task_id;
                assert(m0.slots[j].task_id == task_id);
            }
            assert(self@ =~= complete_model(m0, task_id, ok).0);
        }
        false
    }

    /// Enforces deadlines: signals cancellation to every newly expired slot
    /// and abandons every signalled slot whose grace elapsed, returning the
    /// identifiers of the abandoned tasks, each of which gets exactly one
    /// timeout failure result.
    pub fn scan_timeouts(&mut self, now: u64) -> (r: Vec<u64>)
        requires
            old(self)@.wf(),
        ensures
            final(self)@ == scan_model(old(self)@, now).0,
            r@ == scan_model(old(self)@, now).1,
            final(self)@.wf(),
            unique64(r@),
            forall|id: u64| #[trigger] r@.contains(id) ==> old(self)@.has_slot(id),
            forall|id: u64| r@.contains(id) ==> !final(self)@.has_slot(id),
            final(self)@.published == old(self)@.published + r@,
    {
        let ghost m0 = self@;
        let mut kept: Vec<ExecutionSlot> = Vec::new();
        let mut timed: Vec<u64> = Vec::new();
        let mut i: usize = 0;
        proof {
            assert(m0.slots.subrange(0, m0.slots.len() as int) =~= m0.slots);
            let (ks, ts) = scan_slots(m0.slots, now, m0.max_duration, m0.grace);
            assert(kept@ + scan_slots(
                m0.slots.subrange(i as int, m0.slots.len() as int),
                now,
                m0.max_duration,
                m0.grace,
            ).0 =~= ks);
            assert(timed@ + scan_slots(
                m0.slots.subrange(i as int, m0.slots.len() as int),
                now,
                m0.max_duration,
                m0.grace,
            ).1 =~= ts);
        }
        while i < self.slots.len()
            invariant
                0 <= i <= self.slots@.len(),
                self == old(self),
                m0 == self@,
                m0.wf(),
                kept@ + scan_slots(
                    m0.slots.subrange(i as int, m0.slots.len() as int),
                    now,
                    m0.max_duration,
                    m0.grace,
                ).0 == scan_slots(m0.slots, now, m0.max_duration, m0.grace).0,
                timed@ + scan_slots(
                    m0.slots.subrange(i as int, m0.slots.len() as int),
                    now,
                    m0.max_duration,
                    m0.grace,
                ).1 == scan_slots(m0.slots, now, m0.max_duration, m0.grace).1,
            decreases self.slots@.len() - i,
        {
            let s: ExecutionSlot = self.slots[i];
            proof {
                let suffix = m0.slots.subrange(i as int, m0.slots.len() as int);
                assert(suffix[0] == s);
                assert(suffix.subrange(1, suffix.len() as int) =~= m0.slots.subrange(
                    i as int + 1,
                    m0.slots.len() as int,
                ));
            }
            if s.cancel_requested {
                if now >= s.abandon_at {
                    timed.push(s.task_id);
                    proof {
                        assert(timed@ + scan_slots(
                            m0.slots.subrange(i as int + 1, m0.slots.len() as int),
                            now,
                            m0.max_duration,
                            m0.grace,
                        ).1 =~= scan_slots(m0.slots, now, m0.max_duration, m0.grace).1);
                    }
                } else {
                    kept.push(s);
                    proof {
                        assert(kept@ + scan_slots(
                            m0.slots.subrange(i as int + 1, m0.slots.len() as int),
                            now,
                            m0.max_duration,
                            m0.grace,
                        ).0 =~= scan_slots(m0.slots, now, m0.max_duration, m0.grace).0);
                    }
                }
            } else {
                let over_max: bool = now > sat_add(s.started_at, self.max_duration);
                if now > s.deadline || over_max {
                    let updated = ExecutionSlot {
                        task_id: s.task_id,
                        deadline: s.deadline,
                        started_at: s.started_at,
                        cancel_requested: true,
                        abandon_at: sat_add(now, self.grace),
                    };
                    proof {
                        assert(updated == scan_slot(s, now, m0.max_duration, m0.grace).unwrap());
                    }
                    kept.push(updated);
                    proof {
                        assert(kept@ + scan_slots(
                            m0.slots.subrange(i as int + 1, m0.slots.len() as int),
                            now,
                            m0.max_duration,
                            m0.grace,
                        ).0 =~= scan_slots(m0.slots, now, m0.max_duration, m0.grace).0);
                    }
                } else {
                    kept.push(s);
                    proof {
                        assert(kept@ + scan_slots(
                            m0.slots.subrange(i as int + 1, m0.slots.len() as int),
                            now,
                            m0.max_duration,
                            m0.grace,
                        ).0 =~= scan_slots(m0.slots, now, m0.max_duration, m0.grace).0);
                    }
                }
            }
            i = i + 1;
        }
        proof {
            assert(m0.slots.subrange(m0.slots.len() as int, m0.slots.len() as int)
                =~= Seq::<ExecutionSlot>::empty());
            assert(kept@ =~= scan_slots(m0.slots, now, m0.max_duration, m0.grace).0);
            assert(timed@ =~= scan_slots(m0.slots, now, m0.max_duration, m0.grace).1);
        }
        self.slots = kept;
        let mut k: usize = 0;
        proof {
            assert(self.published@ + timed@.subrange(0, 0) =~= self.published@);
        }
        let ghost pub0 = self.published@;
        while k < timed.len()
            invariant
                0 <= k <= timed@.len(),
                m0.wf(),
                self.published@ == pub0 + timed@.subrange(0, k as int),
                self.seen@ == m0.seen,
                self.slots@ == scan_slots(m0.slots, now, m0.max_duration, m0.grace).0,
                self.limit == m0.limit,
                self.retention == m0.retention,
                self.max_duration == m0.max_duration,
                self.grace == m0.grace,
                self.metrics == m0.metrics,
                timed@ == scan_slots(m0.slots, now, m0.max_duration, m0.grace).1,
            decreases timed@.len() - k,
        {
            self.published.push(timed[k]);
            k = k + 1;
            proof {
                assert(self.published@ =~= pub0 + timed@.subrange(0, k as int));
            }
        }
        let timed_count: u64 = timed.len() as u64;
        self.metrics.timed_out = sat_add(self.metrics.timed_out, timed_count);
        proof {
            assert(timed@.subrange(0, timed@.len() as int) =~= timed@);
            assert(self@ =~= scan_model(m0, now).0);
            lemma_scan_model_ok(m0, now);
        }
        timed
    }

    /// Signals cancellation to every in-flight slot, giving each the full
    /// grace period. Called once when the node starts draining.
    pub fn drain(&mut self, now: u64)
        requires
            old(self)@.wf(),
        ensures
            final(self)@ == drain_model(old(self)@, now),
            final(self)@.wf(),
            final(self)@.slots.len() == old(self)@.slots.len(),
            final(self)@.published == old(self)@.published,
            forall|i: int| 0 <= i < final(self)@.slots.len() ==> final(self)@.slots[i].cancel_requested,
    {
        let ghost m0 = self@;
        let mut updated: Vec<ExecutionSlot> = Vec::new();
        let mut i: usize = 0;
        while i < self.slots.len()
            invariant
                0 <= i <= self.slots@.len(),
                self == old(self),
                m0 == self@,
                m0.wf(),
                updated@ == m0.slots.subrange(0, i as int).map_values(
                    |s: ExecutionSlot|
                        if s.cancel_requested {
                            s
                        } else {
                            ExecutionSlot {
                                cancel_requested: true,
                                abandon_at: sat_add64(now, m0.grace),
                                ..s
                            }
                        },
                ),
            decreases self.slots@.len() - i,
        {
            let s: ExecutionSlot = self.slots[i];
            if s.cancel_requested {
                updated.push(s);
            } else {
                updated.push(
                    ExecutionSlot {
                        task_id: s.task_id,
                        deadline: s.deadline,
                        started_at: s.started_at,
                        cancel_requested: true,
                        abandon_at: sat_add(now, self.grace),
                    },
                );
            }
            i = i + 1;
            proof {
                assert(updated@ =~= m0.slots.subrange(0, i as int).map_values(
                    |s: ExecutionSlot|
                        if s.cancel_requested {
                            s
                        } else {
                            ExecutionSlot {
                                cancel_requested: true,
                                abandon_at: sat_add64(now, m0.grace),
                                ..s
                            }
                        },
                ));
            }
        }
        self.slots = updated;
        proof {
            assert(m0.slots.subrange(0, m0.slots.len() as int) =~= m0.slots);
            assert(self@ =~= drain_model(m0, now));
            lemma_drain_model_ok(m0, now);
        }
    }

    /// Abandons every remaining slot at the end of the draining grace
    /// period and records a failure result for each, so the node can stop
    /// with nothing in flight.
    pub fn force_abandon_all(&mut self) -> (r: Vec<u64>)
        requires
            old(self)@.wf(),
        ensures
            final(self)@ == force_abandon_model(old(self)@).0,
            r@ == force_abandon_model(old(self)@).1,
            final(self)@.wf(),
            r@ == slot_ids(old(self)@.slots),
            final(self)@.slots.len() == 0,
            final(self)@.published == old(self)@.published + r@,
    {
        let ghost m0 = self@;
        let mut ids: Vec<u64> = Vec::new();
        let mut i: usize = 0;
        while i < self.slots.len()
            invariant
                0 <= i <= self.slots@.len(),
                self == old(self),
                m0 == self@,
                m0.wf(),
                ids@ == slot_ids(m0.slots).subrange(0, i as int),
            decreases self.slots@.len() - i,
        {
            ids.push(self.slots[i].task_id);
            i = i + 1;
            proof {
                assert(ids@ =~= slot_ids(m0.slots).subrange(0, i as int));
            }
        }
        proof {
            assert(slot_ids(m0.slots).subrange(0, slot_ids(m0.slots).len() as int)
                =~= slot_ids(m0.slots));
        }
        self.slots.clear();
        let mut k: usize = 0;
        let ghost pub0 = self.published@;
        proof {
            assert(self.published@ =~= pub0 + ids@.subrange(0, 0));
        }
        while k < ids.len()
            invariant
                0 <= k <= ids@.len(),
                m0.wf(),
                self.published@ == pub0 + ids@.subrange(0, k as int),
                self.seen@ == m0.seen,
                self.slots@.len() == 0,
                self.limit == m0.limit,
                self.retention == m0.retention,
                self.max_duration == m0.max_duration,
                self.grace == m0.grace,
                self.metrics == m0.metrics,
                ids@ == slot_ids(m0.slots),
            decreases ids@.len() - k,
        {
            self.published.push(ids[k]);
            k = k + 1;
            proof {
                assert(self.published@ =~= pub0 + ids@.subrange(0, k as int));
            }
        }
        let n: u64 = ids.len() as u64;
        self.metrics.failed = sat_add(self.metrics.failed, n);
        proof {
            assert(ids@.subrange(0, ids@.len() as int) =~= ids@);
            assert(self.slots@ =~= Seq::<ExecutionSlot>::empty());
            assert(self@ =~= force_abandon_model(m0).0);
        }
        ids
    }
}


/// After one admission of an identifier, its liveness set grows by exactly
/// that identifier.
pub proof fn lemma_admit_live_after(m: CoordModel, id: u64, deadline: u64, now: u64)
    requires
        m.wf(),
        admit_model(m, id, deadline, now).1 == AdmitOutcome::Admitted,
    ensures
        forall|x: u64|
            #[trigger] admit_model(m, id, deadline, now).0.is_seen_live(x, now)
                <==> (m.is_seen_live(x, now) || x == id),
{
    let active = slot_ids(m.slots);
    let pr = pruned_seen(m.seen, now, m.retention, active);
    let m1 = admit_model(m, id, deadline, now).0;
    let entry = SeenEntry { task_id: id, inserted_at: now };
    lemma_pruned_contains(m.seen, now, m.retention, active);
    lemma_admit_model_ok(m, id, deadline, now);
    assert(m1.seen == pr.push(entry));
    assert forall|x: u64|
        #[trigger] m1.is_seen_live(x, now) <==> (m.is_seen_live(x, now) || x == id) by {
        if m1.is_seen_live(x, now) {
            let i = choose|i: int|
                0 <= i < m1.seen.len() && m1.seen[i].task_id == x && keep_entry(
                    m1.seen[i],
                    now,
                    m1.retention,
                    slot_ids(m1.slots),
                );
            if i == pr.len() {
                assert(x == id);
            } else {
                let e = pr[i];
                assert(pr.contains(e));
                assert(m.seen.contains(e) && keep_entry(e, now, m.retention, active));
                let j = choose|j: int| 0 <= j < m.seen.len() && m.seen[j] == e;
                assert(m.is_seen_live(x, now));
            }
        }
        if m.is_seen_live(x, now) {
            let i = choose|i: int|
                0 <= i < m.seen.len() && m.seen[i].task_id == x && keep_entry(
                    m.seen[i],
                    now,
                    m.retention,
                    active,
                );
            let e = m.seen[i];
            assert(m.seen.contains(e));
            assert(pr.contains(e));
            let j = choose|j: int| 0 <= j < pr.len() && pr[j] == e;
            assert(m1.seen[j] == e);
            assert(keep_entry(e, now, m1.retention, slot_ids(m1.slots))) by {
                if !(e.inserted_at + m.retention >= now) {
                    assert(active.contains(e.task_id));
                    let k = choose|k: int| 0 <= k < active.len() && active[k] == e.task_id;
                    assert(slot_ids(m1.slots)[k] == e.task_id);
                }
            }
            assert(m1.is_seen_live(x, now));
        }
        if x == id {
            assert(m1.seen[pr.len() as int] == entry);
            assert(keep_entry(entry, now, m1.retention, slot_ids(m1.slots)));
            assert(m1.is_seen_live(x, now));
        }
    }
}

/// Deduplication: once an announcement has been admitted, delivering the
/// same task identifier again within the retention window is answered with
/// `Deduplicated`, never with a second admission.
pub proof fn lemma_admit_deduplicates(
    m: CoordModel,
    id: u64,
    d1: u64,
    d2: u64,
    t1: u64,
    t2: u64,
)
    requires
        m.wf(),
        admit_model(m, id, d1, t1).1 == AdmitOutcome::Admitted,
        t1 <= t2,
        t2 <= t1 + m.retention,
    ensures
        admit_model(admit_model(m, id, d1, t1).0, id, d2, t2).1 == AdmitOutcome::Deduplicated,
{
    lemma_admit_model_ok(m, id, d1, t1);
    let m1 = admit_model(m, id, d1, t1).0;
    let entry = SeenEntry { task_id: id, inserted_at: t1 };
    assert(m1.seen[m1.seen.len() - 1] == entry);
    assert(keep_entry(entry, t2, m1.retention, slot_ids(m1.slots)));
    assert(m1.is_seen_live(id, t2));
    lemma_admit_model_ok(m1, id, d2, t2);
}

/// The coordinator state after admitting a sequence of announcements in
/// order, all with the same deadline, at one time.
pub open spec fn admit_all(m: CoordModel, ids: Seq<u64>, deadline: u64, now: u64) -> CoordModel
    decreases ids.len(),
{
    if ids.len() == 0 {
        m
    } else {
        admit_all(
            admit_model(m, ids[0], deadline, now).0,
            ids.subrange(1, ids.len() as int),
            deadline,
            now,
        )
    }
}

/// While capacity remains, every fresh announcement in a run of distinct,
/// unseen identifiers is admitted, and each one fills a slot.
pub proof fn lemma_admit_all_fills(m: CoordModel, ids: Seq<u64>, deadline: u64, now: u64)
    requires
        m.wf(),
        unique64(ids),
        forall|k: int| 0 <= k < ids.len() ==> !m.is_seen_live(#[trigger] ids[k], now),
        m.slots.len() + ids.len() <= m.limit,
    ensures
        admit_all(m, ids, deadline, now).wf(),
        admit_all(m, ids, deadline, now).slots.len() == m.slots.len() + ids.len(),
        admit_all(m, ids, deadline, now).limit == m.limit,
        admit_all(m, ids, deadline, now).retention == m.retention,
        forall|x: u64|
            #[trigger] admit_all(m, ids, deadline, now).is_seen_live(x, now) <==> (m.is_seen_live(
                x,
                now,
            ) || ids.contains(x)),
        ids.len() > 0 ==> admit_model(m, ids[0], deadline, now).1 == AdmitOutcome::Admitted,
    decreases ids.len(),
{
    if ids.len() == 0 {
        assert(forall|x: u64| !ids.contains(x));
    } else {
        lemma_admit_model_ok(m, ids[0], deadline, now);
        assert(admit_model(m, ids[0], deadline, now).1 == AdmitOutcome::Admitted);
        lemma_admit_live_after(m, ids[0], deadline, now);
        let m1 = admit_model(m, ids[0], deadline, now).0;
        let rest = ids.subrange(1, ids.len() as int);
        assert(unique64(rest)) by {
            assert(forall|i: int| 0 <= i < rest.len() ==> rest[i] == ids[i + 1]);
        }
        assert forall|k: int| 0 <= k < rest.len() implies !m1.is_seen_live(
            #[trigger] rest[k],
            now,
        ) by {
            assert(rest[k] == ids[k + 1]);
            assert(ids[0] != ids[k + 1]);
        }
        lemma_admit_all_fills(m1, rest, deadline, now);
        assert forall|x: u64|
            #[trigger] admit_all(m, ids, deadline, now).is_seen_live(x, now) <==> (m.is_seen_live(
                x,
                now,
            ) || ids.contains(x)) by {
            if ids.contains(x) {
                let k = choose|k: int| 0 <= k < ids.len() && ids[k] == x;
                if k == 0 {
                    assert(m1.is_seen_live(x, now));
                } else {
                    assert(rest[k - 1] == x);
                    assert(rest.contains(x));
                }
            }
            if admit_all(m, ids, deadline, now).is_seen_live(x, now) && !m.is_seen_live(x, now)
                && x != ids[0] && rest.contains(x) {
                let k = choose|k: int| 0 <= k < rest.len() && rest[k] == x;
                assert(ids[k + 1] == x);
                assert(ids.contains(x));
            }
            if x == ids[0] {
                assert(ids.contains(x));
            }
        }
    }
}

/// Concurrency bound: with a limit of `N` and nothing completing, a run of
/// `N` distinct fresh announcements fills every slot, and one more distinct
/// fresh announcement is rejected as busy.
pub proof fn lemma_concurrency_bound(
    m: CoordModel,
    ids: Seq<u64>,
    extra: u64,
    deadline: u64,
    now: u64,
)
    requires
        m.wf(),
        m.slots.len() == 0,
        unique64(ids),
        ids.len() == m.limit,
        forall|k: int| 0 <= k < ids.len() ==> !m.is_seen_live(#[trigger] ids[k], now),
        !ids.contains(extra),
        !m.is_seen_live(extra, now),
    ensures
        admit_model(admit_all(m, ids, deadline, now), extra, deadline, now).1
            == AdmitOutcome::RejectedBusy,
{
    lemma_admit_all_fills(m, ids, deadline, now);
    let mf = admit_all(m, ids, deadline, now);
    assert(!mf.is_seen_live(extra, now));
    lemma_admit_model_ok(mf, extra, deadline, now);
}

/// Timeout exclusivity: when a signalled slot's grace elapses, the scan
/// abandons it and records exactly one timeout failure for its task; the
/// task is no longer in flight, a late completion is discarded, and no
/// later scan can time the task out again.
pub proof fn lemma_timeout_publishes_once(m: CoordModel, id: u64, now: u64, i: int)
    requires
        m.wf(),
        0 <= i < m.slots.len(),
        m.slots[i].task_id == id,
        m.slots[i].cancel_requested,
        now >= m.slots[i].abandon_at,
    ensures
        scan_model(m, now).1.contains(id),
        unique64(scan_model(m, now).1),
        !scan_model(m, now).0.has_slot(id),
        scan_model(m, now).0.wf(),
        forall|ok: bool| !complete_model(scan_model(m, now).0, id, ok).1,
        forall|t3: u64| !scan_model(scan_model(m, now).0, t3).1.contains(id),
{
    lemma_scan_slots_facts(m.slots, now, m.max_duration, m.grace);
    lemma_scan_model_ok(m, now);
    let m2 = scan_model(m, now).0;
    let ts = scan_model(m, now).1;
    assert(scan_slot(m.slots[i], now, m.max_duration, m.grace) is None);
    assert(ts.contains(id));
    assert(!slot_ids(m2.slots).contains(id));
    assert forall|t3: u64| !scan_model(m2, t3).1.contains(id) by {
        lemma_scan_slots_facts(m2.slots, t3, m2.max_duration, m2.grace);
        if scan_model(m2, t3).1.contains(id) {
            assert(slot_ids(m2.slots).contains(id));
        }
    }
}

/// At-most-one result per admission: a completion for an in-flight task
/// records its result exactly once; a second completion report for the same
/// task finds no slot and is discarded.
pub proof fn lemma_complete_publishes_once(m: CoordModel, id: u64, ok: bool, ok2: bool)
    requires
        m.wf(),
        m.has_slot(id),
    ensures
        complete_model(m, id, ok).1,
        complete_model(m, id, ok).0.published == m.published.push(id),
        !complete_model(complete_model(m, id, ok).0, id, ok2).1,
        complete_model(complete_model(m, id, ok).0, id, ok2).0 == complete_model(m, id, ok).0,
{
    lemma_complete_model_ok(m, id, ok);
    lemma_complete_model_ok(complete_model(m, id, ok).0, id, ok2);
}

} // verus!
