use std::collections::HashMap;
use vstd::prelude::*;

use crate::lifecycle::IntentState;
use crate::tasks::{Intent, IntentQueue};

verus! {

broadcast use vstd::std_specs::hash::group_hash_axioms;

/// Attempts of one storage write before its error is handed back.
pub const STORAGE_RETRY_ATTEMPTS: u32 = 3;

/// Pause between two attempts of one storage write.
pub const STORAGE_RETRY_DELAY_MS: u64 = 200;

/// Failed processing attempts, per intent and drain pass, before quarantine.
pub const INTENT_REQUEUE_ATTEMPTS: u8 = 3;

/// Commands that other parts of the system send to the orchestrator.
#[derive(Debug)]
pub enum OrchestratorCommand {
    RequestBeat,
}

/// Bounded retry with a fixed delay, for one storage write at a time.
#[derive(Clone, Copy, Debug)]
pub struct RetryPolicy {
    pub attempts: u32,
    pub delay_ms: u64,
}

/// What to do after an attempt failed.
#[derive(Clone, Copy, Debug, PartialEq, Eq, Structural)]
pub enum RetryStep {
    /// Log the failed `attempt`, sleep `delay_ms`, call again.
    Retry { attempt: u32, delay_ms: u64 },
    /// Hand the error back to the caller unchanged.
    GiveUp,
}

impl RetryPolicy {
    /// The policy used for every storage write of a drain pass.
    pub fn storage() -> (r: RetryPolicy)
        ensures
            r.attempts == STORAGE_RETRY_ATTEMPTS,
            r.delay_ms == STORAGE_RETRY_DELAY_MS,
    {
        RetryPolicy { attempts: STORAGE_RETRY_ATTEMPTS, delay_ms: STORAGE_RETRY_DELAY_MS }
    }

    /// Decision after attempt number `attempt` (counted from 1) failed.
    pub fn after_failure(&self, attempt: u32) -> (r: RetryStep)
        ensures
            attempt < self.attempts ==> r == (RetryStep::Retry { attempt, delay_ms: self.delay_ms }),
            attempt >= self.attempts ==> r == RetryStep::GiveUp,
    {
        if attempt < self.attempts {
            RetryStep::Retry { attempt, delay_ms: self.delay_ms }
        } else {
            RetryStep::GiveUp
        }
    }
}

/// How many times an operation is called when its first `failures` calls fail.
pub open spec fn calls_made(attempts: nat, failures: nat) -> nat {
    if attempts == 0 {
        1
    } else if failures < attempts {
        failures + 1
    } else {
        attempts
    }
}

/// Driving an operation by `after_failure` calls it at most `attempts` times
/// (and at least once), and stops at the first success.
pub proof fn lemma_retry_bounded(p: RetryPolicy, failures: nat)
    requires
        p.attempts >= 1,
    ensures
        calls_made(p.attempts as nat, failures) <= p.attempts,
        calls_made(p.attempts as nat, failures) >= 1,
        failures < p.attempts ==> calls_made(p.attempts as nat, failures) == failures + 1,
{
}

/// Whether an intent with this score is admitted to the queue.
pub open spec fn admits(alignment: i64, threshold: i64) -> bool {
    alignment >= threshold
}

/// The state an intake record moves to during ingest.
pub open spec fn ingest_target(alignment: i64, threshold: i64) -> IntentState {
    if admits(alignment, threshold) {
        IntentState::Queued
    } else {
        IntentState::Deferred
    }
}

/// Where each intake record goes: at or above the threshold to the queue,
/// below it to the deferred area.
pub fn plan_ingest(records: &Vec<Intent>, threshold: i64) -> (r: Vec<IntentState>)
    ensures
        r@.len() == records@.len(),
        forall|i: int|
            0 <= i < r@.len() ==> r@[i] == ingest_target(
                #[trigger] records@[i].telos_alignment,
                threshold,
            ),
{
    let mut out: Vec<IntentState> = Vec::new();
    let mut i: usize = 0;
    while i < records.len()
        invariant
            i <= records@.len(),
            out@.len() == i,
            forall|j: int|
                0 <= j < i ==> out@[j] == ingest_target(#[trigger] records@[j].telos_alignment, threshold),
        decreases records@.len() - i,
    {
        if records[i].telos_alignment >= threshold {
            out.push(IntentState::Queued);
        } else {
            out.push(IntentState::Deferred);
        }
        i += 1;
    }
    out
}

/// The intent as it stands once its file is at `path`.
pub open spec fn relocated(intent: Intent, path: String) -> Intent {
    Intent { storage_path: Some(path), ..intent }
}

/// The intents that an ingest pass enqueues, in scan order: those admitted
/// whose file reached the queue directory (`moved[i]` is its new path).
pub open spec fn enqueued(records: Seq<Intent>, moved: Seq<Option<String>>, threshold: i64) -> Seq<
    Intent,
>
    decreases records.len(),
{
    if records.len() == 0 || moved.len() == 0 {
        Seq::empty()
    } else {
        let rest = enqueued(records.drop_first(), moved.drop_first(), threshold);
        if admits(records[0].telos_alignment, threshold) && moved[0] is Some {
            seq![relocated(records[0], moved[0]->0)] + rest
        } else {
            rest
        }
    }
}

/// Pushes, in scan order, the admitted records whose relocation succeeded.
/// A record whose move failed is skipped; it does not stop the others.
pub fn commit_ingest(
    queue: &mut IntentQueue,
    records: Vec<Intent>,
    moved: Vec<Option<String>>,
    threshold: i64,
)
    requires
        records@.len() == moved@.len(),
    ensures
        final(queue)@ == old(queue)@ + enqueued(records@, moved@, threshold),
{
    let mut records = records;
    let mut moved = moved;
    let ghost all_records = records@;
    let ghost all_moved = moved@;
    let ghost start = queue@;
    let ghost mut done: nat = 0;
    while records.len() > 0
        invariant
            records@.len() == moved@.len(),
            done + records@.len() == all_records.len(),
            records@ == all_records.subrange(done as int, all_records.len() as int),
            moved@ == all_moved.subrange(done as int, all_moved.len() as int),
            all_records.len() == all_moved.len(),
            start + enqueued(all_records, all_moved, threshold) == queue@ + enqueued(
                records@,
                moved@,
                threshold,
            ),
        decreases records@.len(),
    {
        let ghost before = queue@;
        let ghost rs = records@;
        let ghost ms = moved@;
        let record = records.remove(0);
        let target = moved.remove(0);
        assert(records@ =~= rs.drop_first());
        assert(moved@ =~= ms.drop_first());
        if record.telos_alignment >= threshold {
            match target {
                Some(path) => {
                    let intent = Intent { storage_path: Some(path), ..record };
                    queue.push(intent);
                    assert(seq![intent] + enqueued(records@, moved@, threshold) == enqueued(
                        rs,
                        ms,
                        threshold,
                    ));
                    assert(queue@ + enqueued(records@, moved@, threshold) =~= before + enqueued(
                        rs,
                        ms,
                        threshold,
                    ));
                },
                None => {},
            }
        }
        proof {
            done = done + 1;
            assert(records@ =~= all_records.subrange(done as int, all_records.len() as int));
            assert(moved@ =~= all_moved.subrange(done as int, all_moved.len() as int));
        }
    }
    assert(enqueued(records@, moved@, threshold) == Seq::<Intent>::empty());
    assert(queue@ =~= start + enqueued(all_records, all_moved, threshold));
}

/// Ingest routes by the threshold: every intent that an ingest pass enqueues
/// was admitted and had its file moved to the queue, and every admitted
/// record whose move succeeded is enqueued, in scan order. A record below
/// the threshold is planned for the deferred area and never enqueued.
pub proof fn lemma_ingest_routes_by_threshold(
    records: Seq<Intent>,
    moved: Seq<Option<String>>,
    threshold: i64,
)
    requires
        records.len() == moved.len(),
    ensures
        forall|j: int|
            0 <= j < enqueued(records, moved, threshold).len() ==> admits(
                #[trigger] enqueued(records, moved, threshold)[j].telos_alignment,
                threshold,
            ),
        forall|i: int|
            0 <= i < records.len() && !admits(#[trigger] records[i].telos_alignment, threshold)
                ==> ingest_target(records[i].telos_alignment, threshold) == IntentState::Deferred,
        forall|i: int|
            0 <= i < records.len() && admits(#[trigger] records[i].telos_alignment, threshold)
                ==> ingest_target(records[i].telos_alignment, threshold) == IntentState::Queued,
        (forall|i: int| 0 <= i < records.len() ==> #[trigger] moved[i] is Some) ==> enqueued(
            records,
            moved,
            threshold,
        ).len() == records.filter(|r: Intent| admits(r.telos_alignment, threshold)).len(),
    decreases records.len(),
{
    if records.len() > 0 {
        lemma_ingest_routes_by_threshold(records.drop_first(), moved.drop_first(), threshold);
        let rest = enqueued(records.drop_first(), moved.drop_first(), threshold);
        let all = enqueued(records, moved, threshold);
        assert forall|j: int| 0 <= j < all.len() implies admits(
            #[trigger] all[j].telos_alignment,
            threshold,
        ) by {
            if admits(records[0].telos_alignment, threshold) && moved[0] is Some {
                if j > 0 {
                    assert(all[j] == rest[j - 1]);
                }
            } else {
                assert(all[j] == rest[j]);
            }
        }
        if forall|i: int| 0 <= i < records.len() ==> #[trigger] moved[i] is Some {
            assert forall|i: int| 0 <= i < records.len() - 1 implies #[trigger] moved.drop_first()[i] is Some by {
                assert(moved.drop_first()[i] == moved[i + 1]);
            }
            let f = |r: Intent| admits(r.telos_alignment, threshold);
            assert(records =~= seq![records[0]] + records.drop_first());
            Seq::filter_distributes_over_add(seq![records[0]], records.drop_first(), f);
            assert(moved[0] is Some);
            reveal_with_fuel(Seq::filter, 2);
        }
    } else {
        assert(records.filter(|r: Intent| admits(r.telos_alignment, threshold)) =~= Seq::<Intent>::empty());
    }
}

/// With no move failing and every record admitted, an ingest pass enqueues
/// all records in scan order: the queue serves them first in, first out.
pub proof fn lemma_ingest_keeps_scan_order(
    records: Seq<Intent>,
    moved: Seq<Option<String>>,
    threshold: i64,
)
    requires
        records.len() == moved.len(),
        forall|i: int| 0 <= i < records.len() ==> #[trigger] moved[i] is Some,
        forall|i: int| 0 <= i < records.len() ==> admits(#[trigger] records[i].telos_alignment, threshold),
    ensures
        enqueued(records, moved, threshold).len() == records.len(),
        forall|i: int|
            0 <= i < records.len() ==> #[trigger] enqueued(records, moved, threshold)[i] == relocated(
                records[i],
                moved[i]->0,
            ),
    decreases records.len(),
{
    if records.len() > 0 {
        let (r1, m1) = (records.drop_first(), moved.drop_first());
        assert forall|i: int| 0 <= i < r1.len() implies #[trigger] m1[i] is Some by {
            assert(m1[i] == moved[i + 1]);
        }
        assert forall|i: int| 0 <= i < r1.len() implies admits(#[trigger] r1[i].telos_alignment, threshold) by {
            assert(r1[i] == records[i + 1]);
        }
        lemma_ingest_keeps_scan_order(r1, m1, threshold);
        assert(moved[0] is Some);
        assert(admits(records[0].telos_alignment, threshold));
        let all = enqueued(records, moved, threshold);
        assert forall|i: int| 0 <= i < records.len() implies #[trigger] all[i] == relocated(
            records[i],
            moved[i]->0,
        ) by {
            if i > 0 {
                assert(all[i] == enqueued(r1, m1, threshold)[i - 1]);
                assert(r1[i - 1] == records[i]);
                assert(m1[i - 1] == moved[i]);
            }
        }
    }
}

/// The verdict of a drain step on one processed intent.
#[derive(Debug)]
pub enum Settlement {
    /// Processing succeeded; the intent's failure count is cleared.
    Completed,
    /// Processing failed for the `attempt`-th time; the intent went back to
    /// the front of the queue.
    Requeued { attempt: u8 },
    /// Processing failed for the last allowed time; the intent left the
    /// queue and its file must move to the failed area.
    Quarantined(Intent),
}

/// The failure counts after one processed intent, and whether it is requeued.
pub open spec fn count_after(counts: Map<u128, u8>, id: u128, succeeded: bool) -> nat {
    if succeeded {
        0
    } else if counts.contains_key(id) {
        counts[id] as nat + 1
    } else {
        1
    }
}

/// A failure count for `id` in this pass (0 when none is recorded).
pub open spec fn failures_of(counts: Map<u128, u8>, id: u128) -> nat {
    if counts.contains_key(id) {
        counts[id] as nat
    } else {
        0
    }
}

/// The counts after settling an intent: cleared on success or quarantine,
/// one more after a failure that requeues.
pub open spec fn counts_after(counts: Map<u128, u8>, max: u8, id: u128, succeeded: bool) -> Map<
    u128,
    u8,
> {
    let n = count_after(counts, id, succeeded);
    if succeeded || n >= max {
        counts.remove(id)
    } else {
        counts.insert(id, n as u8)
    }
}

/// Per-intent failure counters of one drain pass.
pub struct DrainPass {
    failures: HashMap<u128, u8>,
    max_failures: u8,
}

impl View for DrainPass {
    type V = Map<u128, u8>;

    closed spec fn view(&self) -> Map<u128, u8> {
        self.failures@
    }
}

impl DrainPass {
    pub closed spec fn max(&self) -> u8 {
        self.max_failures
    }

    /// Every recorded count is positive and below the cap.
    pub closed spec fn wf(&self) -> bool {
        &&& self.max_failures >= 1
        &&& forall|id: u128| #[trigger]
            self.failures@.contains_key(id) ==> 1 <= self.failures@[id] < self.max_failures
    }

    /// A fresh pass with no failures recorded.
    pub fn new(max_failures: u8) -> (r: DrainPass)
        requires
            max_failures >= 1,
        ensures
            r.wf(),
            r.max() == max_failures,
            r@ == Map::<u128, u8>::empty(),
    {
        DrainPass { failures: HashMap::new(), max_failures }
    }

    /// The failures recorded for `id` in this pass.
    pub fn failures(&self, id: u128) -> (r: u8)
        requires
            self.wf(),
        ensures
            r as nat == failures_of(self@, id),
    {
        match self.failures.get(&id) {
            Some(n) => *n,
            None => 0,
        }
    }

    /// Settles one processed intent: clears its count on success; on failure
    /// counts it, and either puts the intent back at the front of the queue
    /// or, at the cap, hands it back for quarantine.
    pub fn settle(&mut self, queue: &mut IntentQueue, intent: Intent, succeeded: bool) -> (r:
        Settlement)
        requires
            old(self).wf(),
        ensures
            final(self).wf(),
            final(self).max() == old(self).max(),
            final(self)@ == counts_after(old(self)@, old(self).max(), intent.id, succeeded),
            succeeded ==> r is Completed && final(queue)@ == old(queue)@,
            !succeeded && count_after(old(self)@, intent.id, false) >= old(self).max() ==> r
                == Settlement::Quarantined(intent) && final(queue)@ == old(queue)@,
            !succeeded && count_after(old(self)@, intent.id, false) < old(self).max() ==> r
                == (Settlement::Requeued {
                    attempt: count_after(old(self)@, intent.id, false) as u8,
                }) && final(queue)@ == seq![intent] + old(queue)@,
    {
        let id = intent.id;
        if succeeded {
            self.failures.remove(&id);
            assert(self.failures@ =~= old(self).failures@.remove(id));
            return Settlement::Completed;
        }
        let previous = self.failures(id);
        let count = previous + 1;
        if count >= self.max_failures {
            self.failures.remove(&id);
            assert(self.failures@ =~= old(self).failures@.remove(id));
            Settlement::Quarantined(intent)
        } else {
            self.failures.insert(id, count);
            queue.push_front(intent);
            Settlement::Requeued { attempt: count }
        }
    }
}

/// Whether one more failure of `id` puts it back in the queue (rather than
/// quarantining it).
pub open spec fn requeues_at(counts: Map<u128, u8>, max: u8, id: u128) -> bool {
    count_after(counts, id, false) < max
}

/// With the cap at three, an intent that fails three times in a row within
/// one pass is requeued after the first and second failure and quarantined
/// at the third, after which the pass holds no count for it: it is never
/// requeued a fourth time.
pub proof fn lemma_quarantined_at_third_failure(counts: Map<u128, u8>, id: u128)
    requires
        !counts.contains_key(id),
    ensures
        ({
            let max = INTENT_REQUEUE_ATTEMPTS;
            let c1 = counts_after(counts, max, id, false);
            let c2 = counts_after(c1, max, id, false);
            let c3 = counts_after(c2, max, id, false);
            &&& requeues_at(counts, max, id)
            &&& count_after(counts, id, false) == 1
            &&& requeues_at(c1, max, id)
            &&& count_after(c1, id, false) == 2
            &&& !requeues_at(c2, max, id)
            &&& count_after(c2, id, false) == 3
            &&& !c3.contains_key(id)
        }),
{
}

/// Requeue keeps the failed intent ahead of anything enqueued after the
/// failure: after requeueing `failed` on queue `q` and then pushing `later`,
/// the queue holds `failed`, then `q`, then `later`, in that order.
pub proof fn lemma_requeued_before_later(q: Seq<Intent>, failed: Intent, later: Seq<Intent>)
    ensures
        ({
            let r = (seq![failed] + q) + later;
            &&& r[0] == failed
            &&& r.len() == 1 + q.len() + later.len()
            &&& forall|i: int| 0 <= i < q.len() ==> r[1 + i] == q[i]
            &&& forall|i: int| 0 <= i < later.len() ==> r[1 + q.len() + i] == later[i]
        }),
{
}

/// Where the scheduling loop stands.
#[derive(Clone, Copy, Debug, PartialEq, Eq, Structural)]
pub enum BeatState {
    /// Waiting for the timer, a command or shutdown.
    Idle,
    Ingesting,
    Draining,
    /// Terminal.
    ShuttingDown,
}

/// What the scheduling loop observed.
#[derive(Clone, Copy, Debug, PartialEq, Eq, Structural)]
pub enum BeatEvent {
    Tick,
    BeatRequested,
    Shutdown,
    IngestFinished,
    QueueDrained,
}

/// What the scheduling loop does next.
#[derive(Clone, Copy, Debug, PartialEq, Eq, Structural)]
pub enum BeatAction {
    /// Scan the intake area and enqueue or defer what is there.
    Ingest,
    /// Process the queue until it is empty.
    Drain,
    /// Wait for the next event.
    Wait,
    /// Leave the loop.
    Stop,
}

pub open spec fn beat_next(state: BeatState, event: BeatEvent) -> (BeatState, BeatAction) {
    match (state, event) {
        (BeatState::ShuttingDown, _) => (BeatState::ShuttingDown, BeatAction::Stop),
        (BeatState::Idle, BeatEvent::Tick) => (BeatState::Ingesting, BeatAction::Ingest),
        (BeatState::Idle, BeatEvent::BeatRequested) => (BeatState::Ingesting, BeatAction::Ingest),
        (BeatState::Idle, BeatEvent::Shutdown) => (BeatState::ShuttingDown, BeatAction::Stop),
        (BeatState::Ingesting, BeatEvent::IngestFinished) => (BeatState::Draining, BeatAction::Drain),
        (BeatState::Draining, BeatEvent::QueueDrained) => (BeatState::Idle, BeatAction::Wait),
        _ => (state, BeatAction::Wait),
    }
}

/// One step of the scheduling loop. A timer tick and a beat request each
/// start a full cycle (ingest, then drain) from idle; shutdown is honoured
/// only between cycles and is final; an event that does not fit the state
/// changes nothing.
pub fn beat_step(state: BeatState, event: BeatEvent) -> (r: (BeatState, BeatAction))
    ensures
        r == beat_next(state, event),
{
    match (state, event) {
        (BeatState::ShuttingDown, _) => (BeatState::ShuttingDown, BeatAction::Stop),
        (BeatState::Idle, BeatEvent::Tick) => (BeatState::Ingesting, BeatAction::Ingest),
        (BeatState::Idle, BeatEvent::BeatRequested) => (BeatState::Ingesting, BeatAction::Ingest),
        (BeatState::Idle, BeatEvent::Shutdown) => (BeatState::ShuttingDown, BeatAction::Stop),
        (BeatState::Ingesting, BeatEvent::IngestFinished) => (BeatState::Draining, BeatAction::Drain),
        (BeatState::Draining, BeatEvent::QueueDrained) => (BeatState::Idle, BeatAction::Wait),
        _ => (state, BeatAction::Wait),
    }
}

/// A cycle in flight runs to completion: shutdown does not interrupt
/// ingest or drain, and once shutting down the loop only stops.
pub proof fn lemma_cycle_not_preempted(event: BeatEvent)
    ensures
        beat_next(BeatState::Ingesting, BeatEvent::Shutdown).0 == BeatState::Ingesting,
        beat_next(BeatState::Draining, BeatEvent::Shutdown).0 == BeatState::Draining,
        beat_next(BeatState::ShuttingDown, event) == (BeatState::ShuttingDown, BeatAction::Stop),
        beat_next(beat_next(BeatState::Idle, BeatEvent::Tick).0, BeatEvent::IngestFinished) == (
        BeatState::Draining, BeatAction::Drain),
{
}

} // verus!
