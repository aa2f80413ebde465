use hi_telos::lifecycle::IntentState;
use hi_telos::orchestrator::{
    beat_step, commit_ingest, plan_ingest, BeatAction, BeatEvent, BeatState, DrainPass,
    RetryPolicy, RetryStep, Settlement, INTENT_REQUEUE_ATTEMPTS, STORAGE_RETRY_ATTEMPTS,
};
use hi_telos::tasks::{Intent, IntentQueue};
use hi_telos::timestamp::Timestamp;

fn intent(id: u128, alignment: i64) -> Intent {
    Intent {
        id,
        source: "test".to_string(),
        summary: format!("intent {id}"),
        telos_alignment: alignment,
        created_at: Timestamp {
            year: 2025,
            month: 1,
            day: 1,
            hour: 0,
            minute: 0,
            second: id as u8,
            nanos: 0,
        },
        storage_path: Some(format!("intent/inbox/{id}.md")),
    }
}

fn ids(queue: &mut IntentQueue) -> Vec<u128> {
    let mut out = Vec::new();
    while let Some(i) = queue.pop_next() {
        out.push(i.id);
    }
    out
}

#[test]
fn queue_is_fifo_with_priority_front() {
    let mut q = IntentQueue::new();
    assert!(q.is_empty());
    q.push(intent(1, 0));
    q.push(intent(2, 0));
    q.push_front(intent(3, 0));
    assert_eq!(q.len(), 3);
    assert_eq!(ids(&mut q), vec![3, 1, 2]);
    assert!(q.pop_next().is_none());
}

#[test]
fn ingest_routes_by_threshold() {
    let records = vec![intent(1, 900_000), intent(2, 300_000), intent(3, 500_000)];
    let plan = plan_ingest(&records, 500_000);
    assert_eq!(
        plan,
        vec![IntentState::Queued, IntentState::Deferred, IntentState::Queued]
    );
    let moved = vec![
        Some("intent/queue/1.md".to_string()),
        None,
        Some("intent/queue/3.md".to_string()),
    ];
    let mut q = IntentQueue::new();
    commit_ingest(&mut q, records, moved, 500_000);
    let first = q.pop_next().unwrap();
    assert_eq!(first.id, 1);
    assert_eq!(first.storage_path, Some("intent/queue/1.md".to_string()));
    assert_eq!(q.pop_next().unwrap().id, 3);
    assert!(q.pop_next().is_none());
}

#[test]
fn failed_move_is_skipped_without_stopping_ingest() {
    let records = vec![intent(1, 900_000), intent(2, 900_000)];
    let mut q = IntentQueue::new();
    commit_ingest(
        &mut q,
        records,
        vec![None, Some("intent/queue/2.md".to_string())],
        500_000,
    );
    assert_eq!(ids(&mut q), vec![2]);
}

#[test]
fn third_failure_quarantines() {
    assert_eq!(INTENT_REQUEUE_ATTEMPTS, 3);
    let mut pass = DrainPass::new(INTENT_REQUEUE_ATTEMPTS);
    let mut q = IntentQueue::new();
    q.push(intent(2, 0));
    match pass.settle(&mut q, intent(1, 0), false) {
        Settlement::Requeued { attempt } => assert_eq!(attempt, 1),
        other => panic!("unexpected {other:?}"),
    }
    let again = q.pop_next().unwrap();
    assert_eq!(again.id, 1);
    match pass.settle(&mut q, again, false) {
        Settlement::Requeued { attempt } => assert_eq!(attempt, 2),
        other => panic!("unexpected {other:?}"),
    }
    let again = q.pop_next().unwrap();
    match pass.settle(&mut q, again, false) {
        Settlement::Quarantined(i) => assert_eq!(i.id, 1),
        other => panic!("unexpected {other:?}"),
    }
    assert_eq!(pass.failures(1), 0);
    assert_eq!(ids(&mut q), vec![2]);
}

#[test]
fn success_clears_the_count() {
    let mut pass = DrainPass::new(3);
    let mut q = IntentQueue::new();
    pass.settle(&mut q, intent(1, 0), false);
    assert_eq!(pass.failures(1), 1);
    let again = q.pop_next().unwrap();
    assert!(matches!(
        pass.settle(&mut q, again, true),
        Settlement::Completed
    ));
    assert_eq!(pass.failures(1), 0);
    assert!(q.is_empty());
}

#[test]
fn storage_retry_policy_gives_three_attempts() {
    let p = RetryPolicy::storage();
    assert_eq!(p.attempts, STORAGE_RETRY_ATTEMPTS);
    assert_eq!(
        p.after_failure(1),
        RetryStep::Retry {
            attempt: 1,
            delay_ms: 200
        }
    );
    assert_eq!(
        p.after_failure(2),
        RetryStep::Retry {
            attempt: 2,
            delay_ms: 200
        }
    );
    assert_eq!(p.after_failure(3), RetryStep::GiveUp);
}

#[test]
fn beat_cycle_and_shutdown() {
    assert_eq!(
        beat_step(BeatState::Idle, BeatEvent::Tick),
        (BeatState::Ingesting, BeatAction::Ingest)
    );
    assert_eq!(
        beat_step(BeatState::Idle, BeatEvent::BeatRequested),
        (BeatState::Ingesting, BeatAction::Ingest)
    );
    assert_eq!(
        beat_step(BeatState::Ingesting, BeatEvent::Shutdown),
        (BeatState::Ingesting, BeatAction::Wait)
    );
    assert_eq!(
        beat_step(BeatState::Ingesting, BeatEvent::IngestFinished),
        (BeatState::Draining, BeatAction::Drain)
    );
    assert_eq!(
        beat_step(BeatState::Draining, BeatEvent::QueueDrained),
        (BeatState::Idle, BeatAction::Wait)
    );
    assert_eq!(
        beat_step(BeatState::Idle, BeatEvent::Shutdown),
        (BeatState::ShuttingDown, BeatAction::Stop)
    );
    assert_eq!(
        beat_step(BeatState::ShuttingDown, BeatEvent::Tick),
        (BeatState::ShuttingDown, BeatAction::Stop)
    );
}
