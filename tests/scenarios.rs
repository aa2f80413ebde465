use hi_telos::agent::{AgentConfig, AgentRuntime, AgentStep};
use hi_telos::lifecycle::{archive, quarantine, ArchiveStep, IntentState};
use hi_telos::llm::LocalStubClient;
use hi_telos::orchestrator::{
    commit_ingest, plan_ingest, DrainPass, Settlement, INTENT_REQUEUE_ATTEMPTS,
};
use hi_telos::records::journal_entry;
use hi_telos::tasks::{Intent, IntentQueue};
use hi_telos::timestamp::Timestamp;
use hi_telos::usage::UsageIndex;

const THRESHOLD: i64 = 500_000;

fn now() -> Timestamp {
    Timestamp {
        year: 2025,
        month: 6,
        day: 1,
        hour: 12,
        minute: 0,
        second: 0,
        nanos: 0,
    }
}

fn submitted(alignment: i64) -> Intent {
    Intent {
        id: 42,
        source: "tester".to_string(),
        summary: "Process inbox intent".to_string(),
        telos_alignment: alignment,
        created_at: now(),
        storage_path: Some("intent/inbox/a.md".to_string()),
    }
}

/// Ingests the single intake record; returns its new state.
fn ingest(queue: &mut IntentQueue, intent: Intent) -> IntentState {
    let records = vec![intent];
    let plan = plan_ingest(&records, THRESHOLD);
    let target = plan[0];
    let moved = vec![match target {
        IntentState::Queued => Some("intent/queue/a.md".to_string()),
        _ => None,
    }];
    commit_ingest(queue, records, moved, THRESHOLD);
    target
}

fn run_agent(intent: &Intent, backlog: usize) -> (Vec<AgentStep>, String) {
    let runtime = AgentRuntime::new(AgentConfig {
        max_react_steps: 1,
        persona: "TelosOps".to_string(),
    });
    let stub = LocalStubClient;
    let mut steps = Vec::new();
    for i in 0..runtime.step_count() {
        let prompt = runtime.think_prompt(&intent.summary, backlog, i, &steps);
        let raw = stub.reply(&prompt).unwrap();
        let v: serde_json::Value = serde_json::from_str(&raw).unwrap();
        steps.push(AgentStep {
            thought: v["thought"].as_str().unwrap().to_string(),
            action: v["action"].as_str().unwrap().to_string(),
            observation: v["observation"].as_str().unwrap().to_string(),
        });
    }
    let raw = stub.reply(&runtime.final_prompt(&intent.summary, &steps)).unwrap();
    let v: serde_json::Value = serde_json::from_str(&raw).unwrap();
    (steps, v["final_answer"].as_str().unwrap().to_string())
}

#[test]
fn admitted_intent_is_archived_with_journal_and_usage() {
    let mut queue = IntentQueue::new();
    let mut state = ingest(&mut queue, submitted(900_000));
    assert_eq!(state, IntentState::Queued);

    let mut journal = Vec::new();
    let mut index = UsageIndex::new();
    let mut pass = DrainPass::new(INTENT_REQUEUE_ATTEMPTS);
    while let Some(intent) = queue.pop_next() {
        let (steps, answer) = run_agent(&intent, queue.len());
        journal.push(journal_entry(&now(), &intent.summary, &answer, &steps));
        index.record_completion(&intent.summary, &answer, now());
        assert_eq!(archive(Some(state)), Ok(ArchiveStep::Move));
        state = IntentState::Archived;
        assert!(matches!(
            pass.settle(&mut queue, intent, true),
            Settlement::Completed
        ));
    }

    assert_eq!(state, IntentState::Archived);
    assert!(queue.is_empty());
    assert_eq!(journal.len(), 1);
    assert!(journal[0]
        .contains("Final answer: TelosOps completed the plan for 'Process inbox intent'"));
    assert_eq!(index.top_used.len(), 1);
    assert_eq!(index.top_used[0].count, 1);
    assert_eq!(index.most_recent.len(), 1);
}

#[test]
fn low_alignment_intent_is_deferred_and_not_drained() {
    let mut queue = IntentQueue::new();
    let state = ingest(&mut queue, submitted(300_000));
    assert_eq!(state, IntentState::Deferred);
    assert!(queue.is_empty());
    assert!(queue.pop_next().is_none());
}

#[test]
fn always_failing_collaborator_quarantines_after_one_pass() {
    let mut queue = IntentQueue::new();
    let mut state = ingest(&mut queue, submitted(900_000));
    let mut pass = DrainPass::new(INTENT_REQUEUE_ATTEMPTS);
    let mut attempts = 0;
    while let Some(intent) = queue.pop_next() {
        attempts += 1;
        match pass.settle(&mut queue, intent, false) {
            Settlement::Quarantined(i) => {
                assert_eq!(i.storage_path, Some("intent/queue/a.md".to_string()));
                state = quarantine(state).unwrap();
            }
            Settlement::Requeued { .. } => {}
            Settlement::Completed => panic!("nothing succeeds"),
        }
    }
    assert_eq!(attempts, 3);
    assert_eq!(state, IntentState::Failed);
    assert!(queue.is_empty());
}
