use hi_telos::agent::AgentStep;
use hi_telos::lifecycle::{
    archive, defer, promote, quarantine, ArchiveStep, IntentState, TransitionError,
};
use hi_telos::paths::{sanitize_data_relative_path, PathError};
use hi_telos::records::{
    header_block_of, intent_document, intent_file_name, intent_from_header, journal_entry,
    journal_path, order_by_creation, IntentHeader,
};
use hi_telos::tasks::Intent;
use hi_telos::timestamp::Timestamp;
use hi_telos::usage::{sp_index_of, SpEntry, UsageIndex};

fn at(year: i32, month: u8, day: u8, hour: u8, minute: u8, second: u8) -> Timestamp {
    Timestamp {
        year,
        month,
        day,
        hour,
        minute,
        second,
        nanos: 0,
    }
}

fn intent(id: u128, summary: &str, created_at: Timestamp) -> Intent {
    Intent {
        id,
        source: "unit-test".to_string(),
        summary: summary.to_string(),
        telos_alignment: 900_000,
        created_at,
        storage_path: None,
    }
}

fn sample_steps() -> Vec<AgentStep> {
    vec![AgentStep {
        thought: "Collect context".to_string(),
        action: "summarize_intent".to_string(),
        observation: "Remaining backlog count: 1".to_string(),
    }]
}

#[test]
fn sanitize_rejects_traversal_and_accepts_relative() {
    assert!(sanitize_data_relative_path("journals/2025/01/01.md").is_ok());
    assert!(sanitize_data_relative_path("../secret.md").is_err());
    assert!(sanitize_data_relative_path("").is_err());
}

#[test]
fn sanitize_normalises_segments() {
    assert_eq!(
        sanitize_data_relative_path("./journals//2025/./01.md"),
        Ok("journals/2025/01.md".to_string())
    );
    assert_eq!(
        sanitize_data_relative_path("/etc/passwd"),
        Err(PathError::Absolute)
    );
    assert_eq!(
        sanitize_data_relative_path("a/../b"),
        Err(PathError::ParentSegment)
    );
    assert_eq!(sanitize_data_relative_path("./."), Err(PathError::Empty));
}

#[test]
fn append_journal_entry_persists_trace() {
    let now = at(2025, 1, 2, 3, 4, 5);
    let entry = journal_entry(&now, "Write summary", "Done", &sample_steps());
    assert!(entry.contains("Final answer: Done"));
    assert!(entry.contains("ReAct trace"));
    assert_eq!(
        entry,
        "## 03:04:05 — Write summary\n\nIntent processed: Write summary\nFinal answer: Done\n\n### ReAct trace\n1. Thought: Collect context\n   Action: summarize_intent\n   Observation: Remaining backlog count: 1\n"
    );
    assert_eq!(journal_path(&now), "journals/2025/01/02.md");
}

#[test]
fn journal_entry_without_steps_says_so() {
    let now = at(2024, 12, 31, 23, 59, 58);
    let entry = journal_entry(&now, "S", "F", &Vec::new());
    assert!(entry.ends_with("### ReAct trace\n(no ReAct steps recorded)\n"));
}

#[test]
fn update_sp_index_increments_counts_and_recent() {
    let mut index = UsageIndex::new();
    index.record_completion("Write summary", "Done", at(2025, 1, 1, 0, 0, 1));
    index.record_completion("Write summary", "Done", at(2025, 1, 1, 0, 0, 2));

    assert_eq!(index.top_used.len(), 1);
    assert_eq!(index.top_used[0].count, 2);
    assert!(index.top_used[0].summary.contains("Write summary ⇒ Done"));
    assert_eq!(index.most_recent.len(), 1);
    assert!(index.most_recent[0].summary.contains("Write summary ⇒ Done"));
}

#[test]
fn usage_lists_order_and_cap() {
    let mut index = UsageIndex::new();
    for i in 0..12u8 {
        index.record_completion(&format!("task {i}"), "ok", at(2025, 1, 1, 0, 0, i));
    }
    index.record_completion("task 3", "ok", at(2025, 1, 1, 0, 1, 0));
    assert_eq!(index.top_used.len(), 10);
    assert_eq!(index.top_used[0].summary, "task 3 ⇒ ok");
    assert_eq!(index.top_used[0].count, 2);
    assert_eq!(index.top_used[1].summary, "task 11 ⇒ ok");
    assert_eq!(index.most_recent.len(), 10);
    assert_eq!(index.most_recent[0].summary, "task 3 ⇒ ok");
    assert_eq!(index.most_recent[1].summary, "task 11 ⇒ ok");
    assert_eq!(index.most_recent[9].summary, "task 2 ⇒ ok");

    let listing = sp_index_of(&index);
    assert_eq!(listing.top_used[0], "task 3 ⇒ ok (2)");
    assert_eq!(listing.most_recent[0], "task 3 ⇒ ok");
}

#[test]
fn usage_count_saturates() {
    let mut index = UsageIndex::new();
    index.top_used.push(SpEntry {
        summary: "a ⇒ b".to_string(),
        count: u32::MAX,
        last_seen: at(2025, 1, 1, 0, 0, 0),
    });
    index.record_completion("a", "b", at(2025, 1, 1, 0, 0, 1));
    assert_eq!(index.top_used[0].count, u32::MAX);
}

#[test]
fn persist_intent_writes_markdown_front_matter() {
    let yaml = "---\nsource: cli\nsummary: Launch sequence\n...\n";
    let content = intent_document(yaml, "## body\ncontent");
    assert!(content.contains("summary: Launch sequence"));
    assert!(content.contains("## body"));
    assert_eq!(
        content,
        "---\nsource: cli\nsummary: Launch sequence\n---\n\n## body\ncontent\n"
    );
    assert_eq!(intent_document("", ""), "---\n---\n\n");
}

#[test]
fn intent_file_names_encode_time_and_id() {
    let name = intent_file_name(&at(2024, 1, 1, 0, 0, 0), 1);
    assert_eq!(
        name,
        "20240101T000000-00000000-0000-0000-0000-000000000001.md"
    );
    let name = intent_file_name(
        &at(2025, 11, 9, 8, 7, 6),
        0x0123_4567_89ab_cdef_fedc_ba98_7654_3210,
    );
    assert_eq!(
        name,
        "20251109T080706-01234567-89ab-cdef-fedc-ba9876543210.md"
    );
}

#[test]
fn header_block_reads_fenced_and_bare_headers() {
    assert_eq!(
        header_block_of("\n---\r\nsummary: x\nsource: y\n---\nbody"),
        Some("summary: x\nsource: y".to_string())
    );
    assert_eq!(
        header_block_of("summary: x\n\nbody text"),
        Some("summary: x".to_string())
    );
    assert_eq!(header_block_of("---\n  \n---\nbody"), None);
    assert_eq!(
        header_block_of("---\n---\nbody"),
        Some("---\nbody".to_string())
    );
    assert_eq!(header_block_of("   "), None);
}

#[test]
fn header_defaults_fill_missing_fields() {
    let now = at(2025, 3, 4, 5, 6, 7);
    let i = intent_from_header(IntentHeader::empty(), "stem", "p".to_string(), 9, now);
    assert_eq!(i.id, 9);
    assert_eq!(i.source, "unknown");
    assert_eq!(i.summary, "stem");
    assert_eq!(i.telos_alignment, 0);
    assert_eq!(i.created_at, now);
    assert_eq!(i.storage_path, Some("p".to_string()));
}

#[test]
fn records_are_ordered_by_creation() {
    let recs = vec![
        intent(1, "late", at(2025, 1, 2, 0, 0, 0)),
        intent(2, "early", at(2024, 12, 31, 0, 0, 0)),
        intent(3, "late too", at(2025, 1, 2, 0, 0, 0)),
    ];
    let ordered: Vec<u128> = order_by_creation(recs).iter().map(|i| i.id).collect();
    assert_eq!(ordered, vec![2, 1, 3]);
}

#[test]
fn lifecycle_transitions_follow_the_edges() {
    assert_eq!(promote(IntentState::Inbox), Ok(IntentState::Queued));
    assert_eq!(defer(IntentState::Inbox), Ok(IntentState::Deferred));
    assert_eq!(quarantine(IntentState::Queued), Ok(IntentState::Failed));
    assert_eq!(
        promote(IntentState::Deferred),
        Err(TransitionError {
            from: IntentState::Deferred,
            to: IntentState::Queued
        })
    );
    assert!(quarantine(IntentState::Inbox).is_err());
    assert_eq!(IntentState::Failed.dir(), "intent/queue/failed");
    assert_eq!(IntentState::Deferred.dir(), "intent/inbox/deferred");
}

#[test]
fn archive_is_idempotent_once_the_file_is_gone() {
    assert_eq!(archive(Some(IntentState::Queued)), Ok(ArchiveStep::Move));
    assert_eq!(archive(None), Ok(ArchiveStep::Nothing));
    assert_eq!(archive(None), Ok(ArchiveStep::Nothing));
    assert!(archive(Some(IntentState::Inbox)).is_err());
}
