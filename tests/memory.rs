use hi_telos::agent::{AgentOutcome, AgentStep};
use hi_telos::memory::{
    derive_tags, memory_l1_entry, parse_memory_level, rollup_day, select_memories, to_anchor,
    truncate, MemoryAnchor, MemoryEntry, MemoryLevel, MemoryQuery,
};
use hi_telos::tasks::Intent;
use hi_telos::timestamp::Timestamp;

fn at(hour: u8) -> Timestamp {
    Timestamp {
        year: 2025,
        month: 1,
        day: 1,
        hour,
        minute: 0,
        second: 0,
        nanos: 0,
    }
}

fn sample_intent(id: u128, summary: &str) -> Intent {
    Intent {
        id,
        source: "telegram".to_string(),
        summary: summary.to_string(),
        telos_alignment: 900_000,
        created_at: at(0),
        storage_path: None,
    }
}

fn outcome(final_answer: &str) -> AgentOutcome {
    AgentOutcome {
        steps: vec![AgentStep {
            thought: "review context".to_string(),
            action: "summarize".to_string(),
            observation: "Wrote outline".to_string(),
        }],
        final_answer: final_answer.to_string(),
    }
}

fn anchor_paths(e: &MemoryEntry) -> Vec<String> {
    e.anchors.iter().map(|a| a.path.clone()).collect()
}

#[test]
fn ingest_builds_l1_and_l2_records() {
    let data_dir = "/tmp/data";
    let intent = sample_intent(7, "Draft weekly report");
    let l1 = memory_l1_entry(
        data_dir,
        &intent,
        &outcome("Outlined next steps"),
        "/tmp/data/journals/2025/01/01.md",
        Some("/tmp/data/intent/history/intent.md"),
        100,
        at(9),
    );
    assert_eq!(l1.level, MemoryLevel::L1);
    assert!(l1.anchors.iter().any(|a| a.path.contains("intent/history")));
    assert_eq!(l1.summary, "Draft weekly report ⇒ Outlined next steps");
    assert_eq!(
        l1.details,
        vec![
            "Source: telegram".to_string(),
            "Final: Outlined next steps".to_string(),
            "First observation: Wrote outline".to_string()
        ]
    );
    assert_eq!(l1.related_intents, vec![7]);

    let l2 = rollup_day(&vec![l1], None, 555, &at(0), &at(10)).expect("rollup");
    assert_eq!(l2.level, MemoryLevel::L2);
    assert_eq!(l2.id, 555);
    assert!(!l2.details.is_empty());
    assert_eq!(l2.summary, "1 memories on 2025-01-01");
}

#[test]
fn rollup_keeps_id_and_unions_sets() {
    let a = memory_l1_entry(
        "/d",
        &sample_intent(1, "Plan launch tasks"),
        &outcome("ok"),
        "/d/journals/2025/01/01.md",
        None,
        11,
        at(1),
    );
    let b = memory_l1_entry(
        "/d",
        &sample_intent(2, "Plan review"),
        &outcome("fine"),
        "/d/journals/2025/01/01.md",
        Some("/d/intent/history/b.md"),
        12,
        at(2),
    );
    let first = rollup_day(&vec![a.clone()], None, 900, &at(0), &at(3)).unwrap();
    let second = rollup_day(
        &vec![a, b],
        Some((first.id, first.created_at)),
        901,
        &at(0),
        &at(4),
    )
    .unwrap();
    assert_eq!(second.id, 900);
    assert_eq!(second.created_at, first.created_at);
    assert_eq!(second.summary, "2 memories on 2025-01-01");
    let mut paths = anchor_paths(&second);
    paths.sort();
    assert_eq!(
        paths,
        vec![
            "intent/history/b.md".to_string(),
            "journals/2025/01/01.md".to_string()
        ]
    );
    let mut tags = second.tags.clone();
    tags.sort();
    assert_eq!(
        tags,
        vec![
            "launch".to_string(),
            "plan".to_string(),
            "review".to_string(),
            "tasks".to_string(),
            "telegram".to_string()
        ]
    );
    let mut related = second.related_intents.clone();
    related.sort();
    assert_eq!(related, vec![1, 2]);
    assert!(rollup_day(&Vec::new(), None, 1, &at(0), &at(0)).is_none());
}

#[test]
fn rollup_details_are_the_union_of_entry_details() {
    let entries: Vec<MemoryEntry> = (0..8u8)
        .map(|i| {
            memory_l1_entry(
                "/d",
                &sample_intent(i as u128, &format!("item{i}")),
                &outcome(if i % 2 == 0 { "x" } else { "y" }),
                "/elsewhere/j.md",
                None,
                i as u128,
                at(i),
            )
        })
        .collect();
    let l2 = rollup_day(&entries, None, 5, &at(0), &at(12)).unwrap();
    assert_eq!(
        l2.details,
        vec![
            "Source: telegram".to_string(),
            "Final: x".to_string(),
            "First observation: Wrote outline".to_string(),
            "Final: y".to_string()
        ]
    );
    assert!(l2.anchors.is_empty());
    assert_eq!(l2.created_at, at(0));

    let mut one = memory_l1_entry("/d", &sample_intent(1, "s"), &outcome("z"), "/d/j.md", None, 1, at(1));
    one.details = vec!["x".to_string(), "x".to_string()];
    let l2 = rollup_day(&vec![one], None, 9, &at(0), &at(2)).unwrap();
    assert_eq!(l2.details, vec!["x".to_string()]);
}

#[test]
fn rollup_anchors_keep_first_occurrence_order() {
    let a = memory_l1_entry(
        "/d",
        &sample_intent(1, "a"),
        &outcome("x"),
        "/d/journals/2025/01/01.md",
        Some("/d/intent/history/a.md"),
        1,
        at(1),
    );
    let b = memory_l1_entry(
        "/d",
        &sample_intent(2, "b"),
        &outcome("x"),
        "/d/journals/2025/01/01.md",
        Some("/d/intent/history/b.md"),
        2,
        at(2),
    );
    let l2 = rollup_day(&vec![a, b], None, 3, &at(0), &at(3)).unwrap();
    assert_eq!(
        anchor_paths(&l2),
        vec![
            "intent/history/a.md".to_string(),
            "journals/2025/01/01.md".to_string(),
            "intent/history/b.md".to_string()
        ]
    );
}

#[test]
fn tags_are_lowercased_trimmed_and_capped() {
    let mut i = sample_intent(1, "Ship the NEW, shiny! MVP at #dawn: ok alpha beta gamma delta");
    i.source = "CLI".to_string();
    let tags = derive_tags(&i);
    assert_eq!(
        tags,
        vec![
            "cli".to_string(),
            "ship".to_string(),
            "the".to_string(),
            "new".to_string(),
            "shiny".to_string(),
            "mvp".to_string(),
            "dawn".to_string(),
            "alpha".to_string()
        ]
    );
}

#[test]
fn truncate_marks_cut_text() {
    assert_eq!(truncate("short", 160), "short");
    assert_eq!(truncate("abcdef", 3), "abc…");
    assert_eq!(truncate("日本語", 4), "日…");
}

#[test]
fn anchors_are_relative_to_the_data_directory() {
    let a: MemoryAnchor = to_anchor("/data/", "journals", "/data/journals/x.md").unwrap();
    assert_eq!(a.label, "journals");
    assert_eq!(a.path, "journals/x.md");
    assert!(to_anchor("/data", "journals", "/database/x.md").is_none());
}

#[test]
fn memory_levels_parse_in_any_case() {
    assert_eq!(parse_memory_level("l1"), Some(MemoryLevel::L1));
    assert_eq!(parse_memory_level("L2"), Some(MemoryLevel::L2));
    assert_eq!(parse_memory_level("L3"), None);
    assert_eq!(parse_memory_level(""), None);
}

#[test]
fn memory_selection_filters_sorts_and_limits() {
    let make = |id: u128, hour: u8, summary: &str| {
        memory_l1_entry("/d", &sample_intent(id, summary), &outcome("x"), "/d/j.md", None, id, at(hour))
    };
    let entries = vec![
        make(1, 3, "alpha work"),
        make(2, 5, "beta work"),
        make(3, 5, "Alpha again"),
        make(4, 1, "alpha early"),
    ];
    let mut q = MemoryQuery::new();
    q.level = MemoryLevel::L1;
    q.tag = Some("ALPHA".to_string());
    q.since = Some(at(2));
    let ids: Vec<u128> = select_memories(entries.clone(), &q).iter().map(|e| e.id).collect();
    assert_eq!(ids, vec![3, 1]);
    let mut all = MemoryQuery::new();
    all.limit = 3;
    let ids: Vec<u128> = select_memories(entries, &all).iter().map(|e| e.id).collect();
    assert_eq!(ids, vec![2, 3, 1]);
}
