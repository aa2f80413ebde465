use hi_telos::dashboard::{
    list_markdown_tree, markdown_body, select_logs, LlmLogQuery, LogHeader, MarkdownBody,
};
use hi_telos::timestamp::Timestamp;

fn at(second: u8) -> Timestamp {
    Timestamp {
        year: 2025,
        month: 1,
        day: 1,
        hour: 0,
        minute: 0,
        second,
        nanos: 0,
    }
}

fn header(phase: &str, run_id: u128, second: u8) -> LogHeader {
    LogHeader {
        model: Some("local_stub".to_string()),
        phase: phase.to_string(),
        run_id,
        at: at(second),
    }
}

#[test]
fn list_tree_and_read_markdown_file() {
    let files = vec!["/tmp/data/intent/history/example.md".to_string()];
    let tree = list_markdown_tree("/tmp/data", &files);
    assert_eq!(tree, vec!["intent/history/example.md".to_string()]);
}

#[test]
fn markdown_tree_is_sorted_and_relative() {
    let files = vec![
        "/d/journals/2025/01/02.md".to_string(),
        "/elsewhere/x.md".to_string(),
        "/d/intent/history/b.md".to_string(),
        "/d/journals/2025/01/01.md".to_string(),
    ];
    assert_eq!(
        list_markdown_tree("/d/", &files),
        vec![
            "intent/history/b.md".to_string(),
            "journals/2025/01/01.md".to_string(),
            "journals/2025/01/02.md".to_string()
        ]
    );
}

#[test]
fn append_and_read_llm_logs() {
    let newest_first = vec![header("FINAL", 7, 2), header("THINK", 7, 1)];
    let mut by_run = LlmLogQuery::new();
    by_run.run_id = Some(7);
    by_run.limit = 10;
    assert_eq!(select_logs(&by_run, &newest_first), vec![0, 1]);

    let mut recent_only = LlmLogQuery::new();
    recent_only.phase = Some("final".to_string());
    recent_only.limit = 1;
    assert_eq!(select_logs(&recent_only, &newest_first), vec![0]);
}

#[test]
fn log_filters_combine() {
    let logs = vec![
        header("THINK", 1, 5),
        header("THINK", 2, 4),
        header("final", 1, 3),
        LogHeader {
            model: None,
            phase: "THINK".to_string(),
            run_id: 1,
            at: at(2),
        },
    ];
    let mut q = LlmLogQuery::new();
    q.model = Some("LOCAL_STUB".to_string());
    q.since = Some(at(3));
    q.limit = 0;
    assert_eq!(select_logs(&q, &logs), vec![0, 1, 2]);
    q.run_id = Some(1);
    assert_eq!(select_logs(&q, &logs), vec![0, 2]);
    assert!(select_logs(&LlmLogQuery::new(), &Vec::new()).is_empty());
}

#[test]
fn markdown_renders_on_request() {
    match markdown_body("# Heading\nBody".to_string(), true) {
        MarkdownBody::Html(html) => assert!(html.contains("<h1>Heading</h1>")),
        other => panic!("unexpected {other:?}"),
    }
    match markdown_body("# Heading".to_string(), false) {
        MarkdownBody::Raw(text) => assert_eq!(text, "# Heading"),
        other => panic!("unexpected {other:?}"),
    }
}
