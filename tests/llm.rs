use hi_telos::llm::{extract_value, parse_usize_text, LocalStubClient, StubError};

#[test]
fn stub_returns_react_step_payload() {
    let client = LocalStubClient;
    let response = client
        .reply("# Phase: THINK\nIntent: Ship MVP\nBacklog: 4\nPersona: TelosOps\nHistory:\n(none)")
        .expect("stub should handle THINK phase");

    let parsed: serde_json::Value = serde_json::from_str(&response).unwrap();
    assert_eq!(parsed["action"], "summarize_intent");
    assert!(parsed["thought"].as_str().unwrap().contains("Ship MVP"));
    assert_eq!(parsed["observation"], "Remaining backlog count: 4");
}

#[test]
fn stub_returns_final_answer_payload() {
    let client = LocalStubClient;
    let response = client
        .reply("# Phase: FINAL\nIntent: Ship MVP\nPersona: TelosOps\nHistory:\n1. Thought")
        .expect("stub should handle FINAL phase");

    let parsed: serde_json::Value = serde_json::from_str(&response).unwrap();
    assert_eq!(
        parsed["final_answer"],
        "TelosOps completed the plan for 'Ship MVP'"
    );
}

#[test]
fn stub_rejects_unknown_phase() {
    let client = LocalStubClient;
    let err = client.reply("# Phase: PLAN").unwrap_err();
    assert_eq!(err, StubError::UnsupportedPhase);
    assert!(err
        .message()
        .contains("stub LLM only supports THINK and FINAL"));
}

#[test]
fn extract_value_reads_prefixed_line() {
    let prompt = "Intent: Build\nBacklog: 2";
    assert_eq!(extract_value(prompt, "Intent:"), Some("Build".to_string()));
    assert_eq!(extract_value(prompt, "Backlog:"), Some("2".to_string()));
    assert_eq!(extract_value(prompt, "Persona:"), None);
}

#[test]
fn stub_defaults_when_values_are_missing() {
    let client = LocalStubClient;
    let response = client.reply("# Phase: THINK\nBacklog: lots").unwrap();
    let parsed: serde_json::Value = serde_json::from_str(&response).unwrap();
    assert_eq!(
        parsed["thought"],
        "Focus on intent 'intent' using available context"
    );
    assert_eq!(parsed["observation"], "Remaining backlog count: 0");

    let response = client.reply("# Phase: FINAL").unwrap();
    let parsed: serde_json::Value = serde_json::from_str(&response).unwrap();
    assert_eq!(parsed["final_answer"], "Agent completed the plan for 'intent'");
}

#[test]
fn usize_parsing_follows_std() {
    assert_eq!(parse_usize_text("42"), Some(42));
    assert_eq!(parse_usize_text("+7"), Some(7));
    assert_eq!(parse_usize_text(""), None);
    assert_eq!(parse_usize_text("+"), None);
    assert_eq!(parse_usize_text("-1"), None);
    assert_eq!(parse_usize_text("1x"), None);
    assert_eq!(parse_usize_text("99999999999999999999999"), None);
    assert_eq!(
        parse_usize_text(&usize::MAX.to_string()),
        Some(usize::MAX)
    );
}

#[test]
fn stub_identity_names_the_stub() {
    let id = LocalStubClient.identity();
    assert_eq!(id.provider, "local_stub");
    assert_eq!(id.model.as_deref(), Some("local_stub"));
}
