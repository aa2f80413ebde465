use hi_telos::agent::{format_history, AgentConfig, AgentRuntime, AgentStep};

fn step(thought: &str, action: &str, observation: &str) -> AgentStep {
    AgentStep {
        thought: thought.to_string(),
        action: action.to_string(),
        observation: observation.to_string(),
    }
}

#[test]
fn history_formats_steps() {
    let steps = vec![
        step("Consider constraints", "review_context", "Remaining backlog count: 2"),
        step("Outline deliverables", "summarize_intent", "Remaining backlog count: 1"),
    ];

    let formatted = format_history(&steps);
    assert!(formatted.contains("1. Thought: Consider constraints"));
    assert!(formatted.contains("Action: summarize_intent"));
    assert!(!formatted.contains("(none)"));
}

#[test]
fn history_defaults_to_none_when_empty() {
    assert_eq!(format_history(&[]), "(none)");
}

#[test]
fn history_lines_are_numbered_and_trimmed() {
    let steps = vec![step("a", "b", "c"), step("d", "e", "f ")];
    assert_eq!(
        format_history(&steps),
        "1. Thought: a | Action: b | Observation: c\n2. Thought: d | Action: e | Observation: f"
    );
}

#[test]
fn prompts_state_intent_backlog_persona_and_history() {
    let runtime = AgentRuntime::new(AgentConfig {
        max_react_steps: 0,
        persona: "TelosOps".to_string(),
    });
    assert_eq!(runtime.step_count(), 1);
    let think = runtime.think_prompt("Ship MVP", 4, 0, &Vec::new());
    assert_eq!(
        think,
        "# Phase: THINK\nIntent: Ship MVP\nBacklog: 4\nPersona: TelosOps\nStep: 1\nHistory:\n(none)\nRespond with JSON containing thought, action, observation."
    );
    let fin = runtime.final_prompt("Ship MVP", &vec![step("t", "a", "o")]);
    assert_eq!(
        fin,
        "# Phase: FINAL\nIntent: Ship MVP\nPersona: TelosOps\nHistory:\n1. Thought: t | Action: a | Observation: o\nRespond with JSON containing final_answer."
    );
}

#[test]
fn step_count_follows_configuration() {
    let runtime = AgentRuntime::new(AgentConfig {
        max_react_steps: 3,
        persona: "P".to_string(),
    });
    assert_eq!(runtime.step_count(), 3);
}
