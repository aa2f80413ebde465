use vstd::prelude::*;

use vstd::string::StringExecFns;

use crate::text::{append_chars, append_str, decimal, decimal_chars, string_of, trim, trimmed};

verus! {

/// One reasoning step of the agent.
#[derive(Clone, Debug)]
pub struct AgentStep {
    pub thought: String,
    pub action: String,
    pub observation: String,
}

/// The final-phase payload of the agent.
#[derive(Clone, Debug)]
pub struct FinalAnswer {
    pub final_answer: String,
}

/// What the reasoning collaborator produced for one intent.
#[derive(Clone, Debug)]
pub struct AgentOutcome {
    pub steps: Vec<AgentStep>,
    pub final_answer: String,
}

/// How the agent reasons: the number of think steps and the persona it
/// speaks as.
#[derive(Clone, Debug)]
pub struct AgentConfig {
    pub max_react_steps: usize,
    pub persona: String,
}

/// The agent runtime: its configuration. The reasoning collaborator it calls
/// is supplied by the caller with each run.
#[derive(Debug)]
pub struct AgentRuntime {
    pub config: AgentConfig,
}

impl AgentRuntime {
    pub fn new(config: AgentConfig) -> (r: AgentRuntime)
        ensures
            r.config.max_react_steps == config.max_react_steps,
            r.config.persona@ == config.persona@,
    {
        AgentRuntime { config }
    }

    /// Think steps per run: the configured number, at least one.
    pub fn step_count(&self) -> (r: usize)
        ensures
            r == if self.config.max_react_steps >= 1 {
                self.config.max_react_steps
            } else {
                1
            },
    {
        if self.config.max_react_steps >= 1 {
            self.config.max_react_steps
        } else {
            1
        }
    }

    /// The prompt of think step `step_index` (counted from 0).
    pub fn think_prompt(
        &self,
        intent_summary: &str,
        backlog_size: usize,
        step_index: usize,
        steps: &Vec<AgentStep>,
    ) -> (r: String)
        requires
            step_index < usize::MAX,
        ensures
            r@ == think_prompt_text(
                intent_summary@,
                backlog_size as nat,
                self.config.persona@,
                step_index as nat,
                history_text(steps@),
            ),
    {
        let history = format_history(steps.as_slice());
        let mut p: Vec<char> = Vec::new();
        append_str(&mut p, "# Phase: THINK\nIntent: ");
        append_str(&mut p, intent_summary);
        append_str(&mut p, "\nBacklog: ");
        let b = decimal_chars(backlog_size as u64);
        append_chars(&mut p, &b);
        append_str(&mut p, "\nPersona: ");
        append_str(&mut p, self.config.persona.as_str());
        append_str(&mut p, "\nStep: ");
        let s = decimal_chars((step_index + 1) as u64);
        append_chars(&mut p, &s);
        append_str(&mut p, "\nHistory:\n");
        append_str(&mut p, history.as_str());
        append_str(&mut p, "\nRespond with JSON containing thought, action, observation.");
        string_of(&p)
    }

    /// The prompt of the final phase.
    pub fn final_prompt(&self, intent_summary: &str, steps: &Vec<AgentStep>) -> (r: String)
        ensures
            r@ == final_prompt_text(intent_summary@, self.config.persona@, history_text(steps@)),
    {
        let history = format_history(steps.as_slice());
        let mut p: Vec<char> = Vec::new();
        append_str(&mut p, "# Phase: FINAL\nIntent: ");
        append_str(&mut p, intent_summary);
        append_str(&mut p, "\nPersona: ");
        append_str(&mut p, self.config.persona.as_str());
        append_str(&mut p, "\nHistory:\n");
        append_str(&mut p, history.as_str());
        append_str(&mut p, "\nRespond with JSON containing final_answer.");
        string_of(&p)
    }
}

pub open spec fn think_prompt_text(
    intent: Seq<char>,
    backlog: nat,
    persona: Seq<char>,
    step_index: nat,
    history: Seq<char>,
) -> Seq<char> {
    "# Phase: THINK\nIntent: "@ + intent + "\nBacklog: "@ + decimal(backlog) + "\nPersona: "@
        + persona + "\nStep: "@ + decimal(step_index + 1) + "\nHistory:\n"@ + history
        + "\nRespond with JSON containing thought, action, observation."@
}

pub open spec fn final_prompt_text(intent: Seq<char>, persona: Seq<char>, history: Seq<char>) -> Seq<
    char,
> {
    "# Phase: FINAL\nIntent: "@ + intent + "\nPersona: "@ + persona + "\nHistory:\n"@ + history
        + "\nRespond with JSON containing final_answer."@
}

/// The history line of step number `n` (counted from 1).
pub open spec fn history_line(n: nat, s: AgentStep) -> Seq<char> {
    decimal(n) + ". Thought: "@ + s.thought@ + " | Action: "@ + s.action@ + " | Observation: "@
        + s.observation@ + "\n"@
}

/// The history lines of the first `n` steps.
pub open spec fn history_lines(steps: Seq<AgentStep>, n: nat) -> Seq<char>
    decreases n,
{
    if n == 0 || n > steps.len() {
        Seq::empty()
    } else {
        history_lines(steps, (n - 1) as nat) + history_line(n, steps[n - 1])
    }
}

/// The step history as prompts show it: one numbered line per step, trimmed,
/// or "(none)" before the first step.
pub open spec fn history_text(steps: Seq<AgentStep>) -> Seq<char> {
    if steps.len() == 0 {
        "(none)"@
    } else {
        trim(history_lines(steps, steps.len()))
    }
}

/// The step history as prompts show it.
pub fn format_history(steps: &[AgentStep]) -> (r: String)
    ensures
        r@ == history_text(steps@),
{
    if steps.len() == 0 {
        return String::from_str("(none)");
    }
    let mut out: Vec<char> = Vec::new();
    let mut i: usize = 0;
    while i < steps.len()
        invariant
            i <= steps@.len(),
            out@ == history_lines(steps@, i as nat),
        decreases steps@.len() - i,
    {
        let n = decimal_chars((i + 1) as u64);
        append_chars(&mut out, &n);
        append_str(&mut out, ". Thought: ");
        append_str(&mut out, steps[i].thought.as_str());
        append_str(&mut out, " | Action: ");
        append_str(&mut out, steps[i].action.as_str());
        append_str(&mut out, " | Observation: ");
        append_str(&mut out, steps[i].observation.as_str());
        append_str(&mut out, "\n");
        i += 1;
        assert(out@ =~= history_lines(steps@, i as nat));
    }
    let t = trimmed(&out);
    string_of(&t)
}

} // verus!
