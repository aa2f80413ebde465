use vstd::prelude::*;
use vstd::string::StringExecFns;

use crate::lines::{lines, prefixed_value, prefixed_value_of};
use crate::text::{append_chars, append_str, chars_of, contains, decimal, decimal_chars, includes, string_of};

verus! {

/// Who answered a prompt: the provider and, if known, the model.
#[derive(Clone, Debug)]
pub struct LlmIdentity {
    pub provider: &'static str,
    pub model: Option<String>,
}

impl LlmIdentity {
    pub fn new(provider: &'static str, model: Option<String>) -> (r: LlmIdentity)
        ensures
            r.provider == provider,
            r.model == model,
    {
        LlmIdentity { provider, model }
    }
}

/// A reply in the shape of a JSON object whose members are the given
/// string-valued pairs.
pub uninterp spec fn json_object_text(fields: Seq<(Seq<char>, Seq<char>)>) -> Seq<char>;

pub open spec fn field_views(fields: Seq<(String, String)>) -> Seq<(Seq<char>, Seq<char>)> {
    fields.map_values(|f: (String, String)| (f.0@, f.1@))
}

/// Relies on serde_json's `Value::to_string` of an object built from the
/// pairs: the text depends on the pairs alone.
#[verifier::external_body]
fn json_object(fields: Vec<(String, String)>) -> (r: String)
    ensures
        r@ == json_object_text(field_views(fields@)),
{
    let map: serde_json::Map<String, serde_json::Value> = fields
        .into_iter()
        .map(|(k, v)| (k, serde_json::Value::String(v)))
        .collect();
    serde_json::Value::Object(map).to_string()
}

pub open spec fn is_digit(c: char) -> bool {
    '0' <= c && c <= '9'
}

pub open spec fn digit_value(c: char) -> nat {
    (c as u32 - '0' as u32) as nat
}

/// The number a run of decimal digits spells.
pub open spec fn digits_value(s: Seq<char>) -> nat
    decreases s.len(),
{
    if s.len() == 0 {
        0
    } else {
        digits_value(s.drop_last()) * 10 + digit_value(s.last())
    }
}

/// What parsing `s` as a `usize` gives: an optional `+`, then one or more
/// decimal digits whose value fits.
pub open spec fn parsed_usize(s: Seq<char>) -> Option<nat> {
    let body = unsigned_body(s);
    if body.len() > 0 && all_digits(body) && digits_value(body) <= usize::MAX {
        Some(digits_value(body))
    } else {
        None
    }
}

/// `s` without one leading `+`.
pub open spec fn unsigned_body(s: Seq<char>) -> Seq<char> {
    if s.len() > 0 && s[0] == '+' {
        s.drop_first()
    } else {
        s
    }
}

pub open spec fn all_digits(s: Seq<char>) -> bool {
    forall|i: int| 0 <= i < s.len() ==> is_digit(#[trigger] s[i])
}

proof fn lemma_digits_monotone(s: Seq<char>, i: int)
    requires
        0 <= i <= s.len(),
        forall|k: int| 0 <= k < s.len() ==> is_digit(#[trigger] s[k]),
    ensures
        digits_value(s.take(i)) <= digits_value(s),
    decreases s.len() - i,
{
    if i < s.len() {
        lemma_digits_monotone(s, i + 1);
        assert(s.take(i + 1).drop_last() =~= s.take(i));
    } else {
        assert(s.take(i) =~= s);
    }
}

/// Parses `s` as a `usize`, the way `str::parse::<usize>` does.
pub fn parse_usize(s: &Vec<char>) -> (r: Option<usize>)
    ensures
        r matches Some(n) ==> parsed_usize(s@) == Some(n as nat),
        r is None ==> parsed_usize(s@) is None,
{
    let start: usize = if s.len() > 0 && s[0] == '+' {
        1
    } else {
        0
    };
    let ghost body = unsigned_body(s@);
    assert(body =~= s@.subrange(start as int, s@.len() as int));
    if start >= s.len() {
        return None;
    }
    let mut i: usize = start;
    while i < s.len()
        invariant
            start <= i <= s@.len(),
            body == s@.subrange(start as int, s@.len() as int),
            body == unsigned_body(s@),
            forall|k: int| start <= k < i ==> is_digit(#[trigger] s@[k]),
        decreases s@.len() - i,
    {
        if !(s[i] >= '0' && s[i] <= '9') {
            assert(body[i - start] == s@[i as int]);
            assert(!is_digit(body[i - start]));
            assert(!all_digits(body));
            return None;
        }
        i += 1;
    }
    assert forall|k: int| 0 <= k < body.len() implies is_digit(#[trigger] body[k]) by {
        assert(body[k] == s@[k + start]);
    }
    let mut acc: usize = 0;
    let mut j: usize = start;
    while j < s.len()
        invariant
            start <= j <= s@.len(),
            body == s@.subrange(start as int, s@.len() as int),
            body == unsigned_body(s@),
            forall|k: int| 0 <= k < body.len() ==> is_digit(#[trigger] body[k]),
            acc as nat == digits_value(body.take(j - start)),
        decreases s@.len() - j,
    {
        assert(body[j - start] == s@[j as int]);
        assert(is_digit(body[j - start]));
        let c = s[j];
        assert('0' as u32 <= c as u32 && c as u32 <= '9' as u32);
        let d = (c as u32 - '0' as u32) as usize;
        assert(d as nat == digit_value(body[j - start]));
        assert(body.take(j - start + 1).drop_last() =~= body.take(j - start));
        if acc > (usize::MAX - d) / 10 {
            proof {
                assert(acc * 10 + d > usize::MAX) by (nonlinear_arith)
                    requires
                        acc > (usize::MAX - d) / 10,
                        d <= 9,
                ;
                lemma_digits_monotone(body, j - start + 1);
                assert(digits_value(body.take(j - start + 1)) == acc * 10 + d);
                assert(digits_value(body) > usize::MAX);
                assert(all_digits(body));
            }
            return None;
        }
        assert(acc * 10 + d <= usize::MAX) by (nonlinear_arith)
            requires
                acc <= (usize::MAX - d) / 10,
                d <= 9,
        ;
        acc = acc * 10 + d;
        j += 1;
    }
    assert(body.take(body.len() as int) =~= body);
    Some(acc)
}

/// The answer of the stub collaborator to an unsupported prompt.
#[derive(Clone, Copy, Debug, PartialEq, Eq, Structural)]
pub enum StubError {
    /// The prompt is neither a THINK nor a FINAL phase.
    UnsupportedPhase,
}

impl StubError {
    pub fn message(&self) -> (r: String)
        ensures
            r@ == "stub LLM only supports THINK and FINAL phases"@,
    {
        String::from_str("stub LLM only supports THINK and FINAL phases")
    }
}

/// The value after `prefix` in a prompt, or `fallback`.
pub open spec fn value_or(prompt: Seq<char>, prefix: Seq<char>, fallback: Seq<char>) -> Seq<char> {
    match prefixed_value(lines(prompt), prefix) {
        Some(v) => v,
        None => fallback,
    }
}

/// The backlog count a THINK prompt states, 0 when missing or unreadable.
pub open spec fn backlog_of(prompt: Seq<char>) -> nat {
    match prefixed_value(lines(prompt), "Backlog:"@) {
        Some(v) => match parsed_usize(v) {
            Some(n) => n,
            None => 0,
        },
        None => 0,
    }
}

pub open spec fn think_reply_fields(prompt: Seq<char>) -> Seq<(Seq<char>, Seq<char>)> {
    seq![
        ("thought"@, "Focus on intent '"@ + value_or(prompt, "Intent:"@, "intent"@) + "' using available context"@),
        ("action"@, "summarize_intent"@),
        ("observation"@, "Remaining backlog count: "@ + decimal(backlog_of(prompt))),
    ]
}

pub open spec fn final_reply_fields(prompt: Seq<char>) -> Seq<(Seq<char>, Seq<char>)> {
    seq![
        ("final_answer"@, value_or(prompt, "Persona:"@, "Agent"@) + " completed the plan for '"@
            + value_or(prompt, "Intent:"@, "intent"@) + "'"@),
    ]
}

/// The offline reasoning collaborator: it answers THINK and FINAL prompts
/// from the values they state.
#[derive(Clone, Copy, Debug, Default)]
pub struct LocalStubClient;

fn value_or_else(prompt: &Vec<char>, prefix: &str, fallback: &str) -> (r: Vec<char>)
    ensures
        r@ == value_or(prompt@, prefix@, fallback@),
{
    let p = chars_of(prefix);
    match prefixed_value_of(prompt, &p) {
        Some(v) => v,
        None => chars_of(fallback),
    }
}

impl LocalStubClient {
    /// The reply to `prompt`: for a THINK prompt a step naming its intent and
    /// backlog, for a FINAL prompt an answer naming its persona and intent,
    /// as a JSON object; any other prompt is refused.
    pub fn reply(&self, prompt: &str) -> (r: Result<String, StubError>)
        ensures
            contains(prompt@, "# Phase: THINK"@) ==> (r matches Ok(t) && t@ == json_object_text(
                think_reply_fields(prompt@),
            )),
            !contains(prompt@, "# Phase: THINK"@) && contains(prompt@, "# Phase: FINAL"@) ==> (
            r matches Ok(t) && t@ == json_object_text(final_reply_fields(prompt@))),
            !contains(prompt@, "# Phase: THINK"@) && !contains(prompt@, "# Phase: FINAL"@) ==> r
                == Err::<String, StubError>(StubError::UnsupportedPhase),
    {
        let text = chars_of(prompt);
        let think = chars_of("# Phase: THINK");
        let fin = chars_of("# Phase: FINAL");
        if includes(&text, &think) {
            let intent = value_or_else(&text, "Intent:", "intent");
            let backlog_prefix = chars_of("Backlog:");
            let backlog: usize = match prefixed_value_of(&text, &backlog_prefix) {
                Some(v) => match parse_usize(&v) {
                    Some(n) => n,
                    None => 0,
                },
                None => 0,
            };
            let mut thought: Vec<char> = Vec::new();
            append_str(&mut thought, "Focus on intent '");
            append_chars(&mut thought, &intent);
            append_str(&mut thought, "' using available context");
            let mut observation: Vec<char> = Vec::new();
            append_str(&mut observation, "Remaining backlog count: ");
            let digits = decimal_chars(backlog as u64);
            append_chars(&mut observation, &digits);
            let mut fields: Vec<(String, String)> = Vec::new();
            fields.push((String::from_str("thought"), string_of(&thought)));
            fields.push((String::from_str("action"), String::from_str("summarize_intent")));
            fields.push((String::from_str("observation"), string_of(&observation)));
            assert(field_views(fields@) =~= think_reply_fields(prompt@));
            Ok(json_object(fields))
        } else if includes(&text, &fin) {
            let intent = value_or_else(&text, "Intent:", "intent");
            let persona = value_or_else(&text, "Persona:", "Agent");
            let mut answer: Vec<char> = Vec::new();
            append_chars(&mut answer, &persona);
            append_str(&mut answer, " completed the plan for '");
            append_chars(&mut answer, &intent);
            append_str(&mut answer, "'");
            let mut fields: Vec<(String, String)> = Vec::new();
            fields.push((String::from_str("final_answer"), string_of(&answer)));
            assert(field_views(fields@) =~= final_reply_fields(prompt@));
            Ok(json_object(fields))
        } else {
            Err(StubError::UnsupportedPhase)
        }
    }

    /// The stub's identity.
    pub fn identity(&self) -> (r: LlmIdentity)
        ensures
            r.provider@ == "local_stub"@,
            r.model matches Some(m) && m@ == "local_stub"@,
    {
        LlmIdentity::new("local_stub", Some(String::from_str("local_stub")))
    }
}

/// The value after `prefix` on the first line of `prompt` that, trimmed,
/// starts with it; the value is trimmed too.
pub fn extract_value(prompt: &str, prefix: &str) -> (r: Option<String>)
    ensures
        r is None <==> prefixed_value(lines(prompt@), prefix@) is None,
        r matches Some(v) ==> prefixed_value(lines(prompt@), prefix@) == Some(v@),
{
    let text = chars_of(prompt);
    let p = chars_of(prefix);
    match prefixed_value_of(&text, &p) {
        Some(v) => Some(string_of(&v)),
        None => None,
    }
}

/// Parses `s` as a `usize`, the way `str::parse::<usize>` does.
pub fn parse_usize_text(s: &str) -> (r: Option<usize>)
    ensures
        r matches Some(n) ==> parsed_usize(s@) == Some(n as nat),
        r is None ==> parsed_usize(s@) is None,
{
    let c = chars_of(s);
    parse_usize(&c)
}

} // verus!
