use vstd::prelude::*;
use vstd::string::StringExecFns;

verus! {

/// The beat's cadence and admission threshold (in millionths).
#[derive(Clone, Debug)]
pub struct BeatConfig {
    pub interval_minutes: u64,
    pub intent_threshold: i64,
}

impl BeatConfig {
    /// Seconds between two timer beats.
    pub fn interval_seconds(&self) -> (r: u64)
        requires
            self.interval_minutes <= u64::MAX / 60,
        ensures
            r == self.interval_minutes * 60,
    {
        self.interval_minutes * 60
    }
}

/// Which reasoning collaborator answers the agent's prompts.
#[derive(Clone, Debug)]
pub enum LlmProviderConfig {
    LocalStub,
    OpenAi {
        model: String,
        api_key_env: String,
        base_url: Option<String>,
        organization: Option<String>,
    },
}

#[derive(Clone, Debug)]
pub struct ServerConfig {
    pub bind_addr: String,
}

impl ServerConfig {
    pub fn addr(&self) -> (r: &str)
        ensures
            r@ == self.bind_addr@,
    {
        self.bind_addr.as_str()
    }
}

#[derive(Clone, Debug)]
pub struct TelegramConfig {
    pub bot_token: String,
    pub default_chat_id: Option<i64>,
    pub webhook_secret: Option<String>,
    pub api_base: String,
}

/// Admission threshold when none is configured: one half.
pub fn default_intent_threshold() -> (r: i64)
    ensures
        r == 500_000,
{
    500_000
}

pub fn default_agent_max_steps() -> (r: usize)
    ensures
        r == 1,
{
    1
}

pub fn default_agent_persona() -> (r: String)
    ensures
        r@ == "TelosOps"@,
{
    String::from_str("TelosOps")
}

pub fn default_openai_api_key_env() -> (r: String)
    ensures
        r@ == "OPENAI_API_KEY"@,
{
    String::from_str("OPENAI_API_KEY")
}

pub fn default_telegram_api_base() -> (r: String)
    ensures
        r@ == "https://api.telegram.org"@,
{
    String::from_str("https://api.telegram.org")
}

/// The source recorded for a submitted intent that names none.
pub fn default_source() -> (r: String)
    ensures
        r@ == "user"@,
{
    String::from_str("user")
}

} // verus!
