//! Application configuration values and their defaults. The composition
//! root fills the fields from the environment; the helpers here only decide
//! defaults and readiness.

use vstd::prelude::*;

verus! {

/// Default capacity of the bounded media channel.
pub const DEFAULT_MEDIA_QUEUE_SIZE: usize = 1000;

/// Recognized configuration, already read from the environment.
#[derive(Debug, Default)]
pub struct AppConfig {
    pub api_id: Option<i32>,
    pub api_hash: Option<String>,
    pub data_dir: Option<String>,
    pub session_path: Option<String>,
    /// Milliseconds slept before each history request inside the gateway.
    pub export_delay_ms: Option<u64>,
    /// Milliseconds slept between sync batches.
    pub sync_delay_ms: Option<u64>,
    /// Capacity of the bounded media channel.
    pub media_queue_size: Option<usize>,
    /// Seconds slept between watcher rounds.
    pub watcher_cycle_secs: Option<u64>,
    pub ai_api_key: Option<String>,
    pub ai_api_url: Option<String>,
    pub ai_model: Option<String>,
    pub trello_key: Option<String>,
    pub trello_token: Option<String>,
    pub trello_board_id: Option<String>,
    pub trello_list_id: Option<String>,
}

impl AppConfig {
    /// The watcher cycle period in seconds, 600 by default.
    pub fn watcher_cycle_secs_or_default(&self) -> (r: u64)
        ensures
            r == (match self.watcher_cycle_secs {
                Option::Some(v) => v,
                Option::None => 600u64,
            }),
    {
        match self.watcher_cycle_secs {
            Option::Some(v) => v,
            Option::None => 600,
        }
    }

    /// The inter-batch sync delay in milliseconds, 500 by default.
    pub fn sync_delay_ms_or_default(&self) -> (r: u64)
        ensures
            r == (match self.sync_delay_ms {
                Option::Some(v) => v,
                Option::None => 500u64,
            }),
    {
        match self.sync_delay_ms {
            Option::Some(v) => v,
            Option::None => 500,
        }
    }

    /// The media channel capacity, [`DEFAULT_MEDIA_QUEUE_SIZE`] by default.
    pub fn media_queue_size_or_default(&self) -> (r: usize)
        ensures
            r == (match self.media_queue_size {
                Option::Some(v) => v,
                Option::None => DEFAULT_MEDIA_QUEUE_SIZE as usize,
            }),
    {
        match self.media_queue_size {
            Option::Some(v) => v,
            Option::None => DEFAULT_MEDIA_QUEUE_SIZE,
        }
    }

    /// The configured LLM API key, if any.
    pub fn ai_api_key(&self) -> (r: Option<&String>)
        ensures
            (r is Some) == (self.ai_api_key is Some),
    {
        self.ai_api_key.as_ref()
    }

    /// The LLM endpoint, with the standard default.
    pub fn ai_api_url_or_default(&self) -> (r: String)
        ensures
            self.ai_api_url matches Some(u) ==> r@ == u@,
            self.ai_api_url is None ==> r@ == "https://api.openai.com/v1/chat/completions"@,
    {
        match &self.ai_api_url {
            Option::Some(u) => u.clone(),
            Option::None => {
                let mut s = String::new();
                let r = s.concat("https://api.openai.com/v1/chat/completions");
                proof {
                    assert(r@ =~= "https://api.openai.com/v1/chat/completions"@);
                }
                r
            },
        }
    }

    /// The LLM model name, with the standard default.
    pub fn ai_model_or_default(&self) -> (r: String)
        ensures
            self.ai_model matches Some(m) ==> r@ == m@,
            self.ai_model is None ==> r@ == "gpt-4o-mini"@,
    {
        match &self.ai_model {
            Option::Some(m) => m.clone(),
            Option::None => {
                let mut s = String::new();
                let r = s.concat("gpt-4o-mini");
                proof {
                    assert(r@ =~= "gpt-4o-mini"@);
                }
                r
            },
        }
    }

    /// Whether an LLM endpoint is usable: an API key is present.
    pub fn is_ai_configured(&self) -> (r: bool)
        ensures
            r == (self.ai_api_key is Some),
    {
        match &self.ai_api_key {
            Option::Some(_) => true,
            Option::None => false,
        }
    }

    /// Whether the task tracker is fully configured: key, token and list.
    pub fn is_trello_configured(&self) -> (r: bool)
        ensures
            r == (self.trello_key is Some && self.trello_token is Some && self.trello_list_id
                is Some),
    {
        let k = match &self.trello_key {
            Option::Some(_) => true,
            Option::None => false,
        };
        let t = match &self.trello_token {
            Option::Some(_) => true,
            Option::None => false,
        };
        let l = match &self.trello_list_id {
            Option::Some(_) => true,
            Option::None => false,
        };
        k && t && l
    }
}

} // verus!
