//! The settings of the firewall, with the values that hold where the
//! configuration file says nothing.

use vstd::prelude::*;
use vstd::string::*;

use crate::text::{chars_of, trim_end_char, without_trailing};

verus! {

/// All settings.
#[derive(Debug)]
pub struct Config {
    /// The address to listen on.
    pub listen: String,
    /// The origin that requests are forwarded to.
    pub upstream: String,
    pub log_file: String,
    /// The file of the database; empty to keep everything in memory.
    pub db_path: String,
    /// Run without the dashboard.
    pub headless: bool,
    /// The proxies in front whose word on the client's address is taken.
    pub trusted_proxies: Vec<String>,
    /// The header in which they give it.
    pub real_ip_header: String,
    pub llm: LlmConfig,
    pub detection: DetectionConfig,
}

/// The settings of the adjudication by a language model.
#[derive(Debug)]
pub struct LlmConfig {
    pub enabled: bool,
    pub provider: String,
    pub model: String,
    /// The endpoint; empty for the provider's own.
    pub base_url: String,
    /// The environment variable that holds the key.
    pub api_key_env: String,
    /// How long one adjudication may take.
    pub timeout_ms: u64,
    /// `fail_close` to block on a failure, anything else to let through.
    pub fail_mode: String,
}

/// The settings of the detection. The threshold of the classifier is a
/// fraction, and the classifier's score is compared with it where it is
/// computed.
#[derive(Debug)]
pub struct DetectionConfig {
    /// The score from which a request is blocked.
    pub block_threshold: u32,
    /// The score from which a request is suspicious.
    pub suspicious_threshold: u32,
    /// The model of the classifier, if there is one.
    pub ngram_model: Option<String>,
    /// The rule categories that are not used.
    pub disabled_categories: Vec<String>,
    /// The file that gaps of the rules are written to, if there is one.
    pub gap_log: Option<String>,
    /// How long the origin may take, in seconds; 0 for as long as it likes.
    pub upstream_timeout_secs: u64,
    /// The largest request body, in bytes; 0 for the default.
    pub max_body_bytes: usize,
    /// The patterns of the paths that are not inspected.
    pub bypass_paths: Vec<String>,
}

/// The largest request body that is accepted by default, in bytes.
pub const MAX_BODY_BYTES: usize = 10_485_760;

pub fn default_listen() -> (r: String)
    ensures
        r@ == "127.0.0.1:8080"@,
{
    "127.0.0.1:8080".to_owned()
}

pub fn default_upstream() -> (r: String)
    ensures
        r@ == "http://127.0.0.1:8000"@,
{
    "http://127.0.0.1:8000".to_owned()
}

pub fn default_log_file() -> (r: String)
    ensures
        r@ == "limen.log"@,
{
    "limen.log".to_owned()
}

pub fn default_db_path() -> (r: String)
    ensures
        r@ == "limen.db"@,
{
    "limen.db".to_owned()
}

pub fn default_real_ip_header() -> (r: String)
    ensures
        r@ == "X-Forwarded-For"@,
{
    "X-Forwarded-For".to_owned()
}

pub fn default_provider() -> (r: String)
    ensures
        r@ == "openai_compat"@,
{
    "openai_compat".to_owned()
}

pub fn default_model() -> (r: String)
    ensures
        r@ == "gpt-4o-mini"@,
{
    "gpt-4o-mini".to_owned()
}

pub fn default_api_key_env() -> (r: String)
    ensures
        r@ == "OPENAI_API_KEY"@,
{
    "OPENAI_API_KEY".to_owned()
}

pub fn default_llm_timeout_ms() -> (r: u64)
    ensures
        r == 2000,
{
    2000
}

pub fn default_fail_mode() -> (r: String)
    ensures
        r@ == "fail_open"@,
{
    "fail_open".to_owned()
}

pub fn default_block_threshold() -> (r: u32)
    ensures
        r == 100,
{
    100
}

pub fn default_suspicious_threshold() -> (r: u32)
    ensures
        r == 40,
{
    40
}

pub fn default_upstream_timeout_secs() -> (r: u64)
    ensures
        r == 30,
{
    30
}

pub fn default_max_body_bytes() -> (r: usize)
    ensures
        r == MAX_BODY_BYTES,
{
    MAX_BODY_BYTES
}

/// The settings of the adjudication where nothing is said of them.
pub open spec fn is_default_llm(c: LlmConfig) -> bool {
    &&& !c.enabled
    &&& c.provider@ == "openai_compat"@
    &&& c.model@ == "gpt-4o-mini"@
    &&& c.base_url@ == Seq::<char>::empty()
    &&& c.api_key_env@ == "OPENAI_API_KEY"@
    &&& c.timeout_ms == 2000
    &&& c.fail_mode@ == "fail_open"@
}

/// The settings of the detection where nothing is said of them.
pub open spec fn is_default_detection(c: DetectionConfig) -> bool {
    &&& c.block_threshold == 100
    &&& c.suspicious_threshold == 40
    &&& c.ngram_model is None
    &&& c.disabled_categories@.len() == 0
    &&& c.gap_log is None
    &&& c.upstream_timeout_secs == 30
    &&& c.max_body_bytes == MAX_BODY_BYTES
    &&& c.bypass_paths@.len() == 0
}

/// The settings where nothing is said of them.
pub open spec fn is_default(c: Config) -> bool {
    &&& c.listen@ == "127.0.0.1:8080"@
    &&& c.upstream@ == "http://127.0.0.1:8000"@
    &&& c.log_file@ == "limen.log"@
    &&& c.db_path@ == "limen.db"@
    &&& !c.headless
    &&& c.trusted_proxies@.len() == 0
    &&& c.real_ip_header@ == "X-Forwarded-For"@
    &&& is_default_llm(c.llm)
    &&& is_default_detection(c.detection)
}

impl Default for LlmConfig {
    fn default() -> (r: Self)
        ensures
            is_default_llm(r),
    {
        LlmConfig {
            enabled: false,
            provider: default_provider(),
            model: default_model(),
            base_url: String::new(),
            api_key_env: default_api_key_env(),
            timeout_ms: default_llm_timeout_ms(),
            fail_mode: default_fail_mode(),
        }
    }
}

impl Default for DetectionConfig {
    fn default() -> (r: Self)
        ensures
            is_default_detection(r),
    {
        DetectionConfig {
            block_threshold: default_block_threshold(),
            suspicious_threshold: default_suspicious_threshold(),
            ngram_model: None,
            disabled_categories: Vec::new(),
            gap_log: None,
            upstream_timeout_secs: default_upstream_timeout_secs(),
            max_body_bytes: default_max_body_bytes(),
            bypass_paths: Vec::new(),
        }
    }
}

impl Default for Config {
    fn default() -> (r: Self)
        ensures
            is_default(r),
    {
        Config {
            listen: default_listen(),
            upstream: default_upstream(),
            log_file: default_log_file(),
            db_path: default_db_path(),
            headless: false,
            trusted_proxies: Vec::new(),
            real_ip_header: default_real_ip_header(),
            llm: LlmConfig::default(),
            detection: DetectionConfig::default(),
        }
    }
}

impl Config {
    /// The settings of a file that could be read, or the defaults where there is
    /// no file.
    pub fn load(file: Option<Config>) -> (r: Self)
        ensures
            match file {
                Some(c) => r == c,
                None => is_default(r),
            },
    {
        match file {
            Some(c) => c,
            None => Config::default(),
        }
    }

    /// The origin without slashes at its end: paths start with one.
    pub fn upstream_base(&self) -> (r: String)
        ensures
            r@ == without_trailing(self.upstream@, '/'),
    {
        trim_end_char(self.upstream.as_str(), '/')
    }

    /// Does the firewall run without the dashboard? It does if it is told to or
    /// if there is no terminal.
    pub fn runs_headless(&self, terminal: bool) -> (r: bool)
        ensures
            r == (self.headless || !terminal),
    {
        self.headless || !terminal
    }
}

/// The file of a setting, if it names one: an empty name stands for none.
pub fn named_file(path: Option<String>) -> (r: Option<String>)
    ensures
        r == match path {
            Some(p) if p@.len() > 0 => Some(p),
            _ => None,
        },
{
    match path {
        Some(p) => if chars_of(p.as_str()).len() > 0 {
            Some(p)
        } else {
            None
        },
        None => None,
    }
}

impl DetectionConfig {
    /// The largest request body that is accepted, in bytes.
    pub fn body_limit(&self) -> (r: usize)
        ensures
            r == if self.max_body_bytes == 0 {
                MAX_BODY_BYTES
            } else {
                self.max_body_bytes
            },
    {
        if self.max_body_bytes == 0 {
            MAX_BODY_BYTES
        } else {
            self.max_body_bytes
        }
    }

    /// How long the origin may take, in seconds, if there is a limit.
    pub fn upstream_timeout(&self) -> (r: Option<u64>)
        ensures
            r == if self.upstream_timeout_secs == 0 {
                None
            } else {
                Some(self.upstream_timeout_secs)
            },
    {
        if self.upstream_timeout_secs == 0 {
            None
        } else {
            Some(self.upstream_timeout_secs)
        }
    }
}

} // verus!
