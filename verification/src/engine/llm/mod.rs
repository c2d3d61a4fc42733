//! The adjudication of suspicious requests by a language model: what is asked,
//! what is remembered, and what is decided when the model fails.

pub mod anthropic;
pub mod gemini;
pub mod openai_compat;
pub mod provider;

use vstd::prelude::*;
use vstd::string::*;

use crate::config::LlmConfig;
use crate::engine::llm::openai_compat::OpenAiCompatProvider;
use crate::engine::llm::provider::{endpoint, says_block, LlmVerdict};
use crate::engine::verdict::RequestSummary;
use crate::text::{at_most, head, same_text};

verus! {

/// What was decided of a request.
#[derive(Debug)]
pub struct LlmDecision {
    pub block: bool,
    pub threat: String,
    pub reason: String,
    /// Who decided: the model, the memory of an earlier verdict, or the rule for
    /// failures.
    pub source: String,
    /// The model's reasons at more length, if it was asked.
    pub analysis: String,
}

/// A decision over sequences of characters.
pub struct DecisionView {
    pub block: bool,
    pub threat: Seq<char>,
    pub reason: Seq<char>,
    pub source: Seq<char>,
    pub analysis: Seq<char>,
}

impl View for LlmDecision {
    type V = DecisionView;

    open spec fn view(&self) -> DecisionView {
        DecisionView {
            block: self.block,
            threat: self.threat@,
            reason: self.reason@,
            source: self.source@,
            analysis: self.analysis@,
        }
    }
}

/// How the model's answer came.
#[derive(Debug)]
pub enum Reply {
    /// With a verdict.
    Answered(LlmVerdict),
    /// With an error.
    Failed(String),
    /// Not in time.
    TimedOut,
}

/// The adjudication, with the provider it asks.
#[derive(Debug)]
pub struct LlmAdjudicator {
    pub provider: OpenAiCompatProvider,
    pub provider_name: String,
    /// How long one adjudication may take.
    pub timeout_ms: u64,
    /// A request is let through where the model fails.
    pub fail_open: bool,
}

/// How much of a body counts as a feature of a request, in characters; the same
/// for the headers.
pub const MAX_KEY_CHARS: usize = 512;

/// The features of a request that a remembered verdict is found by.
pub open spec fn key_of(s: RequestSummary) -> Seq<char> {
    s.method@ + "|"@ + s.path@ + "|"@ + s.query@ + "|"@ + s.user_agent@ + "|"@ + at_most(
        s.headers@,
        MAX_KEY_CHARS as nat,
    ) + "|"@ + at_most(s.body@, MAX_KEY_CHARS as nat)
}

/// The features of a request that a remembered verdict is found by.
pub fn cache_key(s: &RequestSummary) -> (r: String)
    ensures
        r@ == key_of(*s),
{
    let body = head(s.body.as_str(), MAX_KEY_CHARS);
    let headers = head(s.headers.as_str(), MAX_KEY_CHARS);
    let mut r: String = s.method.clone();
    r.append("|");
    r.append(s.path.as_str());
    r.append("|");
    r.append(s.query.as_str());
    r.append("|");
    r.append(s.user_agent.as_str());
    r.append("|");
    r.append(headers.as_str());
    r.append("|");
    r.append(body.as_str());
    r
}

/// The decision that an earlier verdict stands for.
pub open spec fn remembered(name: Seq<char>, block: bool) -> DecisionView {
    DecisionView {
        block,
        threat: if block {
            "cached"@
        } else {
            "none"@
        },
        reason: "cached verdict"@,
        source: "llm:"@ + name + "(cached)"@,
        analysis: Seq::empty(),
    }
}

/// The decision where the model failed.
pub open spec fn degraded(name: Seq<char>, fail_open: bool, reason: Seq<char>) -> DecisionView {
    DecisionView {
        block: !fail_open,
        threat: "unknown"@,
        reason,
        source: "llm:"@ + name + "(fail)"@,
        analysis: Seq::empty(),
    }
}

/// The decision on the model's answer.
pub open spec fn decided(name: Seq<char>, fail_open: bool, reply: Reply) -> DecisionView {
    match reply {
        Reply::Answered(v) => DecisionView {
            block: says_block(v),
            threat: v.threat_type@,
            reason: v.reason@ + " (置信度 "@ + v.confidence@ + ")"@,
            source: "llm:"@ + name,
            analysis: v.analysis@,
        },
        Reply::Failed(e) => degraded(name, fail_open, "error: "@ + e@),
        Reply::TimedOut => degraded(name, fail_open, "timeout"@),
    }
}

/// The verdict to remember after an answer: a failure is forgotten.
pub open spec fn to_remember(reply: Reply) -> Option<bool> {
    match reply {
        Reply::Answered(v) => Some(says_block(v)),
        _ => None,
    }
}

impl LlmAdjudicator {
    /// The adjudication that the settings ask for, with the key that the
    /// environment holds. A provider that is not known is an error that names
    /// it.
    pub fn from_config(cfg: &LlmConfig, api_key: String) -> (r: Result<Self, String>)
        ensures
            match r {
                Ok(a) => {
                    &&& cfg.provider@ == "openai_compat"@
                    &&& a.provider_name@ == "openai_compat"@
                    &&& a.provider.base_url@ == endpoint(
                        cfg.base_url@,
                        openai_compat::DEFAULT_BASE@,
                    )
                    &&& a.provider.model@ == cfg.model@
                    &&& a.provider.api_key@ == api_key@
                    &&& a.timeout_ms == cfg.timeout_ms
                    &&& a.fail_open == (cfg.fail_mode@ != "fail_close"@)
                },
                Err(e) => {
                    &&& cfg.provider@ != "openai_compat"@
                    &&& e@ == "未知 LLM provider: "@ + cfg.provider@
                        + "。内置仅 openai_compat(配置驱动,兼容 OpenAI/DeepSeek/Ollama/vLLM/Groq 等);自定义端点请实现 LlmProvider trait。"@
                },
            },
    {
        if !same_text(cfg.provider.as_str(), "openai_compat") {
            let mut e: String = "未知 LLM provider: ".to_owned();
            e.append(cfg.provider.as_str());
            e.append(
                "。内置仅 openai_compat(配置驱动,兼容 OpenAI/DeepSeek/Ollama/vLLM/Groq 等);自定义端点请实现 LlmProvider trait。",
            );
            return Err(e);
        }
        let provider = OpenAiCompatProvider::new(
            cfg.base_url.as_str(),
            cfg.model.as_str(),
            api_key,
        );
        let provider_name: String = provider.name().to_owned();
        Ok(
            LlmAdjudicator {
                provider,
                provider_name,
                timeout_ms: cfg.timeout_ms,
                fail_open: !same_text(cfg.fail_mode.as_str(), "fail_close"),
            },
        )
    }

    /// The decision that an earlier verdict on the same features stands for.
    pub fn recall(&self, block: bool) -> (r: LlmDecision)
        ensures
            r@ == remembered(self.provider_name@, block),
    {
        let mut source: String = "llm:".to_owned();
        source.append(self.provider_name.as_str());
        source.append("(cached)");
        LlmDecision {
            block,
            threat: if block {
                "cached".to_owned()
            } else {
                "none".to_owned()
            },
            reason: "cached verdict".to_owned(),
            source,
            analysis: String::new(),
        }
    }

    /// The decision on the model's answer, and the verdict to remember for
    /// requests with the same features.
    pub fn adjudicate(&self, reply: Reply) -> (r: (LlmDecision, Option<bool>))
        ensures
            r.0@ == decided(self.provider_name@, self.fail_open, reply),
            r.1 == to_remember(reply),
    {
        match reply {
            Reply::Answered(v) => {
                let block = v.is_block();
                let mut reason: String = v.reason.clone();
                reason.append(" (置信度 ");
                reason.append(v.confidence.as_str());
                reason.append(")");
                let mut source: String = "llm:".to_owned();
                source.append(self.provider_name.as_str());
                (
                    LlmDecision { block, threat: v.threat_type, reason, source, analysis: v.analysis },
                    Some(block),
                )
            },
            Reply::Failed(e) => {
                let mut reason: String = "error: ".to_owned();
                reason.append(e.as_str());
                (self.fail_decision(reason), None)
            },
            Reply::TimedOut => (self.fail_decision("timeout".to_owned()), None),
        }
    }

    /// The decision where the model failed.
    pub fn fail_decision(&self, reason: String) -> (r: LlmDecision)
        ensures
            r@ == degraded(self.provider_name@, self.fail_open, reason@),
    {
        let mut source: String = "llm:".to_owned();
        source.append(self.provider_name.as_str());
        source.append("(fail)");
        LlmDecision {
            block: !self.fail_open,
            threat: "unknown".to_owned(),
            reason,
            source,
            analysis: String::new(),
        }
    }
}

/// The client's address is no feature, and neither is what stands far behind in
/// the headers and in the body: requests that differ in these alone share a
/// remembered verdict.
pub proof fn law_key_ignores_the_client(a: RequestSummary, b: RequestSummary)
    requires
        a.method@ == b.method@,
        a.path@ == b.path@,
        a.query@ == b.query@,
        a.user_agent@ == b.user_agent@,
        at_most(a.headers@, MAX_KEY_CHARS as nat) == at_most(b.headers@, MAX_KEY_CHARS as nat),
        at_most(a.body@, MAX_KEY_CHARS as nat) == at_most(b.body@, MAX_KEY_CHARS as nat),
    ensures
        key_of(a) == key_of(b),
{
}

/// A model that fails or is late blocks a request exactly if failures are to
/// block, and its failure is not remembered.
pub proof fn law_failure_follows_the_mode(name: Seq<char>, fail_open: bool, reply: Reply)
    requires
        !(reply is Answered),
    ensures
        decided(name, fail_open, reply).block == !fail_open,
        to_remember(reply) is None,
{
}

/// What is remembered of an answer leads to the same decision to block or to
/// let through as the answer did.
pub proof fn law_memory_repeats_the_verdict(name: Seq<char>, fail_open: bool, reply: Reply)
    requires
        reply is Answered,
    ensures
        to_remember(reply) matches Some(block) && remembered(name, block).block == decided(
            name,
            fail_open,
            reply,
        ).block,
{
}

} // verus!
