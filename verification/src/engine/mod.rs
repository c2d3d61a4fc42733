//! The detection engine.

pub mod decode;
pub mod llm;
pub mod matcher;
pub mod ngram;
pub mod rule_laws;
pub mod rules;
pub mod table;
pub mod verdict;

pub use llm::{LlmAdjudicator, LlmDecision};
pub use ngram::NgramClassifier;
pub use rules::RuleEngine;
pub use verdict::{RequestSummary, Verdict};
