//! What the library promises, in terms of what goes in and what comes out:
//! each file states, of one part of it, what its results are for.

pub mod decode;
pub mod eval;
pub mod json;
pub mod learn;
pub mod llm;
pub mod ngram;
pub mod pipeline;
pub mod proxy;
pub mod record;
pub mod report;
pub mod rules;
pub mod state;
pub mod text;
pub mod views;
