//! Limen: the detection core of a web application firewall.

pub mod cli;
pub mod config;
pub mod engine;
pub mod eval;
pub mod event;
pub mod json;
pub mod laws;
pub mod learn;
pub mod names;
pub mod pipeline;
pub mod proxy;
pub mod ratelimit;
pub mod sink;
pub mod state;
pub mod storage;
pub mod text;
pub mod tui;
