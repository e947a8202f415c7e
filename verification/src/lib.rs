//! Core orchestration logic for a council of language models: usage
//! accounting, response anonymization, blind-ranking parsing, aggregate
//! ranking, and the staged orchestration state machine.

pub mod aggregate;
pub mod council;
pub mod gateway;
pub mod keyed;
pub mod labels;
pub mod models;
pub mod prompts;
pub mod ranking;
pub mod settings;
pub mod storage;
pub mod textscan;
pub mod usage;
