//! Verified core of `ecal-mcp`: what its tools say of an Eclipse eCAL network.
//!
//! The modules work on plain values: a monitoring snapshot, drained log messages, received
//! samples, answers of service instances, a command line. Talking to eCAL, to a tool client and
//! to the terminal is left to the program around the library, as is all floating point: rates are
//! kept in millihertz and windows in whole bytes and microseconds.

pub mod checks;
pub mod cli;
pub mod codec;
pub mod diagnose;
pub mod drops;
pub mod entries;
pub mod findings;
pub mod harness;
pub mod hosts;
pub mod json;
pub mod laws;
pub mod listing;
pub mod logs;
pub mod measure;
pub mod monitoring;
pub mod payload;
pub mod publish;
pub mod seqs;
pub mod server;
pub mod service;
pub mod similar;
pub mod sort;
pub mod subscribe;
pub mod suggest;
pub mod survey;
pub mod text;
