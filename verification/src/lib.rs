//! A verified core for an Asterisk Manager Interface (AMI) extension-status
//! monitor: block assembly, event classification, the discovery-then-poll
//! bootstrap state machine, and the shared status table.

pub mod bootstrap;
pub mod classify;
pub mod message;
pub mod parse;
pub mod session;
pub mod table;
pub mod text;
