//! A replicated token ledger: its state transition function, the HotStuff
//! replica that orders its blocks, and the checks that replay a recorded
//! workload, with machine-checked contracts.

pub mod action;
pub mod bytes;
pub mod codec;
pub mod consensus;
pub mod crypto;
pub mod digest;
pub mod generate;
pub mod ledger;
pub mod logging;
pub mod messages;
pub mod network;
pub mod node;
pub mod replay;
pub mod state;
pub mod table;
pub mod text;
pub mod validator;
pub mod workload;

