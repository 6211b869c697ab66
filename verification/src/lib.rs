//! The litter's library: the rules behind the `kot` binary.

use vstd::prelude::*;

pub mod activity;
pub mod agent;
pub mod answers;
pub mod asides;
pub mod asleep;
pub mod auth;
pub mod board;
pub mod chat;
pub mod cli;
pub mod client;
pub mod command;
pub mod common;
pub mod composer;
pub mod conversation;
pub mod earshot;
pub mod effects;
pub mod figures;
pub mod flights;
pub mod input;
pub mod journal;
pub mod json;
pub mod keys;
pub mod ledger;
pub mod local_tasks;
pub mod local_tool;
pub mod machine;
pub mod markdown;
pub mod mempool;
pub mod outside;
pub mod peers;
pub mod relay;
pub mod replay;
pub mod screen;
pub mod scroll;
pub mod session;
pub mod sync;
pub mod text;
pub mod tls;
pub mod tool_out;
pub mod tree;
pub mod turns;
pub mod ui;

verus! {

} // verus!
