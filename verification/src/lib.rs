//! memo: on-device long-term memory storage for LLM agents.
use vstd::prelude::*;

pub mod codec;
pub mod commands;
pub mod config;
pub mod dedup;
pub mod embed;
pub mod error;
pub mod ids;
pub mod keyword;
pub mod lifecycle;
pub mod manager;
pub mod model;
pub mod ranking;
pub mod row;
pub mod backend;
pub mod bench;
pub mod binary32;
pub mod text;
pub mod traits;
pub mod upgrade;
pub mod version;
