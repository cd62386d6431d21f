//! A key-value store engine: tables of values kept in memory or in an embedded log,
//! commands dispatched through a hook pipeline, publish/subscribe topics, and the
//! length-prefixed frames that carry requests and responses.
use vstd::prelude::*;

pub mod channel;
pub mod codec;
pub mod command;
pub mod connection;
pub mod error;
pub mod frame;
pub mod inspect;
pub mod memory;
pub mod pb;
pub mod service;
pub mod storage;
pub mod topic;

verus! {

} // verus!
