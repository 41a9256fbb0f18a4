//! Verified core of a local filesystem bridge: lexical path policy, the
//! request protocol, approval bookkeeping and the pure parts of every
//! filesystem action.

pub mod path;
pub mod text;
pub mod search;
pub mod protocol;
pub mod errors;
pub mod config;
pub mod cors;
pub mod policy;
pub mod approver;
pub mod actions;
pub mod api;
pub mod fs;
pub mod tree;
