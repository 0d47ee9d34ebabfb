//! An access-controlled key-value record store: capability-token
//! authentication resolved against a configured issuer allow-list, per-record
//! access-control lists, an owner-gated record lifecycle, and the versioned
//! payload codec the front proxy speaks.
//!
//! Every operation's behaviour is stated in its contract and proved: the
//! store is modelled as a map from key to record, an ACL as its owner,
//! public-read flag and reader list, and each operation's result and effect
//! are pinned down for every input, error cases included.

pub mod acl;
pub mod auth;
pub mod config;
pub mod proxy;
pub mod store;
