//! Live fan-out of ledger commits to filtered subscribers, and point-in-time
//! range reads of versioned dynamic fields addressed by a derived key.

pub mod ids;
pub mod keys;
pub mod messages;
pub mod scan;
pub mod session;
pub mod broadcaster;
