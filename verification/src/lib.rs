//! Restores delegation state that was carved back out of a wiped voting
//! database.
//!
//! A round's `bundles` rows hold `van_comm_rand`, the blinding factor of a VAN
//! that the chain already holds. Where a row was cleared
//! and rebuilt, the rebuilt secret opens nothing: the one that does can only be
//! carved out of freed pages and the write-ahead log.
//! [`restore_carved_delegation`] puts such carved secrets back.
//!
//! Modules:
//!
//! - [`carved`]: what a carve found and what a restore did.
//! - [`error`]: the errors a restore returns.
//! - [`text`]: numbers as decimal text.
//! - [`sql`]: the statements that a restore issues.
//! - [`store`]: the database session, and the log of what was asked and answered.
//! - [`restore`]: the restore itself, as a protocol over that log.
//! - [`tables`]: what a restore does to the rows of a database that answers.
//! - [`conduct`]: what a restore can be held to, whatever the database answers.
//! - [`laws`]: what holds of every restore, over the tables that it works on.

pub mod carved;
pub mod conduct;
pub mod error;
pub mod laws;
pub mod restore;
pub mod sql;
pub mod store;
pub mod tables;
pub mod text;

pub use carved::{CarvedBundle, RestoreOutcome};
pub use error::VotingError;
pub use restore::restore_carved_delegation;
