//! Pull complete NEAR indexer messages without running a node: the verified
//! decisions of a pull-based indexer client.
//!
//! A poll samples a head, walks hash ancestry back to the consumer's
//! checkpoint or the common ancestor, and fetches the complete payload of
//! every block to apply. The decisions of that walk live in
//! [`session::PollSession`], which says at each point what to fetch next and
//! judges every answer; the caller performs the fetches.
pub mod ancestry;
pub mod catch_up;
pub mod client;
pub mod error;
pub mod hash;
pub mod header;
pub mod laws;
pub mod payload;
pub mod session;

pub use ancestry::check_parent;
pub use client::Client;
pub use error::Error;
pub use hash::BlockHash;
pub use header::{Checkpoint, Finality, Header};
pub use payload::{check_fetched_block, restore_explicit_nulls, PayloadSummary};
pub use session::{PollSession, Request, Update};
