//! A contest ledger: contestants register submissions, and every voter may
//! vote at most once for each submission.
//!
//! The ledger keeps records under addresses and creates a record only where
//! none lies yet. A vote leaves a receipt at an address computed from the
//! voter and the submission, so a second vote of the same voter for the same
//! submission finds that address taken and is refused.

pub mod address;
pub mod contest;
pub mod error;
pub mod laws;
pub mod ledger;
pub mod receipt;
pub mod submission;

pub use address::Address;
pub use contest::{cast_vote, create_submission, try_vote, vote, CreateSubmission, Vote};
pub use error::ContestError;
pub use ledger::{Ledger, Record};
pub use receipt::{receipt_address, VoteReceipt};
pub use submission::SubmissionAccount;
