//! Submissions: the entries of the contest.

use crate::address::Address;
use crate::error::ContestError;
use vstd::prelude::*;
use vstd::utf8::encode_utf8;

verus! {

/// The longest title, in bytes of its UTF-8 encoding.
pub const MAX_TITLE_BYTES: usize = 50;

/// The longest video identifier, in bytes of its UTF-8 encoding.
pub const MAX_YOUTUBE_ID_BYTES: usize = 20;

/// Storage taken by one submission: type tag, contestant, the two texts at
/// their longest, each behind a 4-byte length, and the 8-byte counter.
pub const SUBMISSION_SPACE: u64 = 8 + 32 + (4 + 50) + (4 + 20) + 8;

/// Length of a text in bytes of its UTF-8 encoding.
pub open spec fn byte_len(text: Seq<char>) -> nat {
    encode_utf8(text).len()
}

/// Whether a title and a video identifier are both within their bounds.
pub open spec fn texts_fit(title: Seq<char>, youtube_id: Seq<char>) -> bool {
    byte_len(title) <= MAX_TITLE_BYTES && byte_len(youtube_id) <= MAX_YOUTUBE_ID_BYTES
}

/// A submission as a mathematical value.
pub struct SubmissionView {
    pub contestant: Seq<u8>,
    pub title: Seq<char>,
    pub youtube_id: Seq<char>,
    pub vote_count: nat,
}

impl SubmissionView {
    /// The submission that a contestant has just registered.
    pub open spec fn fresh(contestant: Seq<u8>, title: Seq<char>, youtube_id: Seq<char>) -> SubmissionView {
        SubmissionView { contestant, title, youtube_id, vote_count: 0 }
    }

    /// Both texts are within their bounds.
    pub open spec fn within_bounds(self) -> bool {
        texts_fit(self.title, self.youtube_id)
    }

    /// The counter can take one more vote.
    pub open spec fn can_count(self) -> bool {
        self.vote_count < u64::MAX
    }

    /// The same submission with one more vote.
    pub open spec fn voted(self) -> SubmissionView {
        SubmissionView { vote_count: self.vote_count + 1, ..self }
    }

    /// Bytes that the stored form of this submission takes.
    pub open spec fn stored_len(self) -> nat {
        8 + 32 + (4 + byte_len(self.title)) + (4 + byte_len(self.youtube_id)) + 8
    }
}

/// A contest entry: who registered it, what it is, and how many votes it has.
#[derive(Clone, Debug, PartialEq, Eq)]
pub struct SubmissionAccount {
    pub contestant: Address,
    pub title: String,
    pub youtube_id: String,
    pub vote_count: u64,
}

impl View for SubmissionAccount {
    type V = SubmissionView;

    open spec fn view(&self) -> SubmissionView {
        SubmissionView {
            contestant: self.contestant@,
            title: self.title@,
            youtube_id: self.youtube_id@,
            vote_count: self.vote_count as nat,
        }
    }
}

/// Whether `text` has at most `bound` bytes.
fn fits(text: &String, bound: usize) -> (ok: bool)
    ensures
        ok == (byte_len(text@) <= bound),
{
    text.as_str().as_bytes().len() <= bound
}

impl SubmissionAccount {
    /// Registers a submission of `contestant` with no votes. Texts beyond
    /// their bounds are refused.
    pub fn new(contestant: Address, title: String, youtube_id: String) -> (made: Result<SubmissionAccount, ContestError>)
        ensures
            texts_fit(title@, youtube_id@) ==> made is Ok && made->Ok_0@ == SubmissionView::fresh(
                contestant@,
                title@,
                youtube_id@,
            ),
            !texts_fit(title@, youtube_id@) ==> made == Err::<SubmissionAccount, ContestError>(
                ContestError::ConstraintViolation,
            ),
    {
        if !fits(&title, MAX_TITLE_BYTES) || !fits(&youtube_id, MAX_YOUTUBE_ID_BYTES) {
            return Err(ContestError::ConstraintViolation);
        }
        Ok(SubmissionAccount { contestant, title, youtube_id, vote_count: 0 })
    }

    /// Whether both texts are within their bounds.
    pub fn is_within_bounds(&self) -> (ok: bool)
        ensures
            ok == self@.within_bounds(),
    {
        fits(&self.title, MAX_TITLE_BYTES) && fits(&self.youtube_id, MAX_YOUTUBE_ID_BYTES)
    }

    /// Counts one more vote, unless the counter is at its maximum.
    pub fn record_vote(&mut self) -> (done: Result<(), ContestError>)
        ensures
            old(self)@.can_count() ==> done is Ok && final(self)@ == old(self)@.voted(),
            !old(self)@.can_count() ==> done == Err::<(), ContestError>(ContestError::CounterOverflow)
                && *final(self) == *old(self),
    {
        match self.vote_count.checked_add(1) {
            Some(count) => {
                self.vote_count = count;
                Ok(())
            },
            None => Err(ContestError::CounterOverflow),
        }
    }
}

/// A submission within its bounds fits the storage set aside for it.
pub proof fn lemma_bounded_submission_fits_space(s: SubmissionView)
    requires
        s.within_bounds(),
    ensures
        s.stored_len() <= SUBMISSION_SPACE,
{
}

} // verus!
