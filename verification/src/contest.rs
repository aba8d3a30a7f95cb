//! The two operations of the contest: registering a submission and voting for
//! one. Each either takes effect as a whole or leaves the ledger as it was.
//!
//! A vote is let through once for each voter and submission. What tells a
//! first vote from a second is the receipt: casting a vote creates one at the
//! receipt address of the voter and the submission, and no record can be
//! created where one lies already.

use crate::address::Address;
use crate::error::ContestError;
use crate::ledger::{Ledger, LedgerView, Record, RecordView};
use crate::receipt::{receipt_address, receipt_address_of, VoteReceipt, RECEIPT_SPACE};
use crate::submission::{texts_fit, SubmissionAccount, SubmissionView, SUBMISSION_SPACE};
use vstd::prelude::*;

verus! {

/// Who registers a submission.
#[derive(Clone, Copy, Debug, PartialEq, Eq)]
pub struct CreateSubmission {
    /// The contestant.
    pub user: Address,
}

/// Who votes, and for what.
#[derive(Clone, Copy, Debug, PartialEq, Eq)]
pub struct Vote {
    /// The address of the submission voted for.
    pub submission: Address,
    /// The voter.
    pub user: Address,
}

impl LedgerView {
    /// What registering a submission with these texts answers: the address of
    /// the new submission, or why there is none.
    pub open spec fn create_outcome(self, title: Seq<char>, youtube_id: Seq<char>) -> Result<
        Seq<u8>,
        ContestError,
    > {
        if !texts_fit(title, youtube_id) {
            Err(ContestError::ConstraintViolation)
        } else if self.free < SUBMISSION_SPACE {
            Err(ContestError::ResourceExhausted)
        } else {
            Ok(self.next_address())
        }
    }

    /// The ledger after registering: with the new submission, without votes,
    /// at the next address; or unchanged where registering was refused.
    pub open spec fn after_create(
        self,
        contestant: Seq<u8>,
        title: Seq<char>,
        youtube_id: Seq<char>,
    ) -> LedgerView {
        if self.create_outcome(title, youtube_id) is Ok {
            self.with_record(
                self.next_address(),
                RecordView::Submission(SubmissionView::fresh(contestant, title, youtube_id)),
            )
        } else {
            self
        }
    }

    /// What a vote for the submission at `submission` answers, where the
    /// voter's receipt for it belongs at `receipt`.
    pub open spec fn vote_outcome(self, submission: Seq<u8>, receipt: Seq<u8>) -> Result<
        (),
        ContestError,
    > {
        match self.submission_at(submission) {
            None => Err(ContestError::SubmissionNotFound),
            Some(s) => if self.occupied(receipt) {
                Err(ContestError::DuplicateVote)
            } else if self.free < RECEIPT_SPACE {
                Err(ContestError::ResourceExhausted)
            } else if !s.can_count() {
                Err(ContestError::CounterOverflow)
            } else {
                Ok(())
            },
        }
    }

    /// The ledger after a vote: with the receipt and with one more vote for
    /// the submission; or unchanged where the vote was refused.
    pub open spec fn after_vote(self, submission: Seq<u8>, receipt: Seq<u8>) -> LedgerView {
        if self.vote_outcome(submission, receipt) is Ok {
            self.with_record(receipt, RecordView::Receipt).with_vote(submission)
        } else {
            self
        }
    }
}

/// Registers a submission of `ctx.user` with the given title and video
/// identifier, and answers the address it was given.
///
/// A title of more than 50 bytes or an identifier of more than 20 is refused
/// with `ConstraintViolation`; otherwise, a ledger with less storage left than
/// a submission takes refuses with `ResourceExhausted`. Registering the same
/// texts again makes another submission.
pub fn create_submission(
    ledger: &mut Ledger,
    ctx: &CreateSubmission,
    title: String,
    youtube_id: String,
) -> (made: Result<Address, ContestError>)
    ensures
        made matches Ok(address) ==> old(ledger)@.create_outcome(title@, youtube_id@) == Ok::<
            Seq<u8>,
            ContestError,
        >(address@),
        made matches Err(e) ==> old(ledger)@.create_outcome(title@, youtube_id@) == Err::<
            Seq<u8>,
            ContestError,
        >(e),
        final(ledger)@ == old(ledger)@.after_create(ctx.user@, title@, youtube_id@),
        final(ledger)@.well_formed(),
        !texts_fit(title@, youtube_id@) ==> made == Err::<Address, ContestError>(
            ContestError::ConstraintViolation,
        ) && final(ledger)@ == old(ledger)@,
        texts_fit(title@, youtube_id@) && old(ledger)@.free < SUBMISSION_SPACE ==> made == Err::<
            Address,
            ContestError,
        >(ContestError::ResourceExhausted) && final(ledger)@ == old(ledger)@,
        texts_fit(title@, youtube_id@) && old(ledger)@.free >= SUBMISSION_SPACE ==> made is Ok,
        made matches Ok(address) ==> !old(ledger)@.occupied(address@)
            && final(ledger)@.submission_at(address@) == Some(
            SubmissionView::fresh(ctx.user@, title@, youtube_id@),
        ),
{
    let free = ledger.free();
    let account = match SubmissionAccount::new(ctx.user, title, youtube_id) {
        Ok(account) => account,
        Err(e) => {
            return Err(e);
        },
    };
    if free < SUBMISSION_SPACE {
        return Err(ContestError::ResourceExhausted);
    }
    let address = ledger.fresh_address();
    ledger.insert(address, Record::Submission(account));
    Ok(address)
}

/// Casts a vote for the submission at `submission`, with the receipt at
/// `receipt`.
///
/// The vote is refused with `SubmissionNotFound` where `submission` holds no
/// submission; else with `DuplicateVote` where `receipt` holds a record
/// already; else with `ResourceExhausted` where less storage is left than a
/// receipt takes; else with `CounterOverflow` where the counter is at its
/// maximum. Otherwise the receipt is created and the counter goes up by one.
pub fn cast_vote(ledger: &mut Ledger, submission: &Address, receipt: &Address) -> (done: Result<
    (),
    ContestError,
>)
    ensures
        done == old(ledger)@.vote_outcome(submission@, receipt@),
        final(ledger)@ == old(ledger)@.after_vote(submission@, receipt@),
        final(ledger)@.well_formed(),
        done is Err ==> final(ledger)@ == old(ledger)@,
        old(ledger)@.submission_at(submission@) is None ==> done == Err::<(), ContestError>(
            ContestError::SubmissionNotFound,
        ),
        done is Ok ==> final(ledger)@.has_receipt(receipt@) && final(ledger)@.submission_at(
            submission@,
        ) == Some(old(ledger)@.submission_at(submission@).unwrap().voted()),
{
    let can_count = match ledger.submission(submission) {
        Some(s) => s.vote_count < u64::MAX,
        None => {
            return Err(ContestError::SubmissionNotFound);
        },
    };
    if ledger.contains(receipt) {
        return Err(ContestError::DuplicateVote);
    }
    if ledger.free() < RECEIPT_SPACE {
        return Err(ContestError::ResourceExhausted);
    }
    if !can_count {
        return Err(ContestError::CounterOverflow);
    }
    ledger.insert(*receipt, Record::Receipt(VoteReceipt {  }));
    ledger.count_vote(submission);
    Ok(())
}

/// Casts the vote of `ctx.user` for the submission at `ctx.submission`: a
/// vote with the receipt at the receipt address of the two, refused and let
/// through as `cast_vote` says.
///
/// The two must have a receipt address, as no vote can be cast without one;
/// `try_vote` asks for nothing.
pub fn vote(ledger: &mut Ledger, ctx: &Vote) -> (done: Result<(), ContestError>)
    requires
        receipt_address_of(ctx.user@, ctx.submission@) is Some,
    ensures
        done == old(ledger)@.vote_outcome(
            ctx.submission@,
            receipt_address_of(ctx.user@, ctx.submission@).unwrap(),
        ),
        final(ledger)@ == old(ledger)@.after_vote(
            ctx.submission@,
            receipt_address_of(ctx.user@, ctx.submission@).unwrap(),
        ),
        final(ledger)@.well_formed(),
        done is Err ==> final(ledger)@ == old(ledger)@,
        old(ledger)@.submission_at(ctx.submission@) is None ==> done == Err::<(), ContestError>(
            ContestError::SubmissionNotFound,
        ),
{
    let receipt = receipt_address(&ctx.user, &ctx.submission).unwrap();
    cast_vote(ledger, &ctx.submission, &receipt)
}

/// Casts the vote of `ctx.user` for the submission at `ctx.submission` where
/// the two have a receipt address, and answers `None`, with the ledger as it
/// was, where they have none.
pub fn try_vote(ledger: &mut Ledger, ctx: &Vote) -> (tried: Option<Result<(), ContestError>>)
    ensures
        receipt_address_of(ctx.user@, ctx.submission@) is None ==> tried is None && final(ledger)@
            == old(ledger)@,
        receipt_address_of(ctx.user@, ctx.submission@) matches Some(receipt) ==> tried == Some(
            old(ledger)@.vote_outcome(ctx.submission@, receipt),
        ) && final(ledger)@ == old(ledger)@.after_vote(ctx.submission@, receipt),
        final(ledger)@.well_formed(),
{
    proof {
        use_type_invariant(&*ledger);
        ledger.lemma_well_formed();
    }
    match receipt_address(&ctx.user, &ctx.submission) {
        Some(_) => Some(vote(ledger, ctx)),
        None => None,
    }
}

} // verus!
