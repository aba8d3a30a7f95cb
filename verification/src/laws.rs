//! What holds of the contest whatever is asked of the ledger, and in whatever
//! order: records stay, a voter counts once for a submission, and a receipt
//! and the vote it stands for come into being together.

use crate::error::ContestError;
use crate::ledger::{lemma_next_address_free, LedgerView, RecordView};
use crate::receipt::receipt_address_of;
use crate::submission::SubmissionView;
use vstd::prelude::*;

verus! {

/// A request to the ledger: to register a submission, or to cast a vote with
/// its receipt at a given address.
pub enum Request {
    Create { contestant: Seq<u8>, title: Seq<char>, youtube_id: Seq<char> },
    Vote { submission: Seq<u8>, receipt: Seq<u8> },
}

impl LedgerView {
    /// The ledger after one request.
    pub open spec fn after(self, request: Request) -> LedgerView {
        match request {
            Request::Create { contestant, title, youtube_id } => self.after_create(
                contestant,
                title,
                youtube_id,
            ),
            Request::Vote { submission, receipt } => self.after_vote(submission, receipt),
        }
    }

    /// The ledger after a run of requests, served one after the other.
    pub open spec fn after_all(self, requests: Seq<Request>) -> LedgerView
        decreases requests.len(),
    {
        if requests.len() == 0 {
            self
        } else {
            self.after_all(requests.drop_last()).after(requests.last())
        }
    }

    /// Whatever `self` holds, `later` holds too: a receipt is still a receipt,
    /// and a submission is still the submission of the same contestant, with
    /// the same texts and no fewer votes.
    pub open spec fn kept_in(self, later: LedgerView) -> bool {
        forall|a: Seq<u8>| #[trigger]
            self.records.contains_key(a) ==> later.records.contains_key(a) && match self.records[a] {
                RecordView::Receipt => later.records[a] is Receipt,
                RecordView::Submission(s) => later.records[a] matches RecordView::Submission(t)
                    && t.contestant == s.contestant && t.title == s.title && t.youtube_id
                    == s.youtube_id && t.vote_count >= s.vote_count,
            }
    }

    /// The votes of the submission at the address; zero where it holds none.
    pub open spec fn votes_at(self, address: Seq<u8>) -> nat {
        match self.submission_at(address) {
            Some(s) => s.vote_count,
            None => 0,
        }
    }
}

/// A request leaves a well-formed ledger well-formed, and keeps what it held.
pub proof fn lemma_request_keeps(ledger: LedgerView, request: Request)
    requires
        ledger.well_formed(),
    ensures
        ledger.after(request).well_formed(),
        ledger.kept_in(ledger.after(request)),
{
    lemma_next_address_free(ledger);
}

/// No run of requests removes or moves a record, turns it into one of the
/// other kind, changes who registered a submission or its texts, or lowers
/// its votes.
pub proof fn lemma_records_stay(ledger: LedgerView, requests: Seq<Request>)
    requires
        ledger.well_formed(),
    ensures
        ledger.after_all(requests).well_formed(),
        ledger.kept_in(ledger.after_all(requests)),
    decreases requests.len(),
{
    if requests.len() > 0 {
        let before = ledger.after_all(requests.drop_last());
        lemma_records_stay(ledger, requests.drop_last());
        lemma_request_keeps(before, requests.last());
    }
}

/// A receipt and the vote it stands for come together. A vote that is let
/// through creates its receipt and raises the count of its submission by one,
/// and touches no other address; any other request leaves every receipt and
/// every count as it was.
pub proof fn lemma_receipt_with_vote(ledger: LedgerView, request: Request)
    requires
        ledger.well_formed(),
    ensures
        match request {
            Request::Vote { submission, receipt } if ledger.vote_outcome(submission, receipt) is Ok => {
                let later = ledger.after(request);
                &&& !ledger.occupied(receipt)
                &&& later.has_receipt(receipt)
                &&& later.votes_at(submission) == ledger.votes_at(submission) + 1
                &&& forall|a: Seq<u8>|
                    a != receipt && a != submission ==> later.records.contains_key(a)
                        == ledger.records.contains_key(a) && later.records[a] == ledger.records[a]
            },
            _ => {
                let later = ledger.after(request);
                &&& forall|a: Seq<u8>| later.has_receipt(a) == ledger.has_receipt(a)
                &&& forall|a: Seq<u8>| ledger.occupied(a) ==> later.votes_at(a) == ledger.votes_at(a)
            },
        },
{
    lemma_next_address_free(ledger);
}

/// Once a vote was let through, the same vote is refused as a duplicate, and
/// changes nothing, whatever was asked of the ledger in between.
pub proof fn lemma_second_vote_refused(
    ledger: LedgerView,
    submission: Seq<u8>,
    receipt: Seq<u8>,
    between: Seq<Request>,
)
    requires
        ledger.well_formed(),
        ledger.vote_outcome(submission, receipt) is Ok,
    ensures
        ({
            let later = ledger.after_vote(submission, receipt).after_all(between);
            &&& later.vote_outcome(submission, receipt) == Err::<(), ContestError>(
                ContestError::DuplicateVote,
            )
            &&& later.after_vote(submission, receipt) == later
        }),
{
    let voted = ledger.after_vote(submission, receipt);
    lemma_request_keeps(ledger, Request::Vote { submission, receipt });
    lemma_records_stay(voted, between);
    assert(voted.records.contains_key(receipt));
    assert(voted.records.contains_key(submission));
}

/// The same vote asked twice in a row is let through at most once and counts
/// at most once: where the first is let through, the second is refused as a
/// duplicate and the count stands one above where it began; where the first
/// is refused, so is the second, for the same reason, and nothing has changed.
pub proof fn lemma_same_vote_twice(ledger: LedgerView, submission: Seq<u8>, receipt: Seq<u8>)
    ensures
        ({
            let first = ledger.vote_outcome(submission, receipt);
            let once = ledger.after_vote(submission, receipt);
            let second = once.vote_outcome(submission, receipt);
            let twice = once.after_vote(submission, receipt);
            &&& !(first is Ok && second is Ok)
            &&& twice == once
            &&& first is Ok ==> second == Err::<(), ContestError>(ContestError::DuplicateVote)
                && twice.votes_at(submission) == ledger.votes_at(submission) + 1
            &&& first is Err ==> second == first && twice == ledger
        }),
{
    let once = ledger.after_vote(submission, receipt);
    if ledger.vote_outcome(submission, receipt) is Ok {
        assert(once.records.contains_key(receipt));
        assert(once.records.contains_key(submission));
    }
}

/// Whether the voters, voting for the submission one after the other in the
/// order given, are all let through.
pub open spec fn votes_succeed(ledger: LedgerView, submission: Seq<u8>, voters: Seq<Seq<u8>>) -> bool
    decreases voters.len(),
{
    voters.len() > 0 ==> {
        &&& votes_succeed(ledger, submission, voters.drop_last())
        &&& receipt_address_of(voters.last(), submission) matches Some(receipt)
        &&& after_votes(ledger, submission, voters.drop_last()).vote_outcome(submission, receipt) is Ok
    }
}

/// The ledger after the voters have voted for the submission, one after the
/// other in the order given.
pub open spec fn after_votes(ledger: LedgerView, submission: Seq<u8>, voters: Seq<Seq<u8>>) -> LedgerView
    decreases voters.len(),
{
    if voters.len() == 0 {
        ledger
    } else {
        let before = after_votes(ledger, submission, voters.drop_last());
        match receipt_address_of(voters.last(), submission) {
            Some(receipt) => before.after_vote(submission, receipt),
            None => before,
        }
    }
}

/// Votes that are all let through are all counted: the submission then has as
/// many votes more as there were voters, and is otherwise as it was. The
/// receipt of each voter is in the ledger, and no voter was among them twice.
pub proof fn lemma_votes_counted(ledger: LedgerView, submission: Seq<u8>, voters: Seq<Seq<u8>>)
    requires
        ledger.well_formed(),
        ledger.submission_at(submission) is Some,
        votes_succeed(ledger, submission, voters),
    ensures
        after_votes(ledger, submission, voters).well_formed(),
        ledger.kept_in(after_votes(ledger, submission, voters)),
        after_votes(ledger, submission, voters).submission_at(submission) == Some(
            SubmissionView {
                vote_count: ledger.submission_at(submission).unwrap().vote_count + voters.len(),
                ..ledger.submission_at(submission).unwrap()
            },
        ),
        forall|i: int|
            0 <= i < voters.len() ==> after_votes(ledger, submission, voters).has_receipt(
                receipt_address_of(#[trigger] voters[i], submission).unwrap(),
            ),
        forall|i: int, j: int| 0 <= i < j < voters.len() ==> voters[i] != voters[j],
    decreases voters.len(),
{
    if voters.len() > 0 {
        let front = voters.drop_last();
        let before = after_votes(ledger, submission, front);
        let receipt = receipt_address_of(voters.last(), submission).unwrap();
        lemma_votes_counted(ledger, submission, front);
        lemma_request_keeps(before, Request::Vote { submission, receipt });
        let after = before.after_vote(submission, receipt);
        assert forall|i: int| 0 <= i < voters.len() implies after.has_receipt(
            receipt_address_of(#[trigger] voters[i], submission).unwrap(),
        ) by {
            if i < front.len() {
                assert(front[i] == voters[i]);
                assert(before.records.contains_key(receipt_address_of(front[i], submission).unwrap()));
            }
        }
        assert forall|i: int, j: int| 0 <= i < j < voters.len() implies voters[i] != voters[j] by {
            if j < front.len() {
                assert(front[i] == voters[i] && front[j] == voters[j]);
            } else {
                assert(front[i] == voters[i]);
                assert(before.has_receipt(receipt_address_of(front[i], submission).unwrap()));
            }
        }
        assert forall|a: Seq<u8>| #[trigger] ledger.records.contains_key(a) implies after.records.contains_key(a)
            && match ledger.records[a] {
            RecordView::Receipt => after.records[a] is Receipt,
            RecordView::Submission(s) => after.records[a] matches RecordView::Submission(t)
                && t.contestant == s.contestant && t.title == s.title && t.youtube_id
                == s.youtube_id && t.vote_count >= s.vote_count,
        } by {
            assert(before.records.contains_key(a));
        }
    }
}

/// Two submissions registered one after the other, whatever was asked of the
/// ledger in between and even with the same contestant and texts, lie at
/// different addresses, and the ledger holds both.
pub proof fn lemma_submissions_apart(
    ledger: LedgerView,
    first: SubmissionView,
    between: Seq<Request>,
    second: SubmissionView,
)
    requires
        ledger.well_formed(),
        ledger.create_outcome(first.title, first.youtube_id) is Ok,
        ledger.after_create(first.contestant, first.title, first.youtube_id).after_all(
            between,
        ).create_outcome(second.title, second.youtube_id) is Ok,
    ensures
        ({
            let one = ledger.after_create(first.contestant, first.title, first.youtube_id);
            let later = one.after_all(between);
            let both = later.after_create(second.contestant, second.title, second.youtube_id);
            &&& ledger.next_address() != later.next_address()
            &&& both.submission_at(ledger.next_address()) is Some
            &&& both.submission_at(later.next_address()) is Some
        }),
{
    let one = ledger.after_create(first.contestant, first.title, first.youtube_id);
    let later = one.after_all(between);
    lemma_next_address_free(ledger);
    lemma_request_keeps(
        ledger,
        Request::Create {
            contestant: first.contestant,
            title: first.title,
            youtube_id: first.youtube_id,
        },
    );
    assert(one.records.contains_key(ledger.next_address()));
    lemma_records_stay(one, between);
    lemma_next_address_free(later);
    lemma_request_keeps(
        later,
        Request::Create {
            contestant: second.contestant,
            title: second.title,
            youtube_id: second.youtube_id,
        },
    );
    assert(later.records.contains_key(ledger.next_address()));
}

} // verus!
