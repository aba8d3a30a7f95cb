use guitar_contest::receipt::RECEIPT_SPACE;
use guitar_contest::{
    cast_vote, create_submission, receipt_address, try_vote, vote, Address, ContestError,
    CreateSubmission, Ledger, Record, SubmissionAccount, Vote, VoteReceipt,
};

fn voter(n: u8) -> Address {
    let mut bytes = [0xA5; 32];
    bytes[0] = n;
    Address::new(bytes)
}

fn ledger_with_submission() -> (Ledger, Address) {
    let mut ledger = Ledger::new(10_000);
    let ctx = CreateSubmission { user: Address::new([1; 32]) };
    let address =
        create_submission(&mut ledger, &ctx, String::from("Riff"), String::from("vid")).unwrap();
    (ledger, address)
}

#[test]
fn receipt_takes_eight_bytes() {
    assert_eq!(RECEIPT_SPACE, 8);
}

#[test]
fn votes_of_distinct_voters_are_all_counted() {
    let (mut ledger, a) = ledger_with_submission();
    let n = 25u8;
    for i in 0..n {
        assert_eq!(vote(&mut ledger, &Vote { submission: a, user: voter(i) }), Ok(()));
        assert_eq!(ledger.submission(&a).unwrap().vote_count, u64::from(i) + 1);
    }
    assert_eq!(ledger.submission(&a).unwrap().vote_count, 25);
    assert_eq!(ledger.len(), 26);
    assert_eq!(ledger.free(), 10_000 - 126 - 25 * 8);
    for i in 0..n {
        assert!(ledger.has_receipt(&receipt_address(&voter(i), &a).unwrap()));
    }
}

#[test]
fn second_vote_is_a_duplicate() {
    let (mut ledger, a) = ledger_with_submission();
    let ctx = Vote { submission: a, user: voter(1) };
    assert_eq!(vote(&mut ledger, &ctx), Ok(()));
    let free = ledger.free();
    assert_eq!(vote(&mut ledger, &ctx), Err(ContestError::DuplicateVote));
    assert_eq!(ledger.submission(&a).unwrap().vote_count, 1);
    assert_eq!(ledger.len(), 2);
    assert_eq!(ledger.free(), free);
}

#[test]
fn duplicate_is_refused_after_other_votes_too() {
    let (mut ledger, a) = ledger_with_submission();
    let first = Vote { submission: a, user: voter(1) };
    assert_eq!(vote(&mut ledger, &first), Ok(()));
    assert_eq!(vote(&mut ledger, &Vote { submission: a, user: voter(2) }), Ok(()));
    let other = create_submission(
        &mut ledger,
        &CreateSubmission { user: voter(1) },
        String::from("Other"),
        String::from("vid2"),
    )
    .unwrap();
    assert_eq!(vote(&mut ledger, &Vote { submission: other, user: voter(1) }), Ok(()));
    assert_eq!(vote(&mut ledger, &first), Err(ContestError::DuplicateVote));
    assert_eq!(ledger.submission(&a).unwrap().vote_count, 2);
    assert_eq!(ledger.submission(&other).unwrap().vote_count, 1);
}

#[test]
fn same_vote_twice_counts_once() {
    let (mut ledger, a) = ledger_with_submission();
    let ctx = Vote { submission: a, user: voter(9) };
    let outcomes = [vote(&mut ledger, &ctx), vote(&mut ledger, &ctx)];
    assert_eq!(outcomes.iter().filter(|o| o.is_ok()).count(), 1);
    assert_eq!(outcomes[1], Err(ContestError::DuplicateVote));
    assert_eq!(ledger.submission(&a).unwrap().vote_count, 1);
}

#[test]
fn one_voter_may_vote_for_several_submissions() {
    let (mut ledger, a) = ledger_with_submission();
    let b = create_submission(
        &mut ledger,
        &CreateSubmission { user: Address::new([1; 32]) },
        String::from("Second"),
        String::from("vid2"),
    )
    .unwrap();
    assert_eq!(vote(&mut ledger, &Vote { submission: a, user: voter(1) }), Ok(()));
    assert_eq!(vote(&mut ledger, &Vote { submission: b, user: voter(1) }), Ok(()));
    assert_eq!(ledger.submission(&a).unwrap().vote_count, 1);
    assert_eq!(ledger.submission(&b).unwrap().vote_count, 1);
}

#[test]
fn contestant_may_vote_for_own_submission() {
    let (mut ledger, a) = ledger_with_submission();
    let contestant = ledger.submission(&a).unwrap().contestant;
    assert_eq!(vote(&mut ledger, &Vote { submission: a, user: contestant }), Ok(()));
    assert_eq!(ledger.submission(&a).unwrap().vote_count, 1);
}

#[test]
fn vote_for_an_empty_address_finds_no_submission() {
    let (mut ledger, _) = ledger_with_submission();
    let nowhere = Address::new([0xEE; 32]);
    let ctx = Vote { submission: nowhere, user: voter(1) };
    assert_eq!(vote(&mut ledger, &ctx), Err(ContestError::SubmissionNotFound));
    assert_eq!(ledger.len(), 1);
    assert_eq!(ledger.free(), 10_000 - 126);
    assert!(!ledger.contains(&receipt_address(&voter(1), &nowhere).unwrap()));
}

#[test]
fn vote_for_a_receipt_finds_no_submission() {
    let (mut ledger, a) = ledger_with_submission();
    assert_eq!(vote(&mut ledger, &Vote { submission: a, user: voter(1) }), Ok(()));
    let receipt = receipt_address(&voter(1), &a).unwrap();
    let ctx = Vote { submission: receipt, user: voter(2) };
    assert_eq!(vote(&mut ledger, &ctx), Err(ContestError::SubmissionNotFound));
    assert_eq!(ledger.len(), 2);
    assert!(!ledger.contains(&receipt_address(&voter(2), &receipt).unwrap()));
    assert_eq!(ledger.submission(&a).unwrap().vote_count, 1);
}

#[test]
fn vote_on_an_empty_ledger_finds_no_submission() {
    let mut ledger = Ledger::new(100);
    let ctx = Vote { submission: Address::serial(0), user: voter(1) };
    assert_eq!(vote(&mut ledger, &ctx), Err(ContestError::SubmissionNotFound));
    assert_eq!(ledger.len(), 0);
    assert_eq!(ledger.free(), 100);
}

#[test]
fn receipt_needs_its_storage() {
    let mut ledger = Ledger::new(126 + 8 + 7);
    let a = create_submission(
        &mut ledger,
        &CreateSubmission { user: voter(0) },
        String::from("Riff"),
        String::from("vid"),
    )
    .unwrap();
    assert_eq!(vote(&mut ledger, &Vote { submission: a, user: voter(1) }), Ok(()));
    assert_eq!(ledger.free(), 7);
    let ctx = Vote { submission: a, user: voter(2) };
    assert_eq!(vote(&mut ledger, &ctx), Err(ContestError::ResourceExhausted));
    assert_eq!(ledger.submission(&a).unwrap().vote_count, 1);
    assert_eq!(ledger.len(), 2);
    assert_eq!(ledger.free(), 7);
    assert!(!ledger.contains(&receipt_address(&voter(2), &a).unwrap()));
    // A duplicate is told apart even where no storage is left.
    assert_eq!(
        vote(&mut ledger, &Vote { submission: a, user: voter(1) }),
        Err(ContestError::DuplicateVote)
    );
}

fn ledger_with_full_counter() -> (Ledger, Address) {
    let mut ledger = Ledger::new(1000);
    let address = Address::new([0x42; 32]);
    let full = SubmissionAccount {
        contestant: voter(0),
        title: String::from("Full"),
        youtube_id: String::from("vid"),
        vote_count: u64::MAX,
    };
    assert!(ledger.create(address, Record::Submission(full)));
    (ledger, address)
}

#[test]
fn full_counter_refuses_the_vote_and_leaves_no_receipt() {
    let (mut ledger, a) = ledger_with_full_counter();
    let ctx = Vote { submission: a, user: voter(1) };
    assert_eq!(vote(&mut ledger, &ctx), Err(ContestError::CounterOverflow));
    assert_eq!(ledger.submission(&a).unwrap().vote_count, u64::MAX);
    assert_eq!(ledger.len(), 1);
    assert_eq!(ledger.free(), 1000 - 126);
    assert!(!ledger.contains(&receipt_address(&voter(1), &a).unwrap()));
    // The refusal is the same when asked again: nothing was left behind.
    assert_eq!(vote(&mut ledger, &ctx), Err(ContestError::CounterOverflow));
}

#[test]
fn counter_one_below_its_maximum_takes_the_last_vote() {
    let mut ledger = Ledger::new(1000);
    let a = Address::new([0x43; 32]);
    let nearly = SubmissionAccount {
        contestant: voter(0),
        title: String::from("Nearly"),
        youtube_id: String::from("vid"),
        vote_count: u64::MAX - 1,
    };
    assert!(ledger.create(a, Record::Submission(nearly)));
    assert_eq!(vote(&mut ledger, &Vote { submission: a, user: voter(1) }), Ok(()));
    assert_eq!(ledger.submission(&a).unwrap().vote_count, u64::MAX);
    assert_eq!(
        vote(&mut ledger, &Vote { submission: a, user: voter(2) }),
        Err(ContestError::CounterOverflow)
    );
}

#[test]
fn refusals_come_in_their_order() {
    // No submission comes before everything else.
    let mut ledger = Ledger::new(0);
    let nowhere = Address::new([5; 32]);
    let taken = Address::new([6; 32]);
    assert_eq!(cast_vote(&mut ledger, &nowhere, &taken), Err(ContestError::SubmissionNotFound));

    // A taken receipt address comes before storage and counter.
    let (mut ledger, a) = ledger_with_full_counter();
    assert!(ledger.create(taken, Record::Receipt(VoteReceipt {})));
    while ledger.free() >= 8 {
        let n = ledger.len();
        assert!(ledger.create(Address::serial(n as u64), Record::Receipt(VoteReceipt {})));
    }
    assert_eq!(cast_vote(&mut ledger, &a, &taken), Err(ContestError::DuplicateVote));
    // Storage comes before the counter.
    assert_eq!(
        cast_vote(&mut ledger, &a, &Address::new([8; 32])),
        Err(ContestError::ResourceExhausted)
    );
}

#[test]
fn cast_vote_with_a_given_receipt_address() {
    let (mut ledger, a) = ledger_with_submission();
    let receipt = Address::new([0x77; 32]);
    assert_eq!(cast_vote(&mut ledger, &a, &receipt), Ok(()));
    assert_eq!(ledger.get(&receipt), Some(&Record::Receipt(VoteReceipt {})));
    assert_eq!(ledger.submission(&a).unwrap().vote_count, 1);
    assert_eq!(ledger.free(), 10_000 - 126 - 8);
    assert_eq!(cast_vote(&mut ledger, &a, &receipt), Err(ContestError::DuplicateVote));
    // The submission's own address is taken as well.
    assert_eq!(cast_vote(&mut ledger, &a, &a), Err(ContestError::DuplicateVote));
    assert_eq!(ledger.submission(&a).unwrap().vote_count, 1);
}

#[test]
fn vote_changes_only_the_count() {
    let (mut ledger, a) = ledger_with_submission();
    let before = ledger.submission(&a).unwrap().clone();
    assert_eq!(vote(&mut ledger, &Vote { submission: a, user: voter(1) }), Ok(()));
    let after = ledger.submission(&a).unwrap();
    assert_eq!(after.contestant, before.contestant);
    assert_eq!(after.title, before.title);
    assert_eq!(after.youtube_id, before.youtube_id);
    assert_eq!(after.vote_count, before.vote_count + 1);
}

#[test]
fn try_vote_votes_where_a_receipt_address_exists() {
    let (mut ledger, a) = ledger_with_submission();
    let ctx = Vote { submission: a, user: voter(3) };
    assert_eq!(try_vote(&mut ledger, &ctx), Some(Ok(())));
    assert_eq!(ledger.submission(&a).unwrap().vote_count, 1);
    assert_eq!(try_vote(&mut ledger, &ctx), Some(Err(ContestError::DuplicateVote)));
    assert_eq!(ledger.submission(&a).unwrap().vote_count, 1);
}
