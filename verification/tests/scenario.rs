use guitar_contest::{
    create_submission, receipt_address, vote, Address, ContestError, CreateSubmission, Ledger, Vote,
};

#[test]
fn midnight_solo_scenario() {
    let mut ledger = Ledger::new(1024);
    let contestant = Address::new([1; 32]);
    let v1 = Address::new([2; 32]);
    let v2 = Address::new([3; 32]);

    let a = create_submission(
        &mut ledger,
        &CreateSubmission { user: contestant },
        String::from("Midnight Solo"),
        String::from("abc123XYZ09"),
    )
    .unwrap();
    let entry = ledger.submission(&a).unwrap();
    assert_eq!(entry.vote_count, 0);
    assert_eq!(entry.title, "Midnight Solo");
    assert_eq!(entry.youtube_id, "abc123XYZ09");
    assert_eq!(entry.contestant, contestant);

    assert_eq!(vote(&mut ledger, &Vote { submission: a, user: v1 }), Ok(()));
    assert_eq!(ledger.submission(&a).unwrap().vote_count, 1);
    let receipt = receipt_address(&v1, &a).unwrap();
    assert!(ledger.has_receipt(&receipt));

    assert_eq!(
        vote(&mut ledger, &Vote { submission: a, user: v1 }),
        Err(ContestError::DuplicateVote)
    );
    assert_eq!(ledger.submission(&a).unwrap().vote_count, 1);

    assert_eq!(vote(&mut ledger, &Vote { submission: a, user: v2 }), Ok(()));
    assert_eq!(ledger.submission(&a).unwrap().vote_count, 2);
    assert!(ledger.has_receipt(&receipt_address(&v2, &a).unwrap()));
    assert_eq!(ledger.len(), 3);
}
