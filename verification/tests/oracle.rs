use renaissance_contract::{
    record_is_consistent, Address, AlreadyInitialized, MatchRecord, MatchResult, OracleContract,
    OracleError,
};

fn addr(key: &str) -> Address {
    Address::new(key.to_string())
}

/// An oracle with two oracles configured, as the contract tests set it up.
fn setup() -> (OracleContract, Address, Address) {
    let o1 = addr("GORACLEONE");
    let o2 = addr("GORACLETWO");
    let mut oracle = OracleContract::new();
    oracle.initialize(vec![o1.clone(), o2.clone()]).unwrap();
    (oracle, o1, o2)
}

// Happy path: 2-of-2 finalizes result
#[test]
fn test_finalize_on_two_confirmations() {
    let (mut client, o1, o2) = setup();
    let now = 1000;
    client.submit_result(o1.clone(), 1, 2, 1, 500, 2000, now).unwrap();
    assert!(!client.is_finalized(1));
    client.confirm_result(o2.clone(), 1).unwrap();
    assert!(client.is_finalized(1));
    let r = client.get_result(1).unwrap();
    assert_eq!(r.home_score, 2);
    assert_eq!(r.away_score, 1);
}

// Double-submit by same oracle is rejected
#[test]
fn lib_test_double_submit() {
    let (mut client, o1, _o2) = setup();
    let now = 1000;
    client.submit_result(o1.clone(), 2, 1, 0, 500, 2000, now).unwrap();
    let err = client.submit_result(o1.clone(), 2, 1, 0, 500, 2000, now).unwrap_err();
    assert_eq!(err, OracleError::AlreadySubmitted);
}

// Double-confirm by same oracle is rejected
#[test]
fn lib_test_double_confirm() {
    let (mut client, o1, _o2) = setup();
    let now = 1000;
    client.submit_result(o1.clone(), 3, 0, 0, 500, 2000, now).unwrap();
    let err = client.confirm_result(o1.clone(), 3).unwrap_err();
    assert_eq!(err, OracleError::AlreadyConfirmed);
}

// Late submission (after finished_at) is rejected
#[test]
fn test_late_submission() {
    let (mut client, o1, _o2) = setup();
    let now = 5000; // after finished_at=2000
    let err = client.submit_result(o1.clone(), 4, 1, 0, 500, 2000, now).unwrap_err();
    assert_eq!(err, OracleError::WindowViolation);
}

// Early submission (before started_at) is rejected
#[test]
fn test_early_submission() {
    let (mut client, o1, _o2) = setup();
    let now = 100; // before started_at=500
    let err = client.submit_result(o1.clone(), 5, 1, 0, 500, 2000, now).unwrap_err();
    assert_eq!(err, OracleError::WindowViolation);
}

// Unauthorized caller is rejected
#[test]
fn test_unauthorized_submit() {
    let (mut client, _o1, _o2) = setup();
    let now = 1000;
    let intruder = addr("GINTRUDER");
    let err = client.submit_result(intruder, 6, 1, 0, 500, 2000, now).unwrap_err();
    assert_eq!(err, OracleError::OracleUnauthorized);
}

// Unauthorized confirm is rejected
#[test]
fn test_unauthorized_confirm() {
    let (mut client, o1, _o2) = setup();
    let now = 1000;
    client.submit_result(o1.clone(), 7, 1, 0, 500, 2000, now).unwrap();
    let intruder = addr("GINTRUDER");
    let err = client.confirm_result(intruder, 7).unwrap_err();
    assert_eq!(err, OracleError::OracleUnauthorized);
}

#[test]
fn oracle_window_bounds_are_inclusive() {
    let (mut client, o1, _o2) = setup();
    client.submit_result(o1.clone(), 8, 0, 0, 500, 2000, 500).unwrap();
    client.submit_result(o1.clone(), 9, 0, 0, 500, 2000, 2000).unwrap();
    assert!(client.get_result(8).is_ok());
    assert!(client.get_result(9).is_ok());
}

#[test]
fn oracle_single_oracle_finalizes_on_submit() {
    let solo = addr("GSOLO");
    let mut oracle = OracleContract::new();
    oracle.initialize(vec![solo.clone()]).unwrap();
    oracle.submit_result(solo.clone(), 1, 3, 3, 0, 10, 5).unwrap();
    assert!(oracle.is_finalized(1));
}

#[test]
fn oracle_two_of_three_finalizes() {
    let a = addr("GA");
    let b = addr("GB");
    let c = addr("GC");
    let mut oracle = OracleContract::new();
    oracle.initialize(vec![a.clone(), b.clone(), c.clone()]).unwrap();
    oracle.submit_result(b.clone(), 42, 1, 2, 0, 100, 50).unwrap();
    assert!(!oracle.is_finalized(42));
    oracle.confirm_result(c.clone(), 42).unwrap();
    assert!(oracle.is_finalized(42));
    assert_eq!(oracle.confirm_result(a.clone(), 42), Err(OracleError::AlreadyFinalized));
    let record = oracle.record(42).unwrap();
    assert_eq!(record.submitter, b);
    assert_eq!(record.confirmations, vec![b, c]);
}

#[test]
fn oracle_result_lookup_errors() {
    let (mut client, o1, _o2) = setup();
    assert_eq!(client.get_result(77), Err(OracleError::ResultNotFound));
    assert!(!client.is_finalized(77));
    assert_eq!(client.confirm_result(o1, 77), Err(OracleError::ResultNotFound));
}

#[test]
fn oracle_get_result_returns_submission() {
    let (mut client, o1, _o2) = setup();
    client.submit_result(o1, 5, 4, 2, 10, 20, 15).unwrap();
    assert_eq!(
        client.get_result(5),
        Ok(MatchResult {
            match_id: 5,
            home_score: 4,
            away_score: 2,
            started_at: 10,
            finished_at: 20,
            finalized: false,
        })
    );
}

#[test]
fn oracle_initialize_only_once() {
    let (mut client, o1, _o2) = setup();
    assert_eq!(client.initialize(vec![o1]), Err(AlreadyInitialized));
    assert_eq!(client.oracles().unwrap().len(), 2);
}

#[test]
fn oracle_uninitialized_rejects_everyone() {
    let mut oracle = OracleContract::new();
    assert!(oracle.oracles().is_none());
    assert_eq!(
        oracle.submit_result(addr("GANY"), 1, 0, 0, 0, 10, 5),
        Err(OracleError::OracleUnauthorized)
    );
}

#[test]
fn oracle_from_parts_round_trip() {
    let (mut client, o1, o2) = setup();
    client.submit_result(o1.clone(), 11, 1, 1, 0, 10, 5).unwrap();
    let record = client.record(11).unwrap();
    let copy = MatchRecord {
        result: record.result,
        submitter: record.submitter.clone(),
        confirmations: record.confirmations.clone(),
    };
    let mut rebuilt =
        OracleContract::from_parts(Some(vec![o1.clone(), o2.clone()]), vec![copy]).unwrap();
    rebuilt.confirm_result(o2.clone(), 11).unwrap();
    assert!(rebuilt.is_finalized(11));
}

#[test]
fn oracle_from_parts_rejects_inconsistent_state() {
    let o1 = addr("GONE");
    let o2 = addr("GTWO");
    let result = MatchResult {
        match_id: 1,
        home_score: 0,
        away_score: 0,
        started_at: 0,
        finished_at: 1,
        finalized: false,
    };
    let make = |submitter: &Address, confirmations: Vec<Address>, finalized: bool| MatchRecord {
        result: MatchResult { finalized, ..result },
        submitter: submitter.clone(),
        confirmations,
    };
    let oracles = vec![o1.clone(), o2.clone()];
    // consistent
    assert!(record_is_consistent(&oracles, &make(&o1, vec![o1.clone()], false)));
    // marked final with a single confirmation out of two oracles
    assert!(!record_is_consistent(&oracles, &make(&o1, vec![o1.clone()], true)));
    // confirmed twice by the same oracle
    assert!(!record_is_consistent(&oracles, &make(&o1, vec![o1.clone(), o1.clone()], true)));
    // confirmed by an outsider
    assert!(!record_is_consistent(&oracles, &make(&o1, vec![o1.clone(), addr("GX")], true)));
    // first confirmation is not the submitter
    assert!(!record_is_consistent(&oracles, &make(&o1, vec![o2.clone()], false)));
    // no confirmation at all
    assert!(!record_is_consistent(&oracles, &make(&o1, vec![], false)));
    // duplicated match id
    let twice = vec![make(&o1, vec![o1.clone()], false), make(&o2, vec![o2.clone()], false)];
    assert!(OracleContract::from_parts(Some(oracles.clone()), twice).is_none());
    // records without an oracle list
    assert!(OracleContract::from_parts(None, vec![make(&o1, vec![o1.clone()], false)]).is_none());
}
