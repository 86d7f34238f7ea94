use flowstation::crypto::{tb4, AuthKey, AuthResponse, Challenge80, DckComponent, SessionKey};
use flowstation::mm::authentication::{AuthOutcome, AuthenticationManager, T354_TIMEOUT};

const TEST_K: [u8; 16] = [
    0x77, 0xe7, 0x9f, 0xee, 0x7f, 0xc6, 0x54, 0xdc, 0x65, 0x44, 0x64, 0x4f, 0xdf, 0x47, 0x68, 0x15,
];

/// Stands in for TA11: a session key that depends on K and on RS.
fn ta11(k: &AuthKey, rs: &Challenge80) -> SessionKey {
    let mut ks = *k;
    for (i, b) in rs.iter().enumerate() {
        ks[i] ^= b.rotate_left(3);
    }
    ks
}

/// Stands in for TA12: a response and a key component that depend on KS and on RAND1.
fn ta12(ks: &SessionKey, rand1: &Challenge80) -> (AuthResponse, DckComponent) {
    let mut res = [0u8; 4];
    let mut dck = [0u8; 10];
    for i in 0..10 {
        dck[i] = ks[i] ^ rand1[i];
        res[i % 4] ^= dck[i].wrapping_mul(31);
    }
    // Never the response that the tests use as a wrong one.
    if res == [0xAA, 0xBB, 0xCC, 0xDD] {
        res[0] ^= 1;
    }
    (res, dck)
}

#[test]
fn correct_response_is_accepted_and_session_is_consumed() {
    let mut mgr = AuthenticationManager::new();
    let demand = mgr.begin(2260571, &TEST_K, ta11, ta12);
    assert!(mgr.has_pending(2260571));

    // Recompute what a correct MS would answer with, independently of the manager.
    let ks = ta11(&TEST_K, &demand.rs);
    let (expected_res1, _) = ta12(&ks, &demand.rand1);

    match mgr.handle_response(2260571, expected_res1) {
        AuthOutcome::Accepted(_dck) => {}
        other => panic!("expected Accepted, got {other:?}"),
    }
    assert!(!mgr.has_pending(2260571), "session must be single-use");
}

/// Drive a full successful exchange for `issi` and return the DCK the manager settled on.
fn authenticate_ok(mgr: &mut AuthenticationManager, issi: u32) -> DckComponent {
    let demand = mgr.begin(issi, &TEST_K, ta11, ta12);
    let ks = ta11(&TEST_K, &demand.rs);
    let (res1, _) = ta12(&ks, &demand.rand1);
    match mgr.handle_response(issi, res1) {
        AuthOutcome::Accepted(dck) => dck,
        other => panic!("expected Accepted, got {other:?}"),
    }
}

#[test]
fn dck_is_retained_after_successful_authentication() {
    let mut mgr = AuthenticationManager::new();
    assert!(mgr.dck_for(2260571).is_none(), "no key before authenticating");
    assert!(!mgr.is_authenticated(2260571));

    let dck = authenticate_ok(&mut mgr, 2260571);

    assert!(mgr.is_authenticated(2260571));
    assert_eq!(mgr.dck_for(2260571), Some(&dck), "stored DCK must match the one returned");
}

#[test]
fn reauthentication_replaces_the_stored_dck() {
    let mut mgr = AuthenticationManager::new();
    let first = authenticate_ok(&mut mgr, 2260571);
    let second = authenticate_ok(&mut mgr, 2260571);

    // RAND1/RS are freshly random each time, so the two DCKs should differ; whatever the
    // values, the stored one must be the newer.
    assert_ne!(first, second, "a new exchange must derive a fresh DCK");
    assert_eq!(mgr.dck_for(2260571), Some(&second), "the newer DCK must win");
}

#[test]
fn failed_reauthentication_revokes_the_existing_dck() {
    let mut mgr = AuthenticationManager::new();
    authenticate_ok(&mut mgr, 2260571);
    assert!(mgr.is_authenticated(2260571));

    // A fresh challenge that the terminal answers wrongly must not leave the old key usable.
    mgr.begin(2260571, &TEST_K, ta11, ta12);
    assert_eq!(mgr.handle_response(2260571, [0xAA, 0xBB, 0xCC, 0xDD]), AuthOutcome::Rejected);

    assert!(!mgr.is_authenticated(2260571), "a failed exchange must revoke the previous DCK");
    assert!(mgr.dck_for(2260571).is_none());
}

#[test]
fn forget_clears_both_pending_session_and_dck() {
    let mut mgr = AuthenticationManager::new();
    authenticate_ok(&mut mgr, 2260571);
    mgr.begin(2260571, &TEST_K, ta11, ta12); // a new challenge outstanding on top of the established key
    assert!(mgr.has_pending(2260571));
    assert!(mgr.is_authenticated(2260571));

    mgr.forget(2260571);

    assert!(!mgr.has_pending(2260571));
    assert!(!mgr.is_authenticated(2260571));
}

#[test]
fn dcks_are_tracked_per_issi() {
    let mut mgr = AuthenticationManager::new();
    let a = authenticate_ok(&mut mgr, 1001);
    let b = authenticate_ok(&mut mgr, 1002);

    assert_eq!(mgr.dck_for(1001), Some(&a));
    assert_eq!(mgr.dck_for(1002), Some(&b));

    mgr.forget(1001);
    assert!(!mgr.is_authenticated(1001));
    assert!(mgr.is_authenticated(1002), "forgetting one ISSI must not affect another");
}

#[test]
fn wrong_response_is_rejected() {
    let mut mgr = AuthenticationManager::new();
    mgr.begin(2260571, &TEST_K, ta11, ta12);
    let wrong = [0xAA, 0xBB, 0xCC, 0xDD];
    assert_eq!(mgr.handle_response(2260571, wrong), AuthOutcome::Rejected);
    assert!(!mgr.has_pending(2260571));
}

#[test]
fn response_with_no_pending_session_is_no_session() {
    let mut mgr = AuthenticationManager::new();
    assert_eq!(mgr.handle_response(9999, [0, 0, 0, 0]), AuthOutcome::NoSession);
}

#[test]
fn a_response_can_be_used_once() {
    let mut mgr = AuthenticationManager::new();
    let demand = mgr.begin_at(7, &TEST_K, [1; 10], [2; 10], 0, ta11, ta12);
    assert_eq!((demand.rand1, demand.rs), ([1; 10], [2; 10]));
    let (res1, dck1) = ta12(&ta11(&TEST_K, &[2; 10]), &[1; 10]);
    // In one-way authentication the key is the first component itself.
    assert_eq!(mgr.handle_response(7, res1), AuthOutcome::Accepted(dck1));
    assert_eq!(mgr.handle_response(7, res1), AuthOutcome::NoSession);
    assert_eq!(mgr.dck_for(7), Some(&dck1), "a replay changes nothing");
    // A response that differs in its last byte alone is wrong.
    mgr.begin_at(7, &TEST_K, [1; 10], [2; 10], 0, ta11, ta12);
    let mut close = res1;
    close[3] ^= 1;
    assert_eq!(mgr.handle_response(7, close), AuthOutcome::Rejected);
}

#[test]
fn a_retry_replaces_the_challenge() {
    let mut mgr = AuthenticationManager::default();
    mgr.begin_at(7, &TEST_K, [1; 10], [2; 10], 0, ta11, ta12);
    mgr.begin_at(7, &TEST_K, [3; 10], [4; 10], 1, ta11, ta12);
    let (old, _) = ta12(&ta11(&TEST_K, &[2; 10]), &[1; 10]);
    let (new, _) = ta12(&ta11(&TEST_K, &[4; 10]), &[3; 10]);
    assert_ne!(old, new);
    assert!(matches!(mgr.handle_response(7, new), AuthOutcome::Accepted(_)));
}

#[test]
fn overdue_challenges_are_collected() {
    let mut mgr = AuthenticationManager::new();
    mgr.begin_at(1, &TEST_K, [1; 10], [2; 10], 100, ta11, ta12);
    mgr.begin_at(2, &TEST_K, [1; 10], [2; 10], 101, ta11, ta12);
    mgr.begin_at(3, &TEST_K, [1; 10], [2; 10], 99, ta11, ta12);
    // T354 itself is not overdue yet, and neither is a challenge from the future.
    assert_eq!(mgr.collect_expired_at(0), Vec::<u32>::new());
    assert_eq!(mgr.collect_expired_at(T354_TIMEOUT + 99), Vec::<u32>::new());
    let mut expired = mgr.collect_expired_at(T354_TIMEOUT + 101);
    expired.sort();
    assert_eq!(expired, vec![1, 3]);
    assert!(mgr.has_pending(2) && !mgr.has_pending(1) && !mgr.has_pending(3));
    assert_eq!(mgr.handle_response(1, [0; 4]), AuthOutcome::NoSession);
    assert_eq!(mgr.collect_expired_at(T354_TIMEOUT + 101), Vec::<u32>::new());
}

#[test]
fn the_clock_of_the_manager_runs() {
    let mut mgr = AuthenticationManager::new();
    mgr.begin(1, &TEST_K, ta11, ta12);
    // Nothing is overdue right after it was sent, and an old challenge stays until it is overdue.
    assert_eq!(mgr.collect_expired(), Vec::<u32>::new());
    assert!(mgr.has_pending(1));
    // The challenge was sent at a time of the manager's own clock, not at its start or its end.
    let mut expired = mgr.collect_expired_at(T354_TIMEOUT * 1000);
    expired.sort();
    assert_eq!(expired, vec![1]);
}

#[test]
fn challenges_are_random() {
    let mut mgr = AuthenticationManager::new();
    let mut seen = vec![false; 256];
    for _ in 0..500 {
        let demand = mgr.begin(1, &TEST_K, ta11, ta12);
        assert_ne!(demand.rand1, demand.rs);
        for byte in demand.rand1.iter().chain(demand.rs.iter()) {
            seen[*byte as usize] = true;
        }
    }
    // Every value of a byte comes up, the highest too.
    assert!(seen.iter().all(|s| *s));
}

#[test]
fn tb4_known_answer_vectors() {
    let cases: [(DckComponent, DckComponent, DckComponent); 2] = [
        (
            [0x01, 0x23, 0x45, 0x67, 0x89, 0xAB, 0xCD, 0xEF, 0xAA, 0xBB],
            [0x01, 0x23, 0x45, 0x67, 0x89, 0xAB, 0xCD, 0xEF, 0xAA, 0xBB],
            [0x00, 0x00, 0x00, 0x00, 0x00, 0x00, 0x00, 0x00, 0x00, 0x00],
        ),
        (
            [0xBD, 0xF8, 0xE8, 0xD4, 0x7C, 0xA2, 0xED, 0xAE, 0x0C, 0xFB],
            [0x56, 0x3B, 0x92, 0xC2, 0xA2, 0x27, 0x5A, 0x0F, 0x61, 0x13],
            [0xEB, 0xC3, 0x7A, 0x16, 0xDE, 0x85, 0xB7, 0xA1, 0x6D, 0xE8],
        ),
    ];
    for (dck1, dck2, expected) in cases {
        assert_eq!(tb4(&dck1, &dck2), expected);
    }
}
