//! One-way air-interface authentication (SwMI authenticates the MS), ETSI EN 300 392-7 clause
//! 4.1.2. This is deliberately the simplest of the four cases described there: no mutual
//! authentication, no OTAR, no migration handling. Mutual authentication (MS also challenging
//! the SwMI) can be added later by extending `AuthSession` with the MS's RAND2/response and a
//! `DAuthentication { sub_type: Response, .. }` reply.
//!
//! Flow implemented here:
//!   1. `begin` — BS picks RAND1 + RS, derives KS = TA11(K, RS), then (XRES1, DCK1) = TA12(KS,
//!      RAND1). Stores the pending session and returns the fields for a D-AUTHENTICATION demand.
//!   2. MS replies with U-AUTHENTICATION response, RES1.
//!   3. `handle_response` compares RES1 to the stored XRES1. On match, the session becomes
//!      `Authenticated`, the derived DCK (`TB4(DCK1, 0)` for one-way) is returned to the caller
//!      AND retained per-ISSI (see `dck_for`). On mismatch, the session is dropped, any
//!      previously established DCK for that ISSI is revoked, and `Rejected` is returned.
//!   4. `collect_expired` is polled periodically (T354) to drop sessions the MS never answered.
//!
//! TA11 and TA12 are handed in by the caller: this module knows them only by what they return.
//!
//! NOTE: retaining the DCK does not by itself encrypt anything — air-interface encryption is not
//! wired into the MAC layer, so traffic is unaffected regardless of whether a DCK exists here.

use std::collections::HashMap;
use std::time::{Duration, Instant};

use vstd::prelude::*;

use crate::crypto;
use crate::crypto::{AuthKey, AuthResponse, Challenge80, DckComponent, SessionKey};

verus! {

/// `std::time::Instant`, a reading of the monotonic clock.
#[verifier::external_type_specification]
#[verifier::external_body]
pub struct ExInstant(Instant);

/// `Instant::now` of the standard library: the present reading of the clock. Nothing is said of
/// it.
pub assume_specification[ Instant::now ]() -> Instant;

/// `Instant::elapsed` of the standard library: the time since the clock was read. Nothing is said
/// of it: it is another one at each call.
pub assume_specification[ Instant::elapsed ](this: &Instant) -> Duration;

/// `Duration::as_nanos` of the standard library: the span in whole nanoseconds. Nothing is said of
/// it, as nothing is known of the span.
pub assume_specification[ Duration::as_nanos ](this: &Duration) -> u128;

/// `rand::random_range` on a range that starts at 0: some number of that range.
#[verifier::external_body]
fn random_up_to(max: i32) -> (n: i32)
    requires
        0 <= max,
    ensures
        0 <= n <= max,
{
    rand::random_range(0..=max)
}

/// T354, authentication protocol timer (ETSI EN 300 392-7 Annex C.1), in nanoseconds. The standard
/// leaves the exact value to the operator; this is a conservative default of 5 seconds, generous
/// enough for a slow/busy MS to answer over the air.
pub const T354_TIMEOUT: u128 = 5_000_000_000;

/// A challenge that has not been answered.
#[derive(Debug)]
pub struct AuthSession {
    /// The response that proves that the MS holds K.
    pub xres1: AuthResponse,
    pub dck1: DckComponent,
    /// When the challenge was sent, in nanoseconds since the manager was made.
    pub demanded_at: u128,
}

impl AuthSession {
    /// The MS has not answered within T354.
    pub open spec fn expired(self, now: int) -> bool {
        now - self.demanded_at > T354_TIMEOUT
    }
}

/// Outcome of processing a U-AUTHENTICATION response.
#[derive(Debug, PartialEq, Eq)]
pub enum AuthOutcome {
    /// RES1 matched XRES1. Carries the derived cipher key (DCK1 combined with a zero DCK2, since
    /// this is one-way authentication — see EN 300 392-7 clause 4.2.1).
    Accepted(DckComponent),
    /// RES1 did not match XRES1.
    Rejected,
    /// No pending session for this ISSI (expired, never started, or a stray/replayed response).
    NoSession,
}

/// Fields needed to build a `DAuthentication { sub_type: Demand, .. }` PDU.
pub struct DemandFields {
    pub rand1: Challenge80,
    pub rs: Challenge80,
}

/// The pending challenges and the established keys, by ISSI.
pub struct AuthenticationManager {
    sessions: HashMap<u32, AuthSession>,
    /// DCKs of ISSIs that have completed authentication. Populated on a successful
    /// `handle_response`; this is what air-interface encryption would draw from once the AIE
    /// engine is wired into the MAC layer. Replaced wholesale on re-authentication (a new
    /// exchange supersedes the old key) and cleared by `forget`.
    dcks: HashMap<u32, DckComponent>,
    /// What the sessions' times are counted from.
    started: Instant,
}

/// Every byte of a challenge has been drawn from 0 to 255: it is what a call of `random_up_to` with
/// 255 returned.
pub closed spec fn drawn(bytes: Seq<u8>) -> bool {
    forall|i: int|
        0 <= i < bytes.len() ==> exists|n: i32| #[trigger]
            call_ensures(random_up_to, (255i32,), n) && n == #[trigger] bytes[i]
}

/// A fresh 80-bit challenge.
fn random_80() -> (challenge: Challenge80)
    ensures
        drawn(challenge@),
{
    let mut buf: Challenge80 = [0u8; 10];
    let mut i: usize = 0;
    while i < 10
        invariant
            i <= 10,
            drawn(buf@.take(i as int)),
        decreases 10 - i,
    {
        let ghost before = buf@;
        let n: i32 = random_up_to(255);
        buf[i] = n as u8;
        assert(buf@.take(i + 1) =~= before.take(i as int).push(buf@[i as int]));
        i = i + 1;
    }
    assert(buf@.take(10) =~= buf@);
    buf
}

/// Whether two responses are the same.
fn same_response(a: &AuthResponse, b: &AuthResponse) -> (same: bool)
    ensures
        same == (a@ == b@),
{
    let same: bool = a[0] == b[0] && a[1] == b[1] && a[2] == b[2] && a[3] == b[3];
    proof {
        if same {
            assert(a@ =~= b@);
        }
    }
    same
}

/// What an [`AuthenticationManager`] knows.
#[verifier::ext_equal]
pub struct AuthState {
    /// The challenges that have not been answered, by ISSI.
    pub sessions: Map<u32, AuthSession>,
    /// The established keys, by ISSI.
    pub dcks: Map<u32, DckComponent>,
    /// When the manager was made: what the challenges' times are counted from.
    pub started: Instant,
}

impl AuthState {
    /// `now` is a reading of the clock: what asking for the time since the manager was made, in
    /// nanoseconds, returned.
    pub open spec fn reading(self, now: u128) -> bool {
        exists|d: Duration|
            call_ensures(Instant::elapsed, (&self.started,), d) && #[trigger] call_ensures(
                Duration::as_nanos,
                (&d,),
                now,
            )
    }

    /// A manager that has just been made: nothing is pending, no key is established, and the clock
    /// has been read for its start.
    pub open spec fn fresh(self) -> bool {
        &&& self.sessions == Map::<u32, AuthSession>::empty()
        &&& self.dcks == Map::<u32, DckComponent>::empty()
        &&& call_ensures(Instant::now, (), self.started)
    }
}

impl View for AuthenticationManager {
    type V = AuthState;

    closed spec fn view(&self) -> AuthState {
        AuthState { sessions: self.sessions@, dcks: self.dcks@, started: self.started }
    }
}

/// A challenge is sent to `issi` at the time `now`. `answer` holds the response that is expected,
/// and the key component that comes with it.
pub open spec fn demanded(
    s: AuthState,
    issi: u32,
    answer: (AuthResponse, DckComponent),
    now: u128,
) -> AuthState {
    let session = AuthSession { xres1: answer.0, dck1: answer.1, demanded_at: now };
    AuthState { sessions: s.sessions.insert(issi, session), ..s }
}

/// The response `res1` from `issi` leads from `before` to `after`, with the outcome `outcome`.
///
/// Whatever it is, the challenge is spent. The expected response establishes a key, any other one
/// revokes the key that there was, and a response to no challenge changes nothing.
pub open spec fn answered(
    before: AuthState,
    issi: u32,
    res1: Seq<u8>,
    outcome: AuthOutcome,
    after: AuthState,
) -> bool {
    if !before.sessions.contains_key(issi) {
        outcome is NoSession && after == before
    } else {
        let session = before.sessions[issi];
        &&& after.started == before.started
        &&& after.sessions == before.sessions.remove(issi)
        &&& if res1 == session.xres1@ {
            outcome matches AuthOutcome::Accepted(dck) && {
                &&& dck@ == crypto::combined(session.dck1@, crypto::zero_component())
                &&& after.dcks == before.dcks.insert(issi, dck)
            }
        } else {
            outcome is Rejected && after.dcks == before.dcks.remove(issi)
        }
    }
}

/// Everything about `issi` is dropped.
pub open spec fn forgotten(s: AuthState, issi: u32) -> AuthState {
    AuthState { sessions: s.sessions.remove(issi), dcks: s.dcks.remove(issi), ..s }
}

/// Collecting at the time `now`: `expired` are the ISSIs of the challenges that have expired, each
/// of them once, and `after` is what is left without them.
pub open spec fn collected(before: AuthState, now: int, expired: Seq<u32>, after: AuthState) -> bool {
    &&& expired.no_duplicates()
    &&& forall|issi: u32| #[trigger]
        expired.contains(issi) <==> before.sessions.contains_key(issi)
            && before.sessions[issi].expired(now)
    &&& after.sessions == before.sessions.remove_keys(expired.to_set())
    &&& after.dcks == before.dcks
    &&& after.started == before.started
}

impl Default for AuthenticationManager {
    fn default() -> (manager: Self)
        ensures
            manager@.fresh(),
    {
        AuthenticationManager {
            sessions: HashMap::new(),
            dcks: HashMap::new(),
            started: Instant::now(),
        }
    }
}

impl AuthenticationManager {
    pub fn new() -> (manager: Self)
        ensures
            manager@.fresh(),
    {
        Self::default()
    }

    /// The time since the manager was made, in nanoseconds.
    fn now(&self) -> (now: u128)
        ensures
            self@.reading(now),
    {
        self.started.elapsed().as_nanos()
    }

    /// Start a one-way authentication exchange for `issi` using key `k`. Overwrites any existing
    /// pending session for the same ISSI (e.g. a retry). Returns the RAND1/RS to put in the
    /// D-AUTHENTICATION demand.
    ///
    /// Which challenge is drawn and at what time is left to chance and the clock; what is made of
    /// them is what [`Self::begin_at`] says.
    pub fn begin<F, G>(&mut self, issi: u32, k: &AuthKey, ta11: F, ta12: G) -> (demand:
        DemandFields) where
        F: Fn(&AuthKey, &Challenge80) -> SessionKey,
        G: Fn(&SessionKey, &Challenge80) -> (AuthResponse, DckComponent),

        requires
            forall|rs: &Challenge80| #[trigger] call_requires(ta11, (k, rs)),
            forall|rs: &Challenge80, ks: SessionKey, rand1: &Challenge80|
                #![trigger call_ensures(ta11, (k, rs), ks), call_requires(ta12, (&ks, rand1))]
                call_ensures(ta11, (k, rs), ks) ==> call_requires(ta12, (&ks, rand1)),
        ensures
            drawn(demand.rand1@),
            drawn(demand.rs@),
            exists|ks: SessionKey, answer: (AuthResponse, DckComponent), now: u128|
                {
                    &&& old(self)@.reading(now)
                    &&& #[trigger] call_ensures(ta11, (k, &demand.rs), ks)
                    &&& #[trigger] call_ensures(ta12, (&ks, &demand.rand1), answer)
                    &&& final(self)@ == #[trigger] demanded(old(self)@, issi, answer, now)
                },
    {
        let rand1: Challenge80 = random_80();
        let rs: Challenge80 = random_80();
        let now: u128 = self.now();
        self.begin_at(issi, k, rand1, rs, now, ta11, ta12)
    }

    /// Start an exchange with the challenge `rand1` and the seed `rs` at the time `now`.
    pub fn begin_at<F, G>(
        &mut self,
        issi: u32,
        k: &AuthKey,
        rand1: Challenge80,
        rs: Challenge80,
        now: u128,
        ta11: F,
        ta12: G,
    ) -> (demand: DemandFields) where
        F: Fn(&AuthKey, &Challenge80) -> SessionKey,
        G: Fn(&SessionKey, &Challenge80) -> (AuthResponse, DckComponent),

        requires
            call_requires(ta11, (k, &rs)),
            forall|ks: SessionKey|
                call_ensures(ta11, (k, &rs), ks) ==> #[trigger] call_requires(ta12, (&ks, &rand1)),
        ensures
            demand.rand1 == rand1,
            demand.rs == rs,
            exists|ks: SessionKey, answer: (AuthResponse, DckComponent)|
                {
                    &&& #[trigger] call_ensures(ta11, (k, &rs), ks)
                    &&& #[trigger] call_ensures(ta12, (&ks, &rand1), answer)
                    &&& final(self)@ == demanded(old(self)@, issi, answer, now)
                },
    {
        broadcast use vstd::std_specs::hash::group_hash_axioms;

        let ks: SessionKey = ta11(k, &rs);
        let (xres1, dck1): (AuthResponse, DckComponent) = ta12(&ks, &rand1);
        self.sessions.insert(issi, AuthSession { xres1, dck1, demanded_at: now });
        DemandFields { rand1, rs }
    }

    /// Process a U-AUTHENTICATION response's RES1 for `issi`. Consumes the pending session
    /// either way (success or failure): a session is single-use, matching the confirmed 2-pass
    /// protocol in EN 300 392-7 clause 4.1.1.
    pub fn handle_response(&mut self, issi: u32, res1: AuthResponse) -> (outcome: AuthOutcome)
        ensures
            answered(old(self)@, issi, res1@, outcome, final(self)@),
    {
        broadcast use vstd::std_specs::hash::group_hash_axioms;

        let session = match self.sessions.remove(&issi) {
            Some(session) => session,
            None => {
                assert(self.sessions@ =~= old(self)@.sessions);
                return AuthOutcome::NoSession;
            },
        };
        if same_response(&res1, &session.xres1) {
            // One-way authentication: DCK2 = 0 (EN 300 392-7 clause 4.2.1).
            let zero: DckComponent = [0u8; 10];
            assert(zero@ =~= crypto::zero_component());
            let dck: DckComponent = crypto::tb4(&session.dck1, &zero);
            self.dcks.insert(issi, dck);
            AuthOutcome::Accepted(dck)
        } else {
            // A failed exchange must not leave a previously-established DCK in place: the ISSI
            // has just failed to prove it holds K, so any key we still hold for it is suspect.
            self.dcks.remove(&issi);
            AuthOutcome::Rejected
        }
    }

    /// The DCK established for `issi` by a successful authentication, if any.
    ///
    /// NOTE: nothing consumes this yet — air-interface encryption is not wired into the MAC
    /// layer, so holding a DCK has no effect on traffic. It exists so the key survives the
    /// authentication exchange instead of being discarded.
    pub fn dck_for(&self, issi: u32) -> (dck: Option<&DckComponent>)
        ensures
            dck == if self@.dcks.contains_key(issi) {
                Some(&self@.dcks[issi])
            } else {
                None
            },
    {
        broadcast use vstd::std_specs::hash::group_hash_axioms;

        self.dcks.get(&issi)
    }

    /// True if `issi` currently holds an established DCK (i.e. it authenticated successfully and
    /// has not since failed or been forgotten).
    pub fn is_authenticated(&self, issi: u32) -> (authenticated: bool)
        ensures
            authenticated == self@.dcks.contains_key(issi),
    {
        broadcast use vstd::std_specs::hash::group_hash_axioms;

        self.dcks.contains_key(&issi)
    }

    /// Drop all authentication state for `issi` — both any pending challenge and any established
    /// DCK. Call this when the terminal deregisters or is removed from the registry, so a key
    /// does not outlive the registration it belongs to.
    pub fn forget(&mut self, issi: u32)
        ensures
            final(self)@ == forgotten(old(self)@, issi),
    {
        broadcast use vstd::std_specs::hash::group_hash_axioms;

        self.sessions.remove(&issi);
        self.dcks.remove(&issi);
    }

    /// Drop sessions the MS never answered within T354, returning their ISSIs so the caller can
    /// log / send a reject / retry as it sees fit. Call periodically (e.g. from the entity's
    /// tick).
    pub fn collect_expired(&mut self) -> (expired: Vec<u32>)
        ensures
            exists|now: u128|
                old(self)@.reading(now) && #[trigger] collected(
                    old(self)@,
                    now as int,
                    expired@,
                    final(self)@,
                ),
    {
        let now: u128 = self.now();
        self.collect_expired_at(now)
    }

    /// Drop the sessions that have expired at the time `now`.
    pub fn collect_expired_at(&mut self, now: u128) -> (expired: Vec<u32>)
        ensures
            collected(old(self)@, now as int, expired@, final(self)@),
    {
        broadcast use vstd::std_specs::hash::group_hash_axioms;

        let all: Vec<u32> = self.pending();
        let ghost before = self.sessions@;
        let mut expired: Vec<u32> = Vec::new();
        let mut i: usize = 0;
        while i < all.len()
            invariant
                i <= all@.len(),
                all@.no_duplicates(),
                all@.to_set() == before.dom(),
                expired@.no_duplicates(),
                forall|issi: u32| #[trigger]
                    expired@.contains(issi) <==> all@.take(i as int).contains(issi)
                        && before[issi].expired(now as int),
                self.dcks@ == old(self)@.dcks,
                self.started == old(self)@.started,
                self.sessions@ == before.remove_keys(expired@.to_set()),
            decreases all@.len() - i,
        {
            broadcast use vstd::std_specs::hash::group_hash_axioms;

            let issi: u32 = all[i];
            let ghost (was, shorter) = (expired@, all@.take(i as int));
            proof {
                assert(all@.to_set().contains(issi));
                assert forall|j: int| 0 <= j < i implies all@[j] != issi by {}
                assert(!shorter.contains(issi));
                assert(!was.contains(issi));
                assert(!was.to_set().contains(issi));
                assert(all@.take(i + 1) =~= shorter.push(issi));
            }
            let demanded_at: u128 = match self.sessions.get(&issi) {
                Some(session) => session.demanded_at,
                None => now,
            };
            if now > demanded_at && now - demanded_at > T354_TIMEOUT {
                self.sessions.remove(&issi);
                expired.push(issi);
                proof {
                    lemma_pushed(was, issi);
                    assert(expired@.to_set() =~= was.to_set().insert(issi));
                    assert(self.sessions@ =~= before.remove_keys(expired@.to_set()));
                }
            }
            proof {
                lemma_pushed(shorter, issi);
            }
            i = i + 1;
        }
        proof {
            assert(all@.take(i as int) =~= all@);
            assert forall|issi: u32| #[trigger] expired@.contains(issi) implies before.contains_key(
                issi,
            ) by {
                assert(all@.to_set().contains(issi));
            }
            assert forall|issi: u32| before.contains_key(issi) && before[issi].expired(
                now as int,
            ) implies #[trigger] expired@.contains(issi) by {
                assert(all@.to_set().contains(issi));
            }
        }
        expired
    }

    /// The ISSIs with a demand outstanding, each of them once.
    fn pending(&self) -> (all: Vec<u32>)
        ensures
            all@.no_duplicates(),
            all@.to_set() == self.sessions@.dom(),
    {
        broadcast use vstd::std_specs::hash::group_hash_axioms;

        let mut all: Vec<u32> = Vec::new();
        for issi in it: self.sessions.keys()
            invariant
                it.seq().no_duplicates(),
                it.seq().unref().to_set() == self.sessions@.dom(),
                all@.len() == it.index(),
                forall|j: int| 0 <= j < all@.len() ==> all@[j] == *it.seq()[j],
                it.index() == it.seq().len() ==> all@ == it.seq().unref(),
        {
            all.push(*issi);
        }
        all
    }

    /// True if a demand is currently outstanding for this ISSI.
    pub fn has_pending(&self, issi: u32) -> (pending: bool)
        ensures
            pending == self@.sessions.contains_key(issi),
    {
        broadcast use vstd::std_specs::hash::group_hash_axioms;

        self.sessions.contains_key(&issi)
    }
}

/// What a sequence holds with one more element.
proof fn lemma_pushed(s: Seq<u32>, x: u32)
    ensures
        forall|y: u32| #[trigger] s.push(x).contains(y) <==> s.contains(y) || y == x,
{
    assert forall|y: u32| s.contains(y) || y == x implies #[trigger] s.push(x).contains(y) by {
        if s.contains(y) {
            let j = choose|j: int| 0 <= j < s.len() && s[j] == y;
            assert(s.push(x)[j] == y);
        } else {
            assert(s.push(x)[s.len() as int] == x);
        }
    }
}

/// A challenge can be answered once: a second response finds no session, and changes nothing.
pub proof fn law_sessions_are_single_use(
    before: AuthState,
    issi: u32,
    first: Seq<u8>,
    first_outcome: AuthOutcome,
    between: AuthState,
    second: Seq<u8>,
    second_outcome: AuthOutcome,
    after: AuthState,
)
    requires
        answered(before, issi, first, first_outcome, between),
        answered(between, issi, second, second_outcome, after),
    ensures
        second_outcome is NoSession,
        after == between,
{
}

/// A terminal that answers its challenge as expected is accepted, and its key is the challenge's
/// key component; one that answers anything else is rejected, and holds no key any more.
pub proof fn law_only_the_expected_response_authenticates(
    before: AuthState,
    issi: u32,
    answer: (AuthResponse, DckComponent),
    now: u128,
    res1: Seq<u8>,
    outcome: AuthOutcome,
    after: AuthState,
)
    requires
        answered(demanded(before, issi, answer, now), issi, res1, outcome, after),
    ensures
        res1 == answer.0@ ==> (outcome matches AuthOutcome::Accepted(dck) && dck@ == answer.1@
            && after.dcks.contains_key(issi) && after.dcks[issi] == dck),
        res1 != answer.0@ ==> outcome is Rejected && !after.dcks.contains_key(issi),
        !after.sessions.contains_key(issi),
{
    crypto::law_combining_components(answer.1@, answer.1@);
}

/// A new challenge replaces the one before it, and leaves an established key in place until it is
/// answered.
pub proof fn law_a_new_challenge_replaces_the_old(
    before: AuthState,
    issi: u32,
    first: (AuthResponse, DckComponent),
    second: (AuthResponse, DckComponent),
    then: u128,
    now: u128,
)
    ensures
        demanded(demanded(before, issi, first, then), issi, second, now) == demanded(
            before,
            issi,
            second,
            now,
        ),
        demanded(before, issi, second, now).dcks == before.dcks,
{
    assert(demanded(demanded(before, issi, first, then), issi, second, now) =~= demanded(
        before,
        issi,
        second,
        now,
    ));
}

/// What happens to one ISSI does not touch another one's challenge or key.
pub proof fn law_issis_are_kept_apart(
    before: AuthState,
    issi: u32,
    other: u32,
    answer: (AuthResponse, DckComponent),
    now: u128,
    res1: Seq<u8>,
    outcome: AuthOutcome,
    after: AuthState,
)
    requires
        other != issi,
        answered(before, issi, res1, outcome, after),
    ensures
        same_for(before, after, other),
        same_for(before, demanded(before, issi, answer, now), other),
        same_for(before, forgotten(before, issi), other),
{
}

/// Two states say the same of an ISSI.
pub open spec fn same_for(a: AuthState, b: AuthState, issi: u32) -> bool {
    &&& a.sessions.contains_key(issi) == b.sessions.contains_key(issi)
    &&& a.sessions.contains_key(issi) ==> a.sessions[issi] == b.sessions[issi]
    &&& a.dcks.contains_key(issi) == b.dcks.contains_key(issi)
    &&& a.dcks.contains_key(issi) ==> a.dcks[issi] == b.dcks[issi]
}

/// Whatever is done, time goes on being counted from when the manager was made, so that a
/// challenge's age is told by the same clock that dated it.
pub proof fn law_time_is_counted_from_the_start(
    before: AuthState,
    issi: u32,
    answer: (AuthResponse, DckComponent),
    sent: u128,
    res1: Seq<u8>,
    outcome: AuthOutcome,
    after_response: AuthState,
    now: int,
    expired: Seq<u32>,
    after_collecting: AuthState,
)
    requires
        answered(before, issi, res1, outcome, after_response),
        collected(before, now, expired, after_collecting),
    ensures
        demanded(before, issi, answer, sent).started == before.started,
        after_response.started == before.started,
        forgotten(before, issi).started == before.started,
        after_collecting.started == before.started,
{
}

/// Forgetting an ISSI leaves neither a challenge nor a key, so that a response that comes late
/// finds no session.
pub proof fn law_forgetting_leaves_nothing(
    before: AuthState,
    issi: u32,
    res1: Seq<u8>,
    outcome: AuthOutcome,
    after: AuthState,
)
    requires
        answered(forgotten(before, issi), issi, res1, outcome, after),
    ensures
        !forgotten(before, issi).sessions.contains_key(issi),
        !forgotten(before, issi).dcks.contains_key(issi),
        outcome is NoSession,
        !after.dcks.contains_key(issi),
{
}

/// Collecting drops a challenge exactly where it is older than T354, and no key.
pub proof fn law_collecting_drops_what_is_overdue(
    before: AuthState,
    now: int,
    expired: Seq<u32>,
    after: AuthState,
    issi: u32,
)
    requires
        collected(before, now, expired, after),
    ensures
        after.sessions.contains_key(issi) <==> before.sessions.contains_key(issi) && now
            - before.sessions[issi].demanded_at <= T354_TIMEOUT,
        after.sessions.contains_key(issi) ==> after.sessions[issi] == before.sessions[issi],
        after.dcks == before.dcks,
{
    assert(expired.to_set().contains(issi) <==> expired.contains(issi));
}

/// Two states differ in nothing but what they say of `issi`.
pub open spec fn same_but_for(a: AuthState, b: AuthState, issi: u32) -> bool {
    &&& a.started == b.started
    &&& forall|other: u32|
        other != issi ==> #[trigger] a.sessions.contains_key(other) == b.sessions.contains_key(
            other,
        ) && (a.sessions.contains_key(other) ==> a.sessions[other] == b.sessions[other])
    &&& forall|other: u32|
        other != issi ==> #[trigger] a.dcks.contains_key(other) == b.dcks.contains_key(other) && (
        a.dcks.contains_key(other) ==> a.dcks[other] == b.dcks[other])
}

/// A challenge that is sent at the time `now` is dated `now`. It keeps the response and the key
/// component that TA12 gives for the RAND1 that is sent and the session key that TA11 gives for K
/// and the RS that is sent. A key that has been established stays, and so does everything about
/// other terminals.
pub proof fn law_a_challenge_is_dated_when_it_is_sent<F, G>(
    issi: u32,
    k: AuthKey,
    rand1: Challenge80,
    rs: Challenge80,
    now: u128,
    ta11: F,
    ta12: G,
) where
    F: Fn(&AuthKey, &Challenge80) -> SessionKey,
    G: Fn(&SessionKey, &Challenge80) -> (AuthResponse, DckComponent),

    ensures
        forall|m: &mut AuthenticationManager, demand: DemandFields| #[trigger]
            call_ensures(
                AuthenticationManager::begin_at::<F, G>,
                (m, issi, &k, rand1, rs, now, ta11, ta12),
                demand,
            ) ==> {
                &&& demand.rand1 == rand1
                &&& demand.rs == rs
                &&& final(m)@.sessions.contains_key(issi)
                &&& final(m)@.sessions[issi].demanded_at == now
                &&& exists|ks: SessionKey, answer: (AuthResponse, DckComponent)|
                    {
                        &&& #[trigger] call_ensures(ta11, (&k, &rs), ks)
                        &&& #[trigger] call_ensures(ta12, (&ks, &rand1), answer)
                        &&& final(m)@.sessions[issi].xres1 == answer.0
                        &&& final(m)@.sessions[issi].dck1 == answer.1
                    }
                &&& final(m)@.dcks == m@.dcks
                &&& same_but_for(m@, final(m)@, issi)
            },
{
}

/// A challenge that is begun is dated by the clock as it is read, and carries what was drawn.
pub proof fn law_a_begun_challenge_is_dated_by_the_clock<F, G>(
    issi: u32,
    k: AuthKey,
    ta11: F,
    ta12: G,
) where
    F: Fn(&AuthKey, &Challenge80) -> SessionKey,
    G: Fn(&SessionKey, &Challenge80) -> (AuthResponse, DckComponent),

    ensures
        forall|m: &mut AuthenticationManager, demand: DemandFields| #[trigger]
            call_ensures(
                AuthenticationManager::begin::<F, G>,
                (m, issi, &k, ta11, ta12),
                demand,
            ) ==> {
                &&& drawn(demand.rand1@)
                &&& drawn(demand.rs@)
                &&& final(m)@.sessions.contains_key(issi)
                &&& exists|d: Duration|
                    call_ensures(Instant::elapsed, (&m@.started,), d) && #[trigger] call_ensures(
                        Duration::as_nanos,
                        (&d,),
                        final(m)@.sessions[issi].demanded_at,
                    )
                &&& exists|ks: SessionKey, answer: (AuthResponse, DckComponent)|
                    {
                        &&& #[trigger] call_ensures(ta11, (&k, &demand.rs), ks)
                        &&& #[trigger] call_ensures(ta12, (&ks, &demand.rand1), answer)
                        &&& final(m)@.sessions[issi].xres1 == answer.0
                        &&& final(m)@.sessions[issi].dck1 == answer.1
                    }
                &&& final(m)@.dcks == m@.dcks
                &&& same_but_for(m@, final(m)@, issi)
            },
{
    assert forall|m: &mut AuthenticationManager, demand: DemandFields| #[trigger]
        call_ensures(
            AuthenticationManager::begin::<F, G>,
            (m, issi, &k, ta11, ta12),
            demand,
        ) implies {
        &&& final(m)@.sessions.contains_key(issi)
        &&& exists|d: Duration|
            call_ensures(Instant::elapsed, (&m@.started,), d) && #[trigger] call_ensures(
                Duration::as_nanos,
                (&d,),
                final(m)@.sessions[issi].demanded_at,
            )
    } by {
        let (ks, answer, now) = choose|
            ks: SessionKey,
            answer: (AuthResponse, DckComponent),
            now: u128,
        |
            {
                &&& m@.reading(now)
                &&& #[trigger] call_ensures(ta11, (&k, &demand.rs), ks)
                &&& #[trigger] call_ensures(ta12, (&ks, &demand.rand1), answer)
                &&& final(m)@ == #[trigger] demanded(m@, issi, answer, now)
            };
        assert(m@.reading(now));
        assert(final(m)@.sessions[issi].demanded_at == now);
    }
}

/// Every byte that counts as drawn is what drawing from 0 to 255 gave.
proof fn law_drawn_bytes_come_from_drawing(bytes: Seq<u8>, i: int)
    requires
        drawn(bytes),
        0 <= i < bytes.len(),
    ensures
        exists|n: i32| #[trigger] call_ensures(random_up_to, (255i32,), n) && n == bytes[i],
{
    let b = bytes[i];
    assert(exists|n: i32| #[trigger] call_ensures(random_up_to, (255i32,), n) && n == b);
}

/// A challenge lives for five seconds. Collecting at the time `now` returns the terminals whose
/// challenge was sent more than five seconds before, each of them once, and drops those challenges;
/// every other challenge, and every key, stays as it is.
pub proof fn law_a_challenge_lives_for_five_seconds()
    ensures
        forall|m: &mut AuthenticationManager, now: u128, expired: Vec<u32>| #[trigger]
            call_ensures(AuthenticationManager::collect_expired_at, (m, now), expired) ==> {
                &&& forall|i: int, j: int|
                    0 <= i < j < expired@.len() ==> expired@[i] != expired@[j]
                &&& forall|issi: u32| #[trigger]
                    expired@.contains(issi) <==> m@.sessions.contains_key(issi) && now
                        - m@.sessions[issi].demanded_at > 5_000_000_000
                &&& forall|issi: u32| #[trigger]
                    final(m)@.sessions.contains_key(issi) <==> m@.sessions.contains_key(issi) && now
                        - m@.sessions[issi].demanded_at <= 5_000_000_000
                &&& forall|issi: u32| #[trigger]
                    final(m)@.sessions.contains_key(issi) ==> final(m)@.sessions[issi]
                        == m@.sessions[issi]
                &&& final(m)@.dcks == m@.dcks
                &&& final(m)@.started == m@.started
            },
{
    assert forall|m: &mut AuthenticationManager, now: u128, expired: Vec<u32>| #[trigger]
        call_ensures(AuthenticationManager::collect_expired_at, (m, now), expired) implies {
        &&& forall|issi: u32| #[trigger]
            final(m)@.sessions.contains_key(issi) <==> m@.sessions.contains_key(issi) && now
                - m@.sessions[issi].demanded_at <= 5_000_000_000
        &&& forall|issi: u32| #[trigger]
            final(m)@.sessions.contains_key(issi) ==> final(m)@.sessions[issi] == m@.sessions[issi]
    } by {
        assert(collected(m@, now as int, expired@, final(m)@));
        assert forall|issi: u32| #[trigger] expired@.to_set().contains(issi) <==> expired@.contains(
            issi,
        ) by {}
    }
}

/// Collecting by the clock is collecting at the time that the clock is read at.
pub proof fn law_collecting_goes_by_the_clock()
    ensures
        forall|m: &mut AuthenticationManager, expired: Vec<u32>| #[trigger]
            call_ensures(AuthenticationManager::collect_expired, (m,), expired) ==> exists|
                d: Duration,
                now: u128,
            |
                {
                    &&& call_ensures(Instant::elapsed, (&m@.started,), d)
                    &&& #[trigger] call_ensures(Duration::as_nanos, (&d,), now)
                    &&& forall|issi: u32| #[trigger]
                        expired@.contains(issi) <==> m@.sessions.contains_key(issi) && now
                            - m@.sessions[issi].demanded_at > 5_000_000_000
                    &&& forall|issi: u32| #[trigger]
                        final(m)@.sessions.contains_key(issi) <==> m@.sessions.contains_key(issi)
                            && now - m@.sessions[issi].demanded_at <= 5_000_000_000
                    &&& forall|issi: u32| #[trigger]
                        final(m)@.sessions.contains_key(issi) ==> final(m)@.sessions[issi]
                            == m@.sessions[issi]
                    &&& final(m)@.dcks == m@.dcks
                    &&& final(m)@.started == m@.started
                },
{
    assert forall|m: &mut AuthenticationManager, expired: Vec<u32>| #[trigger]
        call_ensures(AuthenticationManager::collect_expired, (m,), expired) implies exists|
        d: Duration,
        now: u128,
    |
        {
            &&& call_ensures(Instant::elapsed, (&m@.started,), d)
            &&& #[trigger] call_ensures(Duration::as_nanos, (&d,), now)
            &&& forall|issi: u32| #[trigger]
                expired@.contains(issi) <==> m@.sessions.contains_key(issi) && now
                    - m@.sessions[issi].demanded_at > 5_000_000_000
            &&& forall|issi: u32| #[trigger]
                final(m)@.sessions.contains_key(issi) <==> m@.sessions.contains_key(issi) && now
                    - m@.sessions[issi].demanded_at <= 5_000_000_000
            &&& forall|issi: u32| #[trigger]
                final(m)@.sessions.contains_key(issi) ==> final(m)@.sessions[issi]
                    == m@.sessions[issi]
            &&& final(m)@.dcks == m@.dcks
            &&& final(m)@.started == m@.started
        } by {
        let now = choose|now: u128|
            m@.reading(now) && #[trigger] collected(m@, now as int, expired@, final(m)@);
        let d = choose|d: Duration|
            call_ensures(Instant::elapsed, (&m@.started,), d) && #[trigger] call_ensures(
                Duration::as_nanos,
                (&d,),
                now,
            );
        assert forall|issi: u32| #[trigger] expired@.to_set().contains(issi) <==> expired@.contains(
            issi,
        ) by {}
        assert(call_ensures(Duration::as_nanos, (&d,), now));
    }
}

/// What becomes of a challenge: sent at the time `t` and not answered, it is collected at the time
/// `u` exactly where more than five seconds lie between them.
pub proof fn law_a_challenge_is_collected_five_seconds_after_it_was_sent<F, G>(
    issi: u32,
    k: AuthKey,
    rand1: Challenge80,
    rs: Challenge80,
    t: u128,
    u: u128,
    ta11: F,
    ta12: G,
) where
    F: Fn(&AuthKey, &Challenge80) -> SessionKey,
    G: Fn(&SessionKey, &Challenge80) -> (AuthResponse, DckComponent),

    ensures
        forall|
            m: &mut AuthenticationManager,
            demand: DemandFields,
            later: &mut AuthenticationManager,
            expired: Vec<u32>,
        |
            #[trigger] call_ensures(
                AuthenticationManager::begin_at::<F, G>,
                (m, issi, &k, rand1, rs, t, ta11, ta12),
                demand,
            ) && later@ == final(m)@ && #[trigger] call_ensures(
                AuthenticationManager::collect_expired_at,
                (later, u),
                expired,
            ) ==> {
                &&& expired@.contains(issi) <==> u - t > 5_000_000_000
                &&& final(later)@.sessions.contains_key(issi) <==> u - t <= 5_000_000_000
            },
{
    law_a_challenge_is_dated_when_it_is_sent::<F, G>(issi, k, rand1, rs, t, ta11, ta12);
    law_a_challenge_lives_for_five_seconds();
}

/// A response is held against the challenge that is pending. The expected one is accepted, and the
/// challenge's key component is the key from then on; any other one is rejected, and no key is
/// left; where no challenge is pending there is nothing to answer, and nothing changes. In every
/// case no challenge is pending afterwards, and other terminals are left alone.
pub proof fn law_a_response_is_held_against_its_challenge()
    ensures
        forall|m: &mut AuthenticationManager, issi: u32, res1: AuthResponse, outcome: AuthOutcome|
            #[trigger] call_ensures(
                AuthenticationManager::handle_response,
                (m, issi, res1),
                outcome,
            ) ==> {
                &&& outcome is NoSession <==> !m@.sessions.contains_key(issi)
                &&& outcome is NoSession ==> final(m)@ == m@
                &&& m@.sessions.contains_key(issi) ==> (outcome is Accepted <==> res1@
                    == m@.sessions[issi].xres1@)
                &&& outcome matches AuthOutcome::Accepted(dck) ==> {
                    &&& dck@ == m@.sessions[issi].dck1@
                    &&& final(m)@.dcks.contains_key(issi)
                    &&& final(m)@.dcks[issi] == dck
                }
                &&& outcome is Rejected ==> !final(m)@.dcks.contains_key(issi)
                &&& !final(m)@.sessions.contains_key(issi)
                &&& same_but_for(m@, final(m)@, issi)
            },
{
    assert forall|m: &mut AuthenticationManager, issi: u32, res1: AuthResponse, outcome: AuthOutcome|
        #[trigger] call_ensures(
            AuthenticationManager::handle_response,
            (m, issi, res1),
            outcome,
        ) implies {
        outcome matches AuthOutcome::Accepted(dck) ==> dck@ == m@.sessions[issi].dck1@
    } by {
        let dck1 = m@.sessions[issi].dck1@;
        crypto::law_combining_components(dck1, dck1);
    }
}

/// What the manager tells about a terminal is what it holds of it, a new manager holds nothing, and
/// one that has forgotten a terminal holds nothing of it.
pub proof fn law_the_manager_tells_what_it_holds()
    ensures
        forall|m: AuthenticationManager, issi: u32, dck: Option<&DckComponent>| #[trigger]
            call_ensures(AuthenticationManager::dck_for, (&m, issi), dck) ==> {
                &&& dck is Some <==> m@.dcks.contains_key(issi)
                &&& dck matches Some(key) ==> *key == m@.dcks[issi]
            },
        forall|m: AuthenticationManager, issi: u32, r: bool| #[trigger]
            call_ensures(AuthenticationManager::is_authenticated, (&m, issi), r) ==> r
                == m@.dcks.contains_key(issi),
        forall|m: AuthenticationManager, issi: u32, r: bool| #[trigger]
            call_ensures(AuthenticationManager::has_pending, (&m, issi), r) ==> r
                == m@.sessions.contains_key(issi),
        forall|m: AuthenticationManager, issi: u32| #[trigger]
            call_ensures(AuthenticationManager::new, (), m) ==> {
                &&& !(#[trigger] m@.sessions.contains_key(issi))
                &&& !m@.dcks.contains_key(issi)
                &&& call_ensures(Instant::now, (), m@.started)
            },
        forall|m: &mut AuthenticationManager, issi: u32, r: ()| #[trigger]
            call_ensures(AuthenticationManager::forget, (m, issi), r) ==> {
                &&& !final(m)@.sessions.contains_key(issi)
                &&& !final(m)@.dcks.contains_key(issi)
                &&& same_but_for(m@, final(m)@, issi)
            },
{
}

/// A response, a poll and a question can come at any time, whatever they say, and so can the wish to
/// forget a terminal.
pub proof fn law_the_manager_can_be_asked_anything(issi: u32, res1: AuthResponse, now: u128)
    ensures
        forall|m: &mut AuthenticationManager|
            call_requires(AuthenticationManager::handle_response, (m, issi, res1)),
        forall|m: &mut AuthenticationManager|
            call_requires(AuthenticationManager::collect_expired_at, (m, now)),
        forall|m: &mut AuthenticationManager|
            call_requires(AuthenticationManager::collect_expired, (m,)),
        forall|m: &mut AuthenticationManager|
            call_requires(AuthenticationManager::forget, (m, issi)),
        forall|m: AuthenticationManager|
            call_requires(AuthenticationManager::has_pending, (&m, issi)),
        forall|m: AuthenticationManager|
            call_requires(AuthenticationManager::is_authenticated, (&m, issi)),
        forall|m: AuthenticationManager| call_requires(AuthenticationManager::dck_for, (&m, issi)),
{
}

} // verus!
