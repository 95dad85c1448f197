//! Producer selection, per-instance health with a circuit breaker, sticky
//! sessions and connection accounting.
//!
//! Times are milliseconds on a monotonic clock, handed in by the caller.

use vstd::prelude::*;
use vstd::multiset::Multiset;
use dashmap::DashMap;
use crate::registry::{
    counter_entries, health_entries, session_entries, lookup, new_counter_map, counter_get,
    counter_insert, new_health_map, health_get, health_insert, new_session_map, session_get,
    session_insert, session_remove, session_retain_live, health_len, session_len,
};
use crate::types::NfProfile;
use crate::fairness::rr_advance;
use rand::Rng;

verus! {

/// Failures in a row after which an instance's circuit opens.
pub const DEFAULT_FAILURE_THRESHOLD: u64 = 3;

/// How long an open circuit keeps an instance out of selection, in ms.
pub const DEFAULT_CIRCUIT_TIMEOUT_MS: u64 = 30_000;

/// How long a sticky session binds a client to an instance, in ms.
pub const DEFAULT_SESSION_TTL_MS: u64 = 300_000;

/// Capacity assumed for a profile that states none.
pub const DEFAULT_CAPACITY: u32 = 100;

/// Health record of one producer instance.
#[derive(Clone, Copy, Debug)]
pub struct HealthStatus {
    pub is_healthy: bool,
    pub failure_count: u64,
    pub last_failure: Option<u64>,
    pub circuit_open_until: Option<u64>,
}

/// The record of an instance that has seen no outcome yet.
pub open spec fn fresh_health() -> HealthStatus {
    HealthStatus { is_healthy: true, failure_count: 0, last_failure: None, circuit_open_until: None }
}

impl Default for HealthStatus {
    fn default() -> (r: Self)
        ensures
            r == fresh_health(),
    {
        HealthStatus { is_healthy: true, failure_count: 0, last_failure: None, circuit_open_until: None }
    }
}

/// Whether an instance with this record may be selected at `now`: it has no
/// record, is healthy, or its circuit timeout has elapsed (a half-open probe).
pub open spec fn admits(h: Option<HealthStatus>, now: u64) -> bool {
    match h {
        None => true,
        Some(s) => s.is_healthy || (s.circuit_open_until matches Some(t) && t <= now),
    }
}

/// `a + b`, or `u64::MAX` where that does not fit.
pub open spec fn sat_add(a: u64, b: u64) -> u64 {
    if a + b <= u64::MAX {
        (a + b) as u64
    } else {
        u64::MAX
    }
}

/// The record after one failure at `now`.
pub open spec fn after_failure(h: Option<HealthStatus>, now: u64, threshold: u64, timeout: u64) -> HealthStatus {
    let base = match h {
        Some(s) => s,
        None => fresh_health(),
    };
    let count = sat_add(base.failure_count, 1);
    if count >= threshold {
        HealthStatus {
            is_healthy: false,
            failure_count: count,
            last_failure: Some(now),
            circuit_open_until: Some(sat_add(now, timeout)),
        }
    } else {
        HealthStatus { failure_count: count, last_failure: Some(now), ..base }
    }
}

/// The record after a success: the counter is reset and the circuit
/// closed; an instance without a record gets a fresh healthy one.
pub open spec fn after_success(h: Option<HealthStatus>) -> HealthStatus {
    let base = match h {
        Some(s) => s,
        None => fresh_health(),
    };
    HealthStatus { is_healthy: true, failure_count: 0, circuit_open_until: None, ..base }
}

/// The consistency of one health record: an unhealthy instance has an open
/// circuit, and one that reached the threshold is unhealthy.
pub open spec fn health_consistent(s: HealthStatus, threshold: u64) -> bool {
    &&& !s.is_healthy ==> s.circuit_open_until is Some
    &&& s.failure_count >= threshold ==> !s.is_healthy
}

/// A client's binding to one producer instance.
#[derive(Debug)]
pub struct StickySession {
    pub nf_instance_id: String,
    pub nf_type: String,
    pub created_at: u64,
}

/// Time elapsed since `since`, zero if the clock reads earlier.
pub open spec fn elapsed(since: u64, now: u64) -> int {
    if now >= since {
        now - since
    } else {
        0
    }
}

/// Whether a session is still within its time to live at `now`.
pub open spec fn session_live(s: StickySession, now: u64, ttl: u64) -> bool {
    elapsed(s.created_at, now) < ttl
}

impl StickySession {
    /// A field-for-field copy of this session.
    pub fn duplicate(&self) -> (r: StickySession)
        ensures
            r == *self,
    {
        StickySession {
            nf_instance_id: self.nf_instance_id.clone(),
            nf_type: self.nf_type.clone(),
            created_at: self.created_at,
        }
    }

    /// Whether this session is still within `ttl` at `now`.
    pub fn is_live(&self, now: u64, ttl: u64) -> (r: bool)
        ensures
            r == session_live(*self, now, ttl),
    {
        let age = if now >= self.created_at {
            now - self.created_at
        } else {
            0
        };
        age < ttl
    }
}

/// The number of connections recorded for `id` (zero when absent).
pub open spec fn load_of(counts: Map<Seq<char>, u64>, id: Seq<char>) -> nat {
    if counts.contains_key(id) {
        counts[id] as nat
    } else {
        0
    }
}


/// Positions, in order, of the instances among the first `n` whose health
/// record admits them at `now`.
pub open spec fn healthy_prefix(
    health: Map<Seq<char>, HealthStatus>,
    inst: Seq<NfProfile>,
    now: u64,
    n: int,
) -> Seq<int>
    decreases n,
{
    if n <= 0 {
        Seq::empty()
    } else {
        let p = healthy_prefix(health, inst, now, n - 1);
        if admits(lookup(health, inst[n - 1].nf_instance_id@), now) {
            p.push(n - 1)
        } else {
            p
        }
    }
}

/// The positions of the admitted instances.
pub open spec fn healthy_positions(health: Map<Seq<char>, HealthStatus>, inst: Seq<NfProfile>, now: u64) -> Seq<int> {
    healthy_prefix(health, inst, now, inst.len() as int)
}

/// The positions a selection chooses among: the admitted instances, or all
/// of them when none is admitted.
pub open spec fn candidates(health: Map<Seq<char>, HealthStatus>, inst: Seq<NfProfile>, now: u64) -> Seq<int> {
    let h = healthy_positions(health, inst, now);
    if h.len() == 0 {
        Seq::new(inst.len(), |i: int| i)
    } else {
        h
    }
}

/// Index into `c` of the first candidate with the fewest connections among
/// the first `n`.
pub open spec fn least_loaded(counts: Map<Seq<char>, u64>, inst: Seq<NfProfile>, c: Seq<int>, n: int) -> int
    decreases n,
{
    if n <= 1 {
        0
    } else {
        let b = least_loaded(counts, inst, c, n - 1);
        if load_of(counts, inst[c[n - 1]].nf_instance_id@) < load_of(counts, inst[c[b]].nf_instance_id@) {
            n - 1
        } else {
            b
        }
    }
}

/// The capacity of a profile, 100 when it states none.
pub open spec fn capacity_of(p: NfProfile) -> nat {
    match p.capacity {
        Some(c) => c as nat,
        None => DEFAULT_CAPACITY as nat,
    }
}

/// Sum of the capacities of the first `n` candidates.
pub open spec fn capacity_sum(inst: Seq<NfProfile>, c: Seq<int>, n: int) -> nat
    decreases n,
{
    if n <= 0 {
        0
    } else {
        capacity_sum(inst, c, n - 1) + capacity_of(inst[c[n - 1]])
    }
}

/// Index into `c` where a walk from candidate `j`, deducting each
/// candidate's capacity from `draw`, stops: the first whose capacity
/// exceeds what is left, or the last.
pub open spec fn weighted_walk(inst: Seq<NfProfile>, c: Seq<int>, draw: int, j: int) -> int
    decreases c.len() - j,
{
    if j >= c.len() {
        c.len() - 1
    } else if draw < capacity_of(inst[c[j]]) {
        j
    } else {
        weighted_walk(inst, c, draw - capacity_of(inst[c[j]]), j + 1)
    }
}

/// Position of the first of the first `n` instances with id `id`, or -1.
pub open spec fn first_with_id(inst: Seq<NfProfile>, id: Seq<char>, n: int) -> int
    decreases n,
{
    if n <= 0 {
        -1
    } else {
        let f = first_with_id(inst, id, n - 1);
        if f >= 0 {
            f
        } else if inst[n - 1].nf_instance_id@ == id {
            n - 1
        } else {
            -1
        }
    }
}

/// The instance that session `sid` still binds for `nf_type` at `now`: its
/// entry is within its time to live and its instance is admitted.
pub open spec fn sticky_bound(
    sessions: Map<Seq<char>, StickySession>,
    health: Map<Seq<char>, HealthStatus>,
    ttl: u64,
    sid: Seq<char>,
    nf_type: Seq<char>,
    now: u64,
) -> Option<Seq<char>> {
    match lookup(sessions, sid) {
        Some(s) => if s.nf_type@ == nf_type && session_live(s, now, ttl) && admits(
            lookup(health, s.nf_instance_id@),
            now,
        ) {
            Some(s.nf_instance_id@)
        } else {
            None
        },
        None => None,
    }
}

/// Position among `inst` of the instance that session `sid` still binds,
/// when it is there.
pub open spec fn sticky_pick(
    sessions: Map<Seq<char>, StickySession>,
    health: Map<Seq<char>, HealthStatus>,
    ttl: u64,
    sid: Seq<char>,
    nf_type: Seq<char>,
    inst: Seq<NfProfile>,
    now: u64,
) -> Option<int> {
    match sticky_bound(sessions, health, ttl, sid, nf_type, now) {
        Some(id) => {
            let f = first_with_id(inst, id, inst.len() as int);
            if f >= 0 {
                Some(f)
            } else {
                None
            }
        },
        None => None,
    }
}

/// Position among `inst` of the sticky-session choice: the instance the
/// session still binds, else the least-loaded candidate.
pub open spec fn sticky_choice(
    sessions: Map<Seq<char>, StickySession>,
    health: Map<Seq<char>, HealthStatus>,
    counts: Map<Seq<char>, u64>,
    ttl: u64,
    sid: Seq<char>,
    nf_type: Seq<char>,
    inst: Seq<NfProfile>,
    now: u64,
) -> int {
    match sticky_pick(sessions, health, ttl, sid, nf_type, inst, now) {
        Some(f) => f,
        None => {
            let c = candidates(health, inst, now);
            c[least_loaded(counts, inst, c, c.len() as int)]
        },
    }
}

proof fn lemma_healthy_prefix(health: Map<Seq<char>, HealthStatus>, inst: Seq<NfProfile>, now: u64, n: int)
    requires
        0 <= n <= inst.len(),
    ensures
        healthy_prefix(health, inst, now, n).len() <= n,
        forall|j: int| 0 <= j < healthy_prefix(health, inst, now, n).len() ==> 0 <= #[trigger] healthy_prefix(health, inst, now, n)[j] < n,
    decreases n,
{
    if n > 0 {
        lemma_healthy_prefix(health, inst, now, n - 1);
    }
}

proof fn lemma_candidates(health: Map<Seq<char>, HealthStatus>, inst: Seq<NfProfile>, now: u64)
    ensures
        inst.len() > 0 ==> candidates(health, inst, now).len() > 0,
        candidates(health, inst, now).len() <= inst.len(),
        forall|j: int| 0 <= j < candidates(health, inst, now).len() ==> 0 <= #[trigger] candidates(health, inst, now)[j] < inst.len(),
{
    lemma_healthy_prefix(health, inst, now, inst.len() as int);
}

/// Two instance lists with the same ids, position for position.
pub open spec fn same_ids(a: Seq<NfProfile>, b: Seq<NfProfile>) -> bool {
    &&& a.len() == b.len()
    &&& forall|j: int| 0 <= j < a.len() ==> (#[trigger] a[j]).nf_instance_id@ == b[j].nf_instance_id@
}

proof fn lemma_healthy_prefix_ids(health: Map<Seq<char>, HealthStatus>, a: Seq<NfProfile>, b: Seq<NfProfile>, now: u64, n: int)
    requires
        same_ids(a, b),
        0 <= n <= a.len(),
    ensures
        healthy_prefix(health, a, now, n) == healthy_prefix(health, b, now, n),
    decreases n,
{
    if n > 0 {
        lemma_healthy_prefix_ids(health, a, b, now, n - 1);
        assert(a[n - 1].nf_instance_id@ == b[n - 1].nf_instance_id@);
    }
}

proof fn lemma_least_loaded_ids(counts: Map<Seq<char>, u64>, a: Seq<NfProfile>, b: Seq<NfProfile>, c: Seq<int>, n: int)
    requires
        same_ids(a, b),
        n <= c.len(),
        forall|j: int| 0 <= j < c.len() ==> 0 <= #[trigger] c[j] < a.len(),
    ensures
        least_loaded(counts, a, c, n) == least_loaded(counts, b, c, n),
        1 <= n ==> 0 <= least_loaded(counts, a, c, n) < n,
    decreases n,
{
    if n > 1 {
        lemma_least_loaded_ids(counts, a, b, c, n - 1);
        let bst = least_loaded(counts, a, c, n - 1);
        assert(a[c[n - 1]].nf_instance_id@ == b[c[n - 1]].nf_instance_id@);
        assert(a[c[bst]].nf_instance_id@ == b[c[bst]].nf_instance_id@);
    }
}

proof fn lemma_first_with_id_ids(a: Seq<NfProfile>, b: Seq<NfProfile>, id: Seq<char>, n: int)
    requires
        same_ids(a, b),
        n <= a.len(),
    ensures
        first_with_id(a, id, n) == first_with_id(b, id, n),
    decreases n,
{
    if n > 0 {
        lemma_first_with_id_ids(a, b, id, n - 1);
        assert(a[n - 1].nf_instance_id@ == b[n - 1].nf_instance_id@);
    }
}

/// The sticky-session choice depends on the instances' ids alone, and lies
/// within the list.
pub proof fn lemma_sticky_choice_ids(
    sessions: Map<Seq<char>, StickySession>,
    health: Map<Seq<char>, HealthStatus>,
    counts: Map<Seq<char>, u64>,
    ttl: u64,
    sid: Seq<char>,
    nf_type: Seq<char>,
    a: Seq<NfProfile>,
    b: Seq<NfProfile>,
    now: u64,
)
    requires
        same_ids(a, b),
        a.len() > 0,
    ensures
        sticky_choice(sessions, health, counts, ttl, sid, nf_type, a, now) == sticky_choice(
            sessions,
            health,
            counts,
            ttl,
            sid,
            nf_type,
            b,
            now,
        ),
        0 <= sticky_choice(sessions, health, counts, ttl, sid, nf_type, a, now) < a.len(),
{
    lemma_healthy_prefix_ids(health, a, b, now, a.len() as int);
    lemma_candidates(health, a, now);
    let ca = candidates(health, a, now);
    assert(ca == candidates(health, b, now));
    lemma_least_loaded_ids(counts, a, b, ca, ca.len() as int);
    match sticky_bound(sessions, health, ttl, sid, nf_type, now) {
        Some(id) => {
            lemma_first_with_id_ids(a, b, id, a.len() as int);
            if first_with_id(a, id, a.len() as int) >= 0 {
                lemma_first_with_id_in(a, id, a.len() as int);
            }
        },
        None => {},
    }
}

proof fn lemma_first_with_id_stable(inst: Seq<NfProfile>, id: Seq<char>, m: int, n: int)
    requires
        1 <= m <= n,
        first_with_id(inst, id, m) >= 0,
    ensures
        first_with_id(inst, id, n) == first_with_id(inst, id, m),
    decreases n - m,
{
    if n > m {
        lemma_first_with_id_stable(inst, id, m, n - 1);
    }
}

/// The record after failures at each of `times` in turn, starting from `h`.
pub open spec fn after_failures(h: Option<HealthStatus>, times: Seq<u64>, threshold: u64, timeout: u64) -> Option<HealthStatus>
    decreases times.len(),
{
    if times.len() == 0 {
        h
    } else {
        Some(after_failure(after_failures(h, times.drop_last(), threshold, timeout), times.last(), threshold, timeout))
    }
}

proof fn lemma_failure_count_grows(h: Option<HealthStatus>, times: Seq<u64>, threshold: u64, timeout: u64)
    requires
        times.len() > 0,
    ensures
        after_failures(h, times, threshold, timeout) is Some,
        after_failures(h, times, threshold, timeout).unwrap().failure_count >= if times.len() <= u64::MAX {
            times.len() as int
        } else {
            u64::MAX as int
        },
    decreases times.len(),
{
    if times.len() > 1 {
        lemma_failure_count_grows(h, times.drop_last(), threshold, timeout);
    }
}

/// After `failure_threshold` failures in a row with no success between them,
/// the instance is not selectable for the circuit timeout that follows the
/// last one.
pub proof fn lemma_failures_open_circuit(
    h: Option<HealthStatus>,
    times: Seq<u64>,
    threshold: u64,
    timeout: u64,
    now: u64,
)
    requires
        threshold >= 1,
        times.len() >= threshold,
        times.last() <= now < times.last() + timeout,
        times.last() + timeout <= u64::MAX,
    ensures
        !admits(after_failures(h, times, threshold, timeout), now),
{
    lemma_failure_count_grows(h, times, threshold, timeout);
    let prev = after_failures(h, times.drop_last(), threshold, timeout);
    let r = after_failure(prev, times.last(), threshold, timeout);
    assert(after_failures(h, times, threshold, timeout) == Some(r));
}

/// After a success is recorded for an instance, it is selectable at any
/// time.
pub proof fn lemma_success_admits(health: Map<Seq<char>, HealthStatus>, id: Seq<char>, now: u64)
    ensures
        admits(lookup(health.insert(id, after_success(lookup(health, id))), id), now),
{
}

proof fn lemma_first_with_id_found(inst: Seq<NfProfile>, id: Seq<char>, n: int, k: int)
    requires
        0 <= k < n <= inst.len(),
        inst[k].nf_instance_id@ == id,
    ensures
        0 <= first_with_id(inst, id, n) <= k,
        inst[first_with_id(inst, id, n)].nf_instance_id@ == id,
    decreases n,
{
    if n - 1 > k {
        lemma_first_with_id_found(inst, id, n - 1, k);
    } else if first_with_id(inst, id, n - 1) >= 0 {
        lemma_first_with_id_in(inst, id, n - 1);
    }
}

proof fn lemma_first_with_id_in(inst: Seq<NfProfile>, id: Seq<char>, n: int)
    requires
        n <= inst.len(),
        first_with_id(inst, id, n) >= 0,
    ensures
        first_with_id(inst, id, n) < n,
        inst[first_with_id(inst, id, n)].nf_instance_id@ == id,
    decreases n,
{
    if n > 0 && first_with_id(inst, id, n - 1) >= 0 {
        lemma_first_with_id_in(inst, id, n - 1);
    }
}

/// A session keeps its client on the bound instance: while the entry is
/// within its time to live, names the queried NF type, and its instance is
/// selectable and among the offered ones, sticky selection returns that
/// instance.
pub proof fn lemma_sticky_session_kept(
    sessions: Map<Seq<char>, StickySession>,
    health: Map<Seq<char>, HealthStatus>,
    counts: Map<Seq<char>, u64>,
    ttl: u64,
    sid: Seq<char>,
    nf_type: Seq<char>,
    inst: Seq<NfProfile>,
    now: u64,
    k: int,
)
    requires
        sessions.contains_key(sid),
        sessions[sid].nf_type@ == nf_type,
        sessions[sid].created_at <= now < sessions[sid].created_at + ttl,
        admits(lookup(health, sessions[sid].nf_instance_id@), now),
        0 <= k < inst.len(),
        inst[k].nf_instance_id@ == sessions[sid].nf_instance_id@,
    ensures
        sticky_pick(sessions, health, ttl, sid, nf_type, inst, now) is Some,
        inst[sticky_choice(sessions, health, counts, ttl, sid, nf_type, inst, now)].nf_instance_id@
            == sessions[sid].nf_instance_id@,
{
    lemma_first_with_id_found(inst, sessions[sid].nf_instance_id@, inst.len() as int, k);
}

/// Relies on `rand::Rng::gen_range` with the thread-local generator: the
/// value lies in `0..bound`.
#[verifier::external_body]
fn random_below(bound: u128) -> (r: u128)
    requires
        bound > 0,
    ensures
        r < bound,
{
    rand::thread_rng().gen_range(0..bound)
}

/// Figures on the routing state, for the status report.
#[derive(Clone, Copy, Debug)]
pub struct LoadBalancerStats {
    /// Instances that have a health record.
    pub tracked_instances: usize,
    /// Sticky sessions held, expired or not.
    pub sticky_sessions: usize,
}

/// A reservation of one connection slot on an instance, handed back to the
/// balancer when the upstream attempt is over.
pub struct ConnectionGuard {
    nf_instance_id: String,
}

impl ConnectionGuard {
    /// The instance whose slot this reservation holds.
    pub fn instance_id(&self) -> (r: &String)
        ensures
            r@ == self.id_view(),
    {
        &self.nf_instance_id
    }

    /// The instance whose slot this reservation holds.
    pub closed spec fn id_view(&self) -> Seq<char> {
        self.nf_instance_id@
    }
}

/// Routing state shared by all requests: round-robin cursors, live
/// connection counts, health records and sticky sessions.
pub struct LoadBalancer {
    round_robin_index: DashMap<String, u64>,
    connection_counts: DashMap<String, u64>,
    health_status: DashMap<String, HealthStatus>,
    sticky_sessions: DashMap<String, StickySession>,
    failure_threshold: u64,
    circuit_timeout: u64,
    session_ttl: u64,
    reservations: Ghost<Multiset<Seq<char>>>,
}

impl LoadBalancer {
    /// Round-robin cursor per NF type.
    pub closed spec fn cursors(&self) -> Map<Seq<char>, u64> {
        counter_entries(self.round_robin_index)
    }

    /// Live connection count per instance id.
    pub closed spec fn counts(&self) -> Map<Seq<char>, u64> {
        counter_entries(self.connection_counts)
    }

    /// Health record per instance id.
    pub closed spec fn health(&self) -> Map<Seq<char>, HealthStatus> {
        health_entries(self.health_status)
    }

    /// Sticky session per session id.
    pub closed spec fn sessions(&self) -> Map<Seq<char>, StickySession> {
        session_entries(self.sticky_sessions)
    }

    /// The instance ids of the reservations handed out and not yet released.
    pub closed spec fn in_flight(&self) -> Multiset<Seq<char>> {
        self.reservations@
    }

    /// Failures in a row after which a circuit opens.
    pub closed spec fn threshold(&self) -> u64 {
        self.failure_threshold
    }

    /// How long an opened circuit stays open, in ms.
    pub closed spec fn circuit_timeout_ms(&self) -> u64 {
        self.circuit_timeout
    }

    /// How long a sticky session lasts, in ms.
    pub closed spec fn session_ttl_ms(&self) -> u64 {
        self.session_ttl
    }

    /// The balancer's invariant: counts match the reservations in flight,
    /// and every health record is consistent.
    pub closed spec fn wf(&self) -> bool {
        &&& self.failure_threshold >= 1
        &&& forall|id: Seq<char>| #[trigger] load_of(self.counts(), id) == self.in_flight().count(id)
        &&& forall|id: Seq<char>| #[trigger] self.health().contains_key(id)
            ==> health_consistent(self.health()[id], self.failure_threshold)
    }

    /// A balancer with the default threshold (3 failures), circuit timeout
    /// (30 s) and session time to live (300 s).
    pub fn new() -> (r: LoadBalancer)
        ensures
            r.wf(),
            r.threshold() == DEFAULT_FAILURE_THRESHOLD,
            r.circuit_timeout_ms() == DEFAULT_CIRCUIT_TIMEOUT_MS,
            r.session_ttl_ms() == DEFAULT_SESSION_TTL_MS,
            r.cursors() =~= Map::empty(),
            r.counts() =~= Map::empty(),
            r.health() =~= Map::empty(),
            r.sessions() =~= Map::empty(),
            r.in_flight() =~= Multiset::empty(),
    {
        LoadBalancer::with_limits(DEFAULT_FAILURE_THRESHOLD, DEFAULT_CIRCUIT_TIMEOUT_MS, DEFAULT_SESSION_TTL_MS)
    }

    /// A balancer with the given failure threshold, circuit timeout and
    /// session time to live (both in ms).
    pub fn with_limits(failure_threshold: u64, circuit_timeout_ms: u64, session_ttl_ms: u64) -> (r: LoadBalancer)
        requires
            failure_threshold >= 1,
        ensures
            r.wf(),
            r.threshold() == failure_threshold,
            r.circuit_timeout_ms() == circuit_timeout_ms,
            r.session_ttl_ms() == session_ttl_ms,
            r.cursors() =~= Map::empty(),
            r.counts() =~= Map::empty(),
            r.health() =~= Map::empty(),
            r.sessions() =~= Map::empty(),
            r.in_flight() =~= Multiset::empty(),
    {
        LoadBalancer {
            round_robin_index: new_counter_map(),
            connection_counts: new_counter_map(),
            health_status: new_health_map(),
            sticky_sessions: new_session_map(),
            failure_threshold,
            circuit_timeout: circuit_timeout_ms,
            session_ttl: session_ttl_ms,
            reservations: Ghost(Multiset::empty()),
        }
    }

    /// Whether the instance may be selected at `now` (see `admits`).
    pub fn get_health_status(&self, nf_instance_id: &str, now: u64) -> (r: bool)
        ensures
            r == admits(lookup(self.health(), nf_instance_id@), now),
    {
        let key = nf_instance_id.to_owned();
        match health_get(&self.health_status, &key) {
            None => true,
            Some(h) => {
                match h.circuit_open_until {
                    Some(t) => {
                        if now >= t {
                            return true;
                        }
                    },
                    None => {},
                }
                h.is_healthy
            },
        }
    }

    /// The health record of an instance, if it has one.
    pub fn health_record(&self, nf_instance_id: &str) -> (r: Option<HealthStatus>)
        ensures
            r == lookup(self.health(), nf_instance_id@),
    {
        let key = nf_instance_id.to_owned();
        health_get(&self.health_status, &key)
    }

    /// Records a failed outcome at `now`; at the threshold the circuit opens
    /// for the circuit timeout.
    pub fn mark_failure(&mut self, nf_instance_id: &str, now: u64)
        requires
            old(self).wf(),
        ensures
            final(self).wf(),
            final(self).health() == old(self).health().insert(
                nf_instance_id@,
                after_failure(
                    lookup(old(self).health(), nf_instance_id@),
                    now,
                    old(self).threshold(),
                    old(self).circuit_timeout_ms(),
                ),
            ),
            final(self).counts() == old(self).counts(),
            final(self).sessions() == old(self).sessions(),
            final(self).cursors() == old(self).cursors(),
            final(self).in_flight() == old(self).in_flight(),
            final(self).same_limits(*old(self)),
            final(self).same_except_health(*old(self)),
    {
        let key = nf_instance_id.to_owned();
        let mut h = match health_get(&self.health_status, &key) {
            Some(h) => h,
            None => HealthStatus::default(),
        };
        h.failure_count = h.failure_count.saturating_add(1);
        h.last_failure = Some(now);
        if h.failure_count >= self.failure_threshold {
            h.is_healthy = false;
            h.circuit_open_until = Some(now.saturating_add(self.circuit_timeout));
        }
        proof {
            if self.health().contains_key(key@) {
                assert(health_consistent(self.health()[key@], self.failure_threshold));
            }
            assert(health_consistent(h, self.failure_threshold));
        }
        health_insert(&mut self.health_status, key, h);
        proof {
            assert(self.counts() == old(self).counts());
            assert(self.in_flight() == old(self).in_flight());
            assert(forall|id: Seq<char>| #[trigger] self.health().contains_key(id) ==> health_consistent(
                self.health()[id],
                self.failure_threshold,
            ));
        }
    }

    /// Records a successful outcome: the record is reset to healthy with a
    /// closed circuit, and created when the instance has none.
    pub fn mark_success(&mut self, nf_instance_id: &str)
        requires
            old(self).wf(),
        ensures
            final(self).wf(),
            final(self).health() == old(self).health().insert(
                nf_instance_id@,
                after_success(lookup(old(self).health(), nf_instance_id@)),
            ),
            final(self).counts() == old(self).counts(),
            final(self).sessions() == old(self).sessions(),
            final(self).cursors() == old(self).cursors(),
            final(self).in_flight() == old(self).in_flight(),
            final(self).same_limits(*old(self)),
            final(self).same_except_health(*old(self)),
    {
        let key = nf_instance_id.to_owned();
        let h = match health_get(&self.health_status, &key) {
            Some(h) => h,
            None => HealthStatus::default(),
        };
        let r = HealthStatus { is_healthy: true, failure_count: 0, circuit_open_until: None, ..h };
        health_insert(&mut self.health_status, key, r);
        proof {
            assert(self.counts() == old(self).counts());
            assert(self.in_flight() == old(self).in_flight());
            assert(health_consistent(r, self.failure_threshold));
            assert(forall|id: Seq<char>| #[trigger] self.health().contains_key(id) ==> health_consistent(
                self.health()[id],
                self.failure_threshold,
            ));
        }
    }

    /// The number of connections in flight to an instance.
    pub fn connection_count(&self, nf_instance_id: &str) -> (r: u64)
        ensures
            r == load_of(self.counts(), nf_instance_id@),
    {
        let key = nf_instance_id.to_owned();
        match counter_get(&self.connection_counts, &key) {
            Some(c) => c,
            None => 0,
        }
    }

    fn increment_connections(&mut self, nf_instance_id: &String)
        requires
            load_of(old(self).counts(), nf_instance_id@) < u64::MAX,
        ensures
            final(self).counts() == old(self).counts().insert(
                nf_instance_id@,
                (load_of(old(self).counts(), nf_instance_id@) + 1) as u64,
            ),
            final(self).same_except_counts(*old(self)),
    {
        let c = match counter_get(&self.connection_counts, nf_instance_id) {
            Some(c) => c,
            None => 0,
        };
        counter_insert(&mut self.connection_counts, nf_instance_id.clone(), c + 1);
    }

    fn decrement_connections(&mut self, nf_instance_id: &String)
        ensures
            load_of(old(self).counts(), nf_instance_id@) > 0 ==> final(self).counts()
                == old(self).counts().insert(
                nf_instance_id@,
                (load_of(old(self).counts(), nf_instance_id@) - 1) as u64,
            ),
            load_of(old(self).counts(), nf_instance_id@) == 0 ==> final(self).counts()
                == old(self).counts(),
            final(self).same_except_counts(*old(self)),
    {
        match counter_get(&self.connection_counts, nf_instance_id) {
            Some(c) => {
                if c > 0 {
                    counter_insert(&mut self.connection_counts, nf_instance_id.clone(), c - 1);
                }
            },
            None => {},
        }
    }

    /// Reserves one connection slot on an instance for an upstream attempt.
    pub fn acquire_connection(&mut self, nf_instance_id: String) -> (g: ConnectionGuard)
        requires
            old(self).wf(),
            load_of(old(self).counts(), nf_instance_id@) < u64::MAX,
        ensures
            final(self).wf(),
            g.id_view() == nf_instance_id@,
            final(self).in_flight() == old(self).in_flight().insert(nf_instance_id@),
            load_of(final(self).counts(), nf_instance_id@) == load_of(old(self).counts(), nf_instance_id@) + 1,
            forall|id: Seq<char>| id != nf_instance_id@ ==> load_of(final(self).counts(), id)
                == load_of(old(self).counts(), id),
            final(self).health() == old(self).health(),
            final(self).sessions() == old(self).sessions(),
            final(self).cursors() == old(self).cursors(),
            final(self).same_limits(*old(self)),
    {
        self.increment_connections(&nf_instance_id);
        proof {
            let id0 = nf_instance_id@;
            self.reservations = Ghost(old(self).reservations@.insert(id0));
            assert(self.health() == old(self).health());
            assert forall|id: Seq<char>| #[trigger] load_of(self.counts(), id) == self.in_flight().count(id) by {
                assert(load_of(old(self).counts(), id) == old(self).in_flight().count(id));
            }
        }
        ConnectionGuard { nf_instance_id }
    }

    /// Hands a reservation back: the instance's count drops by one.
    pub fn release_connection(&mut self, guard: ConnectionGuard)
        requires
            old(self).wf(),
        ensures
            final(self).wf(),
            final(self).in_flight() == old(self).in_flight().remove(guard.id_view()),
            load_of(old(self).counts(), guard.id_view()) > 0 ==> load_of(final(self).counts(), guard.id_view())
                == load_of(old(self).counts(), guard.id_view()) - 1,
            forall|id: Seq<char>| id != guard.id_view() ==> load_of(final(self).counts(), id)
                == load_of(old(self).counts(), id),
            final(self).health() == old(self).health(),
            final(self).sessions() == old(self).sessions(),
            final(self).cursors() == old(self).cursors(),
            final(self).same_limits(*old(self)),
    {
        self.decrement_connections(&guard.nf_instance_id);
        proof {
            let id0 = guard.nf_instance_id@;
            self.reservations = Ghost(old(self).reservations@.remove(id0));
            assert(self.health() == old(self).health());
            assert forall|id: Seq<char>| #[trigger] load_of(self.counts(), id) == self.in_flight().count(id) by {
                assert(load_of(old(self).counts(), id) == old(self).in_flight().count(id));
            }
        }
    }

    /// The settings are those of `o`.
    pub open spec fn same_limits(&self, o: LoadBalancer) -> bool {
        &&& self.threshold() == o.threshold()
        &&& self.circuit_timeout_ms() == o.circuit_timeout_ms()
        &&& self.session_ttl_ms() == o.session_ttl_ms()
    }

    /// Everything but the connection counts is as in `o`.
    closed spec fn same_except_counts(&self, o: LoadBalancer) -> bool {
        &&& self.round_robin_index == o.round_robin_index
        &&& self.health_status == o.health_status
        &&& self.sticky_sessions == o.sticky_sessions
        &&& self.same_limits(o)
        &&& self.reservations == o.reservations
    }

    /// Positions of the instances a selection chooses among at `now`.
    fn candidate_positions(&self, instances: &[NfProfile], now: u64) -> (r: Vec<usize>)
        ensures
            r@.len() == candidates(self.health(), instances@, now).len(),
            forall|j: int| 0 <= j < r@.len() ==> r@[j] as int == #[trigger] candidates(self.health(), instances@, now)[j],
            forall|j: int| 0 <= j < r@.len() ==> #[trigger] r@[j] < instances@.len(),
            instances@.len() > 0 ==> r@.len() > 0,
    {
        let ghost h = self.health();
        let mut r: Vec<usize> = Vec::new();
        let mut i: usize = 0;
        while i < instances.len()
            invariant
                i <= instances@.len(),
                h == self.health(),
                r@.len() == healthy_prefix(h, instances@, now, i as int).len(),
                forall|j: int| 0 <= j < r@.len() ==> r@[j] as int == #[trigger] healthy_prefix(h, instances@, now, i as int)[j],
            decreases instances@.len() - i,
        {
            if self.get_health_status(instances[i].nf_instance_id.as_str(), now) {
                r.push(i);
            }
            i = i + 1;
        }
        proof {
            lemma_healthy_prefix(h, instances@, now, instances@.len() as int);
        }
        if r.len() == 0 {
            let mut k: usize = 0;
            while k < instances.len()
                invariant
                    k <= instances@.len(),
                    r@.len() == k,
                    forall|j: int| 0 <= j < k ==> r@[j] as int == j,
                decreases instances@.len() - k,
            {
                r.push(k);
                k = k + 1;
            }
        }
        proof {
            lemma_candidates(h, instances@, now);
            assert forall|j: int| 0 <= j < r@.len() implies #[trigger] r@[j] < instances@.len() by {
                assert(r@[j] as int == candidates(h, instances@, now)[j]);
            }
        }
        r
    }

    /// The instances admitted at `now`, in their order.
    pub fn filter_healthy<'a>(&self, instances: &'a [NfProfile], now: u64) -> (r: Vec<&'a NfProfile>)
        ensures
            r@.len() == healthy_positions(self.health(), instances@, now).len(),
            forall|j: int| 0 <= j < r@.len() ==> *r@[j] == instances@[#[trigger] healthy_positions(self.health(), instances@, now)[j]],
    {
        let ghost h = self.health();
        let mut r: Vec<&'a NfProfile> = Vec::new();
        let mut i: usize = 0;
        while i < instances.len()
            invariant
                i <= instances@.len(),
                h == self.health(),
                r@.len() == healthy_prefix(h, instances@, now, i as int).len(),
                forall|j: int| 0 <= j < r@.len() ==> *r@[j] == instances@[#[trigger] healthy_prefix(h, instances@, now, i as int)[j]],
            decreases instances@.len() - i,
        {
            if self.get_health_status(instances[i].nf_instance_id.as_str(), now) {
                r.push(&instances[i]);
            }
            i = i + 1;
        }
        r
    }

    /// Round-robin selection for `nf_type`: the candidate at the type's
    /// cursor modulo their number; the cursor then moves on by one.
    pub fn select_round_robin<'a>(&mut self, nf_type: &str, instances: &'a [NfProfile], now: u64) -> (r: &'a NfProfile)
        requires
            old(self).wf(),
            instances@.len() > 0,
        ensures
            final(self).wf(),
            ({
                let c = candidates(old(self).health(), instances@, now);
                let cur = load_of(old(self).cursors(), nf_type@);
                if c.len() == 1 {
                    *r == instances@[c[0]] && final(self).cursors() == old(self).cursors()
                } else {
                    &&& *r == instances@[c[(cur % c.len()) as int]]
                    &&& final(self).cursors() == old(self).cursors().insert(nf_type@, rr_advance(cur as u64))
                }
            }),
            final(self).counts() == old(self).counts(),
            final(self).health() == old(self).health(),
            final(self).sessions() == old(self).sessions(),
            final(self).in_flight() == old(self).in_flight(),
            final(self).same_limits(*old(self)),
    {
        let c = self.candidate_positions(instances, now);
        if c.len() == 1 {
            return &instances[c[0]];
        }
        let key = nf_type.to_owned();
        let cur = match counter_get(&self.round_robin_index, &key) {
            Some(v) => v,
            None => 0,
        };
        let len = c.len() as u64;
        let selected = (cur % len) as usize;
        let next = if cur < u64::MAX {
            cur + 1
        } else {
            0
        };
        counter_insert(&mut self.round_robin_index, key, next);
        proof {
            assert(self.counts() == old(self).counts());
            assert(self.health() == old(self).health());
            assert(self.in_flight() == old(self).in_flight());
        }
        &instances[c[selected]]
    }

    /// Least-connections selection: the first candidate with the fewest
    /// connections in flight.
    pub fn select_least_connections<'a>(&self, instances: &'a [NfProfile], now: u64) -> (r: &'a NfProfile)
        requires
            instances@.len() > 0,
        ensures
            ({
                let c = candidates(self.health(), instances@, now);
                *r == instances@[c[least_loaded(self.counts(), instances@, c, c.len() as int)]]
            }),
            exists|k: int| 0 <= k < instances@.len() && *r == #[trigger] instances@[k],
    {
        let c = self.candidate_positions(instances, now);
        let ghost cs = candidates(self.health(), instances@, now);
        let mut best: usize = 0;
        let mut best_load = self.connection_count(instances[c[0]].nf_instance_id.as_str());
        let mut j: usize = 1;
        while j < c.len()
            invariant
                1 <= j <= c@.len(),
                c@.len() == cs.len(),
                forall|k: int| 0 <= k < c@.len() ==> c@[k] as int == #[trigger] cs[k],
                forall|k: int| 0 <= k < c@.len() ==> #[trigger] c@[k] < instances@.len(),
                best == least_loaded(self.counts(), instances@, cs, j as int),
                best < j,
                best_load == load_of(self.counts(), instances@[cs[best as int]].nf_instance_id@),
            decreases c@.len() - j,
        {
            let l = self.connection_count(instances[c[j]].nf_instance_id.as_str());
            if l < best_load {
                best = j;
                best_load = l;
            }
            j = j + 1;
        }
        &instances[c[best]]
    }

    /// Weighted selection for a given draw: walks the candidates deducting
    /// each one's capacity from `draw` until it falls below one (the first
    /// candidate when all capacities are zero; the last when the draw is too
    /// large).
    pub fn select_weighted_with_draw<'a>(&self, instances: &'a [NfProfile], now: u64, draw: u128) -> (r: &'a NfProfile)
        requires
            instances@.len() > 0,
        ensures
            ({
                let c = candidates(self.health(), instances@, now);
                if c.len() == 1 || capacity_sum(instances@, c, c.len() as int) == 0 {
                    *r == instances@[c[0]]
                } else {
                    *r == instances@[c[weighted_walk(instances@, c, draw as int, 0)]]
                }
            }),
    {
        let c = self.candidate_positions(instances, now);
        let ghost cs = candidates(self.health(), instances@, now);
        if c.len() == 1 {
            return &instances[c[0]];
        }
        let total = self.capacity_total(instances, &c, now);
        if total == 0 {
            return &instances[c[0]];
        }
        let mut rest: u128 = draw;
        let mut j: usize = 0;
        while j < c.len()
            invariant
                j <= c@.len(),
                c@.len() == cs.len(),
                c@.len() > 1,
                forall|k: int| 0 <= k < c@.len() ==> c@[k] as int == #[trigger] cs[k],
                forall|k: int| 0 <= k < c@.len() ==> #[trigger] c@[k] < instances@.len(),
                weighted_walk(instances@, cs, draw as int, 0) == weighted_walk(instances@, cs, rest as int, j as int),
                capacity_sum(instances@, cs, cs.len() as int) != 0,
                cs == candidates(self.health(), instances@, now),
            decreases c@.len() - j,
        {
            let cap: u128 = match instances[c[j]].capacity {
                Some(v) => v as u128,
                None => DEFAULT_CAPACITY as u128,
            };
            assert(cap == capacity_of(instances@[cs[j as int]]));
            if rest < cap {
                return &instances[c[j]];
            }
            rest = rest - cap;
            j = j + 1;
        }
        &instances[c[c.len() - 1]]
    }

    /// The sum of the candidates' capacities.
    fn capacity_total(&self, instances: &[NfProfile], c: &Vec<usize>, now: u64) -> (r: u128)
        requires
            c@.len() == candidates(self.health(), instances@, now).len(),
            forall|k: int| 0 <= k < c@.len() ==> c@[k] as int == #[trigger] candidates(self.health(), instances@, now)[k],
            forall|k: int| 0 <= k < c@.len() ==> #[trigger] c@[k] < instances@.len(),
        ensures
            r == capacity_sum(instances@, candidates(self.health(), instances@, now), c@.len() as int),
    {
        let ghost cs = candidates(self.health(), instances@, now);
        let mut total: u128 = 0;
        let mut j: usize = 0;
        while j < c.len()
            invariant
                j <= c@.len(),
                c@.len() == cs.len(),
                forall|k: int| 0 <= k < c@.len() ==> c@[k] as int == #[trigger] cs[k],
                forall|k: int| 0 <= k < c@.len() ==> #[trigger] c@[k] < instances@.len(),
                total == capacity_sum(instances@, cs, j as int),
                total <= j * 0xFFFF_FFFFu128,
            decreases c@.len() - j,
        {
            let cap: u128 = match instances[c[j]].capacity {
                Some(v) => v as u128,
                None => DEFAULT_CAPACITY as u128,
            };
            proof {
                assert(j < usize::MAX);
                assert((j + 1) * 0xFFFF_FFFFu128 == j * 0xFFFF_FFFFu128 + 0xFFFF_FFFFu128) by (nonlinear_arith);
                assert((j + 1) * 0xFFFF_FFFFu128 <= 0x1_0000_0000_0000_0000u128 * 0xFFFF_FFFFu128) by (nonlinear_arith)
                    requires j < 0x1_0000_0000_0000_0000u128;
            }
            total = total + cap;
            j = j + 1;
        }
        total
    }

    /// Weighted selection: a uniform draw below the candidates' total
    /// capacity picks the candidate whose share of that range holds it.
    pub fn select_weighted<'a>(&self, instances: &'a [NfProfile], now: u64) -> (r: &'a NfProfile)
        requires
            instances@.len() > 0,
        ensures
            ({
                let c = candidates(self.health(), instances@, now);
                let total = capacity_sum(instances@, c, c.len() as int);
                if c.len() == 1 || total == 0 {
                    *r == instances@[c[0]]
                } else {
                    exists|d: int| 0 <= d < total && *r == instances@[c[#[trigger] weighted_walk(instances@, c, d, 0)]]
                }
            }),
    {
        let c = self.candidate_positions(instances, now);
        if c.len() == 1 {
            return &instances[c[0]];
        }
        let total = self.capacity_total(instances, &c, now);
        if total == 0 {
            return &instances[c[0]];
        }
        let draw = random_below(total);
        let r = self.select_weighted_with_draw(instances, now, draw);
        proof {
            let cs = candidates(self.health(), instances@, now);
            assert(*r == instances@[cs[weighted_walk(instances@, cs, draw as int, 0)]]);
        }
        r
    }

    /// The instance that session `session_id` still binds for `nf_type` at
    /// `now`. An entry for `nf_type` that has expired, or whose instance is
    /// not admitted, is removed.
    pub fn get_sticky_session(&mut self, session_id: &str, nf_type: &str, now: u64) -> (r: Option<String>)
        requires
            old(self).wf(),
        ensures
            final(self).wf(),
            r matches Some(x) ==> sticky_bound(
                old(self).sessions(),
                old(self).health(),
                old(self).session_ttl_ms(),
                session_id@,
                nf_type@,
                now,
            ) == Some(x@),
            r is None ==> sticky_bound(
                old(self).sessions(),
                old(self).health(),
                old(self).session_ttl_ms(),
                session_id@,
                nf_type@,
                now,
            ) is None,
            (r is None && old(self).sessions().contains_key(session_id@) && old(self).sessions()[session_id@].nf_type@
                == nf_type@) ==> final(self).sessions() == old(self).sessions().remove(session_id@),
            (r is Some || !old(self).sessions().contains_key(session_id@) || old(self).sessions()[session_id@].nf_type@
                != nf_type@) ==> final(self).sessions() == old(self).sessions(),
            final(self).same_except_sessions(*old(self)),
    {
        let key = session_id.to_owned();
        let wanted = nf_type.to_owned();
        match session_get(&self.sticky_sessions, &key) {
            Some(session) => {
                if session.nf_type == wanted {
                    if session.is_live(now, self.session_ttl) && self.get_health_status(
                        session.nf_instance_id.as_str(),
                        now,
                    ) {
                        return Some(session.nf_instance_id);
                    }
                    session_remove(&mut self.sticky_sessions, &key);
                    proof {
                        self.lemma_sessions_only(*old(self));
                    }
                }
                None
            },
            None => None,
        }
    }

    /// Binds session `session_id` to an instance for `nf_type`, from `now`.
    pub fn set_sticky_session(&mut self, session_id: &str, nf_instance_id: &str, nf_type: &str, now: u64)
        requires
            old(self).wf(),
        ensures
            final(self).wf(),
            final(self).sessions().remove(session_id@) == old(self).sessions().remove(session_id@),
            final(self).sessions().contains_key(session_id@),
            final(self).sessions()[session_id@].nf_instance_id@ == nf_instance_id@,
            final(self).sessions()[session_id@].nf_type@ == nf_type@,
            final(self).sessions()[session_id@].created_at == now,
            final(self).same_except_sessions(*old(self)),
    {
        let session = StickySession {
            nf_instance_id: nf_instance_id.to_owned(),
            nf_type: nf_type.to_owned(),
            created_at: now,
        };
        session_insert(&mut self.sticky_sessions, session_id.to_owned(), session);
        proof {
            self.lemma_sessions_only(*old(self));
            assert(self.sessions().remove(session_id@) =~= old(self).sessions().remove(session_id@));
        }
    }

    /// Drops every sticky session whose time to live has passed at `now`.
    pub fn cleanup_expired_sessions(&mut self, now: u64)
        requires
            old(self).wf(),
        ensures
            final(self).wf(),
            forall|k: Seq<char>| #[trigger] final(self).sessions().contains_key(k) <==> (old(self).sessions().contains_key(k)
                && session_live(old(self).sessions()[k], now, old(self).session_ttl_ms())),
            forall|k: Seq<char>| #[trigger] final(self).sessions().contains_key(k) ==> final(self).sessions()[k]
                == old(self).sessions()[k],
            final(self).same_except_sessions(*old(self)),
    {
        session_retain_live(&mut self.sticky_sessions, now, self.session_ttl);
        proof {
            self.lemma_sessions_only(*old(self));
        }
    }

    /// Sticky-session selection: the instance the session still binds when
    /// it is among `instances`; otherwise the least-connections choice, which
    /// the session is then bound to from `now`.
    pub fn select_with_sticky_session<'a>(
        &mut self,
        session_id: &str,
        nf_type: &str,
        instances: &'a [NfProfile],
        now: u64,
    ) -> (r: &'a NfProfile)
        requires
            old(self).wf(),
            instances@.len() > 0,
        ensures
            final(self).wf(),
            sticky_pick(old(self).sessions(), old(self).health(), old(self).session_ttl_ms(), session_id@, nf_type@, instances@, now)
                matches Some(f) ==> *r == instances@[f] && final(self).sessions() == old(self).sessions(),
            sticky_pick(old(self).sessions(), old(self).health(), old(self).session_ttl_ms(), session_id@, nf_type@, instances@, now)
                is None ==> ({
                let c = candidates(old(self).health(), instances@, now);
                &&& *r == instances@[c[least_loaded(old(self).counts(), instances@, c, c.len() as int)]]
                &&& final(self).sessions().remove(session_id@) == old(self).sessions().remove(session_id@)
                &&& final(self).sessions()[session_id@].created_at == now
            }),
            *r == instances@[sticky_choice(
                old(self).sessions(),
                old(self).health(),
                old(self).counts(),
                old(self).session_ttl_ms(),
                session_id@,
                nf_type@,
                instances@,
                now,
            )],
            final(self).sessions().contains_key(session_id@),
            final(self).sessions()[session_id@].nf_instance_id@ == r.nf_instance_id@,
            final(self).sessions()[session_id@].nf_type@ == nf_type@,
            final(self).same_except_sessions(*old(self)),
            exists|k: int| 0 <= k < instances@.len() && *r == #[trigger] instances@[k],
            final(self).counts() == old(self).counts(),
            final(self).health() == old(self).health(),
            final(self).cursors() == old(self).cursors(),
            final(self).in_flight() == old(self).in_flight(),
            final(self).same_limits(*old(self)),
    {
        match self.get_sticky_session(session_id, nf_type, now) {
            Some(id) => {
                let mut i: usize = 0;
                while i < instances.len()
                    invariant
                        i <= instances@.len(),
                        first_with_id(instances@, id@, i as int) == -1,
                        self.wf(),
                        old(self).wf(),
                        self.sessions() == old(self).sessions(),
                        self.same_except_sessions(*old(self)),
                        sticky_bound(old(self).sessions(), old(self).health(), old(self).session_ttl_ms(), session_id@, nf_type@, now)
                            == Some(id@),
                    decreases instances@.len() - i,
                {
                    if instances[i].nf_instance_id == id {
                        proof {
                            lemma_first_with_id_stable(instances@, id@, i as int + 1, instances@.len() as int);
                        }
                        proof {
                            self.lemma_sessions_only(*old(self));
                        }
                        return &instances[i];
                    }
                    i = i + 1;
                }
                let key = session_id.to_owned();
                session_remove(&mut self.sticky_sessions, &key);
                proof {
                    self.lemma_sessions_only(*old(self));
                }
            },
            None => {},
        }
        let selected = self.select_least_connections(instances, now);
        self.set_sticky_session(session_id, selected.nf_instance_id.as_str(), nf_type, now);
        proof {
            assert(self.sessions().remove(session_id@) =~= old(self).sessions().remove(session_id@));
            self.lemma_sessions_only(*old(self));
        }
        selected
    }

    /// How many instances have a health record and how many sticky
    /// sessions are held.
    pub fn get_statistics(&self) -> (r: LoadBalancerStats)
        ensures
            r.tracked_instances == self.health().dom().len(),
            r.sticky_sessions == self.sessions().dom().len(),
    {
        LoadBalancerStats {
            tracked_instances: health_len(&self.health_status),
            sticky_sessions: session_len(&self.sticky_sessions),
        }
    }

    /// Every instance's connection count equals the number of its
    /// reservations in flight.
    pub proof fn lemma_connection_counts_match(&self, id: Seq<char>)
        requires
            self.wf(),
        ensures
            load_of(self.counts(), id) == self.in_flight().count(id),
    {
    }

    /// Only the sticky sessions differ from `o`; the invariant carries over.
    proof fn lemma_sessions_only(&self, o: LoadBalancer)
        requires
            o.wf(),
            self.same_except_sessions(o),
        ensures
            self.wf(),
            self.counts() == o.counts(),
            self.health() == o.health(),
            self.cursors() == o.cursors(),
            self.in_flight() == o.in_flight(),
    {
        assert(self.counts() == o.counts());
        assert(self.health() == o.health());
        assert(self.in_flight() == o.in_flight());
    }

    /// Everything but the sticky sessions is as in `o`.
    pub open spec fn same_except_sessions(&self, o: LoadBalancer) -> bool {
        &&& self.counts() == o.counts()
        &&& self.health() == o.health()
        &&& self.cursors() == o.cursors()
        &&& self.in_flight() == o.in_flight()
        &&& self.same_limits(o)
    }

    /// Everything but the health records is as in `o`.
    pub open spec fn same_except_health(&self, o: LoadBalancer) -> bool {
        &&& self.counts() == o.counts()
        &&& self.sessions() == o.sessions()
        &&& self.cursors() == o.cursors()
        &&& self.in_flight() == o.in_flight()
        &&& self.same_limits(o)
    }
}

} // verus!
