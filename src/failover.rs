//! Decisions of the failover loop that serves one proxied request: which
//! producers are left, which one to try next, and what an attempt's outcome
//! does to the routing state. The caller performs discovery and the
//! upstream calls.

use vstd::prelude::*;
use vstd::string::*;
use crate::forward::{build_producer_uri, producer_host};
use crate::load_balancer::{
    ConnectionGuard, LoadBalancer, load_of, after_failure, after_success, sticky_choice, same_ids,
    lemma_sticky_choice_ids,
};
use crate::registry::lookup;
use crate::types::{AppError, NfDiscoveryParams, NfProfile, same_profile};

verus! {

/// Whether `id` is among the excluded instance ids.
pub open spec fn is_excluded(excluded: Seq<String>, id: Seq<char>) -> bool {
    exists|k: int| 0 <= k < excluded.len() && (#[trigger] excluded[k])@ == id
}

/// Positions, in order, of the first `n` instances that are not excluded.
pub open spec fn available_positions(inst: Seq<NfProfile>, excluded: Seq<String>, n: int) -> Seq<int>
    decreases n,
{
    if n <= 0 {
        Seq::empty()
    } else {
        let p = available_positions(inst, excluded, n - 1);
        if is_excluded(excluded, inst[n - 1].nf_instance_id@) {
            p
        } else {
            p.push(n - 1)
        }
    }
}

/// The discovery query for producers of `target_nf_type`, made as an SCP.
pub fn discovery_params(target_nf_type: &str) -> (r: NfDiscoveryParams)
    ensures
        r.target_nf_type@ == target_nf_type@,
        r.requester_nf_type matches Some(t) && t@ == "SCP"@,
        r.service_names is None,
{
    NfDiscoveryParams {
        target_nf_type: target_nf_type.to_owned(),
        requester_nf_type: Some(String::from_str("SCP")),
        service_names: None,
    }
}

/// The discovered producers, or service unavailable when there are none.
pub fn check_discovered(instances: Vec<NfProfile>, target_nf_type: &str) -> (r: Result<Vec<NfProfile>, AppError>)
    ensures
        instances@.len() > 0 ==> r == Ok::<Vec<NfProfile>, AppError>(instances),
        instances@.len() == 0 ==> (r matches Err(AppError::ServiceUnavailable(m)) && m@
            == "No available instances found for NF type: "@ + target_nf_type@),
{
    if instances.len() == 0 {
        let mut m = String::from_str("No available instances found for NF type: ");
        m.append(target_nf_type);
        Err(AppError::ServiceUnavailable(m))
    } else {
        Ok(instances)
    }
}

fn excluded_contains(excluded: &Vec<String>, id: &String) -> (r: bool)
    ensures
        r == is_excluded(excluded@, id@),
{
    let mut k: usize = 0;
    while k < excluded.len()
        invariant
            k <= excluded@.len(),
            forall|j: int| 0 <= j < k ==> (#[trigger] excluded@[j])@ != id@,
        decreases excluded@.len() - k,
    {
        if excluded[k] == *id {
            return true;
        }
        k = k + 1;
    }
    false
}

/// Copies of the instances that are not excluded, in order.
pub fn available_instances(instances: &[NfProfile], excluded: &Vec<String>) -> (r: Vec<NfProfile>)
    ensures
        r@.len() == available_positions(instances@, excluded@, instances@.len() as int).len(),
        forall|j: int| 0 <= j < r@.len() ==> same_profile(
            #[trigger] r@[j],
            instances@[available_positions(instances@, excluded@, instances@.len() as int)[j]],
        ),
        forall|j: int| 0 <= j < r@.len() ==> !is_excluded(excluded@, (#[trigger] r@[j]).nf_instance_id@),
{
    let mut r: Vec<NfProfile> = Vec::new();
    let mut i: usize = 0;
    while i < instances.len()
        invariant
            i <= instances@.len(),
            r@.len() == available_positions(instances@, excluded@, i as int).len(),
            forall|j: int| 0 <= j < r@.len() ==> {
                let k = #[trigger] available_positions(instances@, excluded@, i as int)[j];
                &&& 0 <= k < i
                &&& same_profile(r@[j], instances@[k])
                &&& !is_excluded(excluded@, instances@[k].nf_instance_id@)
            },
        decreases instances@.len() - i,
    {
        if !excluded_contains(excluded, &instances[i].nf_instance_id) {
            r.push(instances[i].duplicate());
        }
        i = i + 1;
    }
    proof {
        assert forall|j: int| 0 <= j < r@.len() implies !is_excluded(excluded@, (#[trigger] r@[j]).nf_instance_id@) by {
            let k = available_positions(instances@, excluded@, instances@.len() as int)[j];
            assert(same_profile(r@[j], instances@[k]));
        }
    }
    r
}

/// The instances that are not excluded, in order.
pub open spec fn available_seq(inst: Seq<NfProfile>, excluded: Seq<String>) -> Seq<NfProfile> {
    let pos = available_positions(inst, excluded, inst.len() as int);
    Seq::new(pos.len(), |j: int| inst[pos[j]])
}

/// The producer the sticky-session policy picks among the instances that
/// are not excluded.
pub open spec fn next_choice(
    lb: LoadBalancer,
    sid: Seq<char>,
    nf_type: Seq<char>,
    inst: Seq<NfProfile>,
    excluded: Seq<String>,
    now: u64,
) -> NfProfile {
    let av = available_seq(inst, excluded);
    av[sticky_choice(lb.sessions(), lb.health(), lb.counts(), lb.session_ttl_ms(), sid, nf_type, av, now)]
}

/// The next producer to try: the sticky-session choice among the instances
/// not yet excluded, with its base URI, its id and a connection reservation.
/// Service unavailable when every instance is excluded, or when the chosen
/// one cannot take another connection; an internal error when the chosen
/// profile has no address.
pub fn select_next_producer(
    lb: &mut LoadBalancer,
    target_nf_type: &str,
    session_id: &str,
    instances: &[NfProfile],
    excluded: &Vec<String>,
    now: u64,
) -> (r: Result<(String, String, ConnectionGuard), AppError>)
    requires
        old(lb).wf(),
    ensures
        final(lb).wf(),
        available_seq(instances@, excluded@).len() == 0 ==> (r matches Err(AppError::ServiceUnavailable(m)) && m@
            == "No more available producer instances to try"@),
        available_seq(instances@, excluded@).len() == 0 ==> final(lb).sessions() == old(lb).sessions(),
        ({
            let ch = next_choice(*old(lb), session_id@, target_nf_type@, instances@, excluded@, now);
            &&& (available_seq(instances@, excluded@).len() > 0 && producer_host(ch) is None) ==> (r matches Err(
                AppError::InternalError(m),
            ) && m@ == "No valid address found for NF instance "@ + ch.nf_instance_id@)
            &&& (available_seq(instances@, excluded@).len() > 0 && producer_host(ch) is Some && load_of(
                old(lb).counts(),
                ch.nf_instance_id@,
            ) == u64::MAX) ==> (r matches Err(AppError::ServiceUnavailable(m)) && m@
                == "Producer instance cannot take another connection"@)
            &&& (available_seq(instances@, excluded@).len() > 0 && producer_host(ch) is Some && load_of(
                old(lb).counts(),
                ch.nf_instance_id@,
            ) < u64::MAX) ==> (r matches Ok(t) && t.1@ == ch.nf_instance_id@ && t.0@ == "http://"@
                + producer_host(ch).unwrap() && t.2.id_view() == ch.nf_instance_id@)
        }),
        r matches Ok(t) ==> ({
            let (uri, id, guard) = t;
            &&& !is_excluded(excluded@, id@)
            &&& final(lb).in_flight() == old(lb).in_flight().insert(id@)
            &&& load_of(final(lb).counts(), id@) == load_of(old(lb).counts(), id@) + 1
            &&& forall|other: Seq<char>| other != id@ ==> load_of(final(lb).counts(), other) == load_of(
                old(lb).counts(),
                other,
            )
            &&& final(lb).sessions().contains_key(session_id@)
            &&& final(lb).sessions()[session_id@].nf_instance_id@ == id@
        }),
        r is Err ==> final(lb).counts() == old(lb).counts(),
        r is Err ==> final(lb).in_flight() == old(lb).in_flight(),
        final(lb).health() == old(lb).health(),
        final(lb).cursors() == old(lb).cursors(),
        final(lb).same_limits(*old(lb)),
{
    let available = available_instances(instances, excluded);
    let ghost av = available_seq(instances@, excluded@);
    proof {
        assert(same_ids(available@, av));
    }
    if available.len() == 0 {
        return Err(AppError::ServiceUnavailable(String::from_str("No more available producer instances to try")));
    }
    let ghost before = *lb;
    let chosen = lb.select_with_sticky_session(session_id, target_nf_type, available.as_slice(), now);
    let ghost idx = sticky_choice(
        before.sessions(),
        before.health(),
        before.counts(),
        before.session_ttl_ms(),
        session_id@,
        target_nf_type@,
        available@,
        now,
    );
    proof {
        lemma_sticky_choice_ids(
            before.sessions(),
            before.health(),
            before.counts(),
            before.session_ttl_ms(),
            session_id@,
            target_nf_type@,
            available@,
            av,
            now,
        );
        assert(*chosen == available@[idx]);
    }
    let selected = chosen.duplicate();
    proof {
        let ch = next_choice(before, session_id@, target_nf_type@, instances@, excluded@, now);
        assert(ch == av[idx]);
        assert(same_profile(available@[idx], ch));
        assert(same_profile(selected, ch));
        assert(producer_host(selected) == producer_host(ch));
        assert(!is_excluded(excluded@, available@[idx].nf_instance_id@));
    }
    let uri = match build_producer_uri(&selected) {
        Ok(u) => u,
        Err(e) => return Err(e),
    };
    let id = selected.nf_instance_id.clone();
    if lb.connection_count(id.as_str()) == u64::MAX {
        return Err(AppError::ServiceUnavailable(String::from_str("Producer instance cannot take another connection")));
    }
    let guard = lb.acquire_connection(id.clone());
    Ok((uri, id, guard))
}

/// Records the outcome of one upstream attempt in the instance's health:
/// a success resets the record, a failure counts against it.
pub fn record_attempt(lb: &mut LoadBalancer, nf_instance_id: &str, succeeded: bool, now: u64)
    requires
        old(lb).wf(),
    ensures
        final(lb).wf(),
        final(lb).in_flight() == old(lb).in_flight(),
        final(lb).counts() == old(lb).counts(),
        final(lb).sessions() == old(lb).sessions(),
        final(lb).cursors() == old(lb).cursors(),
        final(lb).same_limits(*old(lb)),
        succeeded ==> final(lb).health() == old(lb).health().insert(
            nf_instance_id@,
            after_success(lookup(old(lb).health(), nf_instance_id@)),
        ),
        !succeeded ==> final(lb).health() == old(lb).health().insert(
            nf_instance_id@,
            after_failure(
                lookup(old(lb).health(), nf_instance_id@),
                now,
                old(lb).threshold(),
                old(lb).circuit_timeout_ms(),
            ),
        ),
{
    if succeeded {
        lb.mark_success(nf_instance_id);
    } else {
        lb.mark_failure(nf_instance_id, now);
    }
}

/// Ends the attempts on one producer: its reservation is released, and when
/// it failed it is excluded from the rest of this request.
pub fn finish_attempt(lb: &mut LoadBalancer, guard: ConnectionGuard, succeeded: bool, excluded: &mut Vec<String>)
    requires
        old(lb).wf(),
    ensures
        final(lb).wf(),
        final(lb).in_flight() == old(lb).in_flight().remove(guard.id_view()),
        load_of(old(lb).counts(), guard.id_view()) > 0 ==> load_of(final(lb).counts(), guard.id_view())
            == load_of(old(lb).counts(), guard.id_view()) - 1,
        forall|other: Seq<char>| other != guard.id_view() ==> load_of(final(lb).counts(), other) == load_of(
            old(lb).counts(),
            other,
        ),
        final(lb).health() == old(lb).health(),
        final(lb).sessions() == old(lb).sessions(),
        final(lb).cursors() == old(lb).cursors(),
        final(lb).same_limits(*old(lb)),
        succeeded ==> final(excluded)@ == old(excluded)@,
        !succeeded ==> final(excluded)@.len() == old(excluded)@.len() + 1,
        !succeeded ==> final(excluded)@.subrange(0, old(excluded)@.len() as int) == old(excluded)@,
        !succeeded ==> final(excluded)@.last()@ == guard.id_view(),
{
    if !succeeded {
        let id = guard.instance_id().clone();
        excluded.push(id);
        proof {
            assert(final(excluded)@.subrange(0, old(excluded)@.len() as int) =~= old(excluded)@);
        }
    }
    lb.release_connection(guard);
}

/// What the failover loop does once the attempts on one producer are over.
#[derive(Clone, Copy, Debug, PartialEq, Eq, Structural)]
pub enum FailoverStep {
    /// The producer answered: relay its response.
    Relay,
    /// It failed and producers are left: select the next one.
    TryNext,
    /// It failed and every producer has been tried: report that all failed.
    Exhausted,
}

/// The failover decision after the `tried`-th producer (counting from one)
/// of `total` ended as `succeeded` says.
pub fn after_producer(succeeded: bool, tried: usize, total: usize) -> (r: FailoverStep)
    ensures
        succeeded ==> r == FailoverStep::Relay,
        !succeeded && tried < total ==> r == FailoverStep::TryNext,
        !succeeded && tried >= total ==> r == FailoverStep::Exhausted,
{
    if succeeded {
        FailoverStep::Relay
    } else if tried < total {
        FailoverStep::TryNext
    } else {
        FailoverStep::Exhausted
    }
}

/// The error when every producer has been tried and failed.
pub fn all_producers_failed() -> (r: AppError)
    ensures
        r matches AppError::ServiceUnavailable(m) && m@ == "All available producers failed to handle the request"@,
{
    AppError::ServiceUnavailable(String::from_str("All available producers failed to handle the request"))
}

} // verus!
