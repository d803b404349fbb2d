//! Health checks: named probes and the overall status they add up to.
use vstd::prelude::*;
use crate::store::KeyedStore;
use crate::text::trim;

verus! {

/// The health of the whole service.
#[derive(Debug, Clone, Copy, PartialEq, Eq, Structural)]
pub enum OverallStatus {
    Healthy,
    Degraded,
    Unhealthy,
}

/// What `all_probes` reports about one probe.
#[derive(Debug, Clone)]
pub struct ProbeResult {
    pub name: String,
    pub healthy: bool,
    pub last_check_ms: u64,
    pub message: Option<String>,
}

/// Errors of the health registry.
#[derive(Debug, Clone, Copy, PartialEq, Eq, Structural)]
pub enum HealthError {
    NotFound,
    InvalidName,
    DuplicateProbe,
}

/// A registered probe.
#[derive(Debug, Clone)]
pub struct ProbeEntry {
    pub name: String,
    pub healthy: bool,
    pub last_check_ms: u64,
    pub message: Option<String>,
}

/// The trimmed name; empty names are rejected.
pub fn validate_name(name: &str) -> (r: Result<String, HealthError>)
    ensures
        trim(name@).len() == 0 ==> r == Err::<String, HealthError>(HealthError::InvalidName),
        trim(name@).len() != 0 ==> (r matches Ok(n) && n@ == trim(name@)),
{
    match crate::text::checked_name(name) {
        Some(n) => Ok(n),
        None => Err(HealthError::InvalidName),
    }
}

/// Every probe, by trimmed name.
pub struct HealthState {
    pub probes: KeyedStore<ProbeEntry>,
}

impl HealthState {
    /// The store is well formed.
    pub open spec fn wf(&self) -> bool {
        self.probes.wf()
    }

    /// No probes.
    pub fn new() -> (r: Self)
        ensures
            r.wf(),
            r.probes@ == Map::<Seq<char>, ProbeEntry>::empty(),
    {
        HealthState { probes: KeyedStore::new() }
    }
}

/// The overall status of the probes `m`: healthy when every probe is (or
/// there are none), unhealthy when none is, degraded otherwise.
pub open spec fn overall(m: Map<Seq<char>, ProbeEntry>) -> OverallStatus {
    if forall|k: Seq<char>| #[trigger] m.contains_key(k) ==> m[k].healthy {
        OverallStatus::Healthy
    } else if forall|k: Seq<char>| #[trigger] m.contains_key(k) ==> !m[k].healthy {
        OverallStatus::Unhealthy
    } else {
        OverallStatus::Degraded
    }
}

/// Register probe `name` as healthy and never checked.
pub fn register(state: &mut HealthState, name: &str) -> (r: Result<(), HealthError>)
    requires
        old(state).wf(),
    ensures
        final(state).wf(),
        trim(name@).len() == 0 ==> r == Err::<(), HealthError>(HealthError::InvalidName),
        trim(name@).len() != 0 && old(state).probes@.contains_key(trim(name@)) ==> r == Err::<(), HealthError>(HealthError::DuplicateProbe),
        r is Err ==> final(state).probes@ == old(state).probes@,
        trim(name@).len() != 0 && !old(state).probes@.contains_key(trim(name@)) ==> r is Ok
            && final(state).probes@.dom() == old(state).probes@.dom().insert(trim(name@))
            && (forall|q: Seq<char>| q != trim(name@) && #[trigger] old(state).probes@.contains_key(q) ==> final(state).probes@[q] == old(state).probes@[q])
            && ({
                let e = final(state).probes@[trim(name@)];
                e.name@ == trim(name@) && e.healthy && e.last_check_ms == 0 && e.message is None
            }),
{
    let n = validate_name(name)?;
    if state.probes.contains(&n) {
        return Err(HealthError::DuplicateProbe);
    }
    let e = ProbeEntry { name: n.clone(), healthy: true, last_check_ms: 0, message: None };
    state.probes.insert(n, e);
    Ok(())
}

/// Record a check result for probe `name`.
pub fn record_result(state: &mut HealthState, name: &str, healthy: bool, message: Option<String>, now_ms: u64) -> (r: Result<(), HealthError>)
    requires
        old(state).wf(),
    ensures
        final(state).wf(),
        trim(name@).len() == 0 ==> r == Err::<(), HealthError>(HealthError::InvalidName),
        trim(name@).len() != 0 && !old(state).probes@.contains_key(trim(name@)) ==> r == Err::<(), HealthError>(HealthError::NotFound),
        r is Err ==> final(state).probes@ == old(state).probes@,
        trim(name@).len() != 0 && old(state).probes@.contains_key(trim(name@)) ==> r is Ok
            && final(state).probes@ == old(state).probes@.insert(
                trim(name@),
                ProbeEntry { healthy, last_check_ms: now_ms, message, ..old(state).probes@[trim(name@)] },
            ),
{
    let n = validate_name(name)?;
    let i = match state.probes.find(&n) {
        Some(i) => i,
        None => return Err(HealthError::NotFound),
    };
    let (k, mut e) = state.probes.take_at(i);
    e.healthy = healthy;
    e.last_check_ms = now_ms;
    e.message = message;
    state.probes.restore_at(i, k, e);
    Ok(())
}

/// The overall status of all probes.
pub fn status(state: &HealthState) -> (r: Result<OverallStatus, HealthError>)
    requires
        state.wf(),
    ensures
        r == Ok::<OverallStatus, HealthError>(overall(state.probes@)),
{
    let n = state.probes.len();
    let mut all_healthy = true;
    let mut any_healthy = false;
    let mut i: usize = 0;
    while i < n
        invariant
            state.wf(),
            n == state.probes.entries().len(),
            i <= n,
            all_healthy <==> forall|j: int| 0 <= j < i ==> #[trigger] state.probes.entries()[j].1.healthy,
            any_healthy <==> exists|j: int| 0 <= j < i && #[trigger] state.probes.entries()[j].1.healthy,
        decreases n - i,
    {
        let (_, e) = state.probes.entry_at(i);
        if e.healthy {
            any_healthy = true;
        } else {
            all_healthy = false;
        }
        i = i + 1;
    }
    proof {
        state.probes.lemma_wf();
        let m = state.probes@;
        let s = state.probes.entries();
        if all_healthy {
            assert forall|k: Seq<char>| #[trigger] m.contains_key(k) implies m[k].healthy by {
                let j = choose|j: int| 0 <= j < s.len() && #[trigger] s[j].0@ == k;
                assert(s[j].1.healthy);
            }
        } else {
            let j = choose|j: int| 0 <= j < s.len() && !(#[trigger] s[j].1.healthy);
            assert(m.contains_key(s[j].0@));
        }
        if any_healthy {
            let j = choose|j: int| 0 <= j < s.len() && #[trigger] s[j].1.healthy;
            assert(m.contains_key(s[j].0@));
        } else {
            assert forall|k: Seq<char>| #[trigger] m.contains_key(k) implies !m[k].healthy by {
                let j = choose|j: int| 0 <= j < s.len() && #[trigger] s[j].0@ == k;
                assert(!s[j].1.healthy);
            }
        }
    }
    if all_healthy {
        Ok(OverallStatus::Healthy)
    } else if !any_healthy {
        Ok(OverallStatus::Unhealthy)
    } else {
        Ok(OverallStatus::Degraded)
    }
}

/// What `all_probes` reports for the probe `e`.
pub open spec fn result_of(e: ProbeEntry) -> ProbeResult {
    ProbeResult { name: e.name, healthy: e.healthy, last_check_ms: e.last_check_ms, message: e.message }
}

/// The results of every probe, in store order.
pub fn all_probes(state: &HealthState) -> (r: Result<Vec<ProbeResult>, HealthError>)
    requires
        state.wf(),
    ensures
        r matches Ok(v) && v@ == state.probes.entries().map_values(|e: (String, ProbeEntry)| result_of(e.1)),
{
    let n = state.probes.len();
    let mut v: Vec<ProbeResult> = Vec::new();
    let mut i: usize = 0;
    while i < n
        invariant
            state.wf(),
            n == state.probes.entries().len(),
            i <= n,
            v@ == state.probes.entries().take(i as int).map_values(|e: (String, ProbeEntry)| result_of(e.1)),
        decreases n - i,
    {
        let (_, e) = state.probes.entry_at(i);
        v.push(ProbeResult {
            name: e.name.clone(),
            healthy: e.healthy,
            last_check_ms: e.last_check_ms,
            message: crate::text::copy_opt_string(&e.message),
        });
        proof {
            assert(state.probes.entries().take(i + 1).map_values(|e: (String, ProbeEntry)| result_of(e.1)) =~= state.probes.entries().take(i as int).map_values(|e: (String, ProbeEntry)| result_of(e.1)).push(result_of(*e)));
        }
        i = i + 1;
    }
    proof {
        assert(state.probes.entries().take(n as int) =~= state.probes.entries());
    }
    Ok(v)
}

/// Remove probe `name`.
pub fn deregister(state: &mut HealthState, name: &str) -> (r: Result<(), HealthError>)
    requires
        old(state).wf(),
    ensures
        final(state).wf(),
        trim(name@).len() == 0 ==> r == Err::<(), HealthError>(HealthError::InvalidName),
        trim(name@).len() != 0 && !old(state).probes@.contains_key(trim(name@)) ==> r == Err::<(), HealthError>(HealthError::NotFound),
        trim(name@).len() != 0 && old(state).probes@.contains_key(trim(name@)) ==> r is Ok
            && final(state).probes@ == old(state).probes@.remove(trim(name@)),
        r is Err ==> final(state).probes@ == old(state).probes@,
{
    let n = validate_name(name)?;
    match state.probes.remove(&n) {
        Some(_) => Ok(()),
        None => Err(HealthError::NotFound),
    }
}

// ── Laws ────────────────────────────────────────────────────────────────────

/// With no probes the service is healthy.
pub proof fn law_no_probes_healthy()
    ensures
        overall(Map::<Seq<char>, ProbeEntry>::empty()) == OverallStatus::Healthy,
{
}

/// One failing probe among healthy ones makes the service degraded; when
/// every probe fails it is unhealthy.
pub proof fn law_mixed_is_degraded(m: Map<Seq<char>, ProbeEntry>, a: Seq<char>, b: Seq<char>)
    requires
        m.contains_key(a),
        m.contains_key(b),
        m[a].healthy,
        !m[b].healthy,
    ensures
        overall(m) == OverallStatus::Degraded,
{
}

/// The service is unhealthy exactly when there is a probe and none is healthy.
pub proof fn law_all_failing_unhealthy(m: Map<Seq<char>, ProbeEntry>, a: Seq<char>)
    requires
        m.contains_key(a),
        forall|k: Seq<char>| #[trigger] m.contains_key(k) ==> !m[k].healthy,
    ensures
        overall(m) == OverallStatus::Unhealthy,
{
}

} // verus!
