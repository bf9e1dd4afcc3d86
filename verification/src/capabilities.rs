//! The capability registry: the feature section of the configuration,
//! resolved once into the immutable set of host capabilities a worker
//! instance may call. A capability is either present with its settings or
//! absent, and an absent capability fails closed: the guest observes a
//! typed refusal, and no host work happens.

use vstd::prelude::*;
use vstd::string::StrSliceExecFns;
use crate::config::Features;
use crate::text::find_char;
use crate::text::seq_contains_char;
use crate::text::strs_view;

verus! {

/// The registry: the outbound HTTP-fetch capability is present exactly when
/// the configuration enables it, and carries its allow-list of hosts.
pub struct CapabilityRegistry {
    pub http_fetch: Option<Vec<String>>,
}

impl View for CapabilityRegistry {
    type V = Option<Seq<Seq<char>>>;

    open spec fn view(&self) -> Option<Seq<Seq<char>>> {
        match self.http_fetch {
            None => None,
            Some(hosts) => Some(strs_view(hosts@)),
        }
    }
}

/// Rejected at registry construction, so a misconfiguration surfaces at
/// startup rather than mid-request.
#[derive(Clone, Copy, PartialEq, Eq, Structural, Debug)]
pub enum CapabilityError {
    MalformedAllowedHost,
}

/// An allow-list entry must name a host: non-empty, with no space and no
/// slash.
pub open spec fn spec_host_well_formed(h: Seq<char>) -> bool {
    h.len() > 0 && !seq_contains_char(h, ' ') && !seq_contains_char(h, '/')
}

pub open spec fn spec_all_hosts_well_formed(hosts: Seq<Seq<char>>) -> bool {
    forall|i: int| 0 <= i < hosts.len() ==> spec_host_well_formed(hosts[i])
}

/// Checks one allow-list entry.
pub fn host_well_formed(h: &String) -> (r: bool)
    ensures
        r == spec_host_well_formed(h@),
{
    let s = h.as_str();
    if s.unicode_len() == 0 {
        return false;
    }
    if let Some(_) = find_char(s, ' ') {
        return false;
    }
    if let Some(_) = find_char(s, '/') {
        return false;
    }
    true
}

/// Builds the registry from the feature configuration. Construction is
/// pure: it succeeds exactly when the enabled capability's settings are
/// well formed, and a disabled capability is simply absent.
pub fn build_registry(features: &Features) -> (r: Result<CapabilityRegistry, CapabilityError>)
    ensures
        (r is Ok) == (!features.http_requests.enabled || spec_all_hosts_well_formed(
            strs_view(features.http_requests.allowed_hosts@),
        )),
        r is Ok ==> ((r->Ok_0.http_fetch is Some) == features.http_requests.enabled),
        r is Ok && features.http_requests.enabled ==> r->Ok_0@ == Some(
            strs_view(features.http_requests.allowed_hosts@),
        ),
        r is Err ==> r->Err_0 == CapabilityError::MalformedAllowedHost,
{
    if !features.http_requests.enabled {
        return Ok(CapabilityRegistry { http_fetch: None });
    }
    let hosts = &features.http_requests.allowed_hosts;
    let n = hosts.len();
    let mut copied: Vec<String> = Vec::new();
    let mut i: usize = 0;
    while i < n
        invariant
            hosts@ == features.http_requests.allowed_hosts@,
            features.http_requests.enabled,
            n == hosts@.len(),
            i <= n,
            copied@.len() == i,
            forall|k: int| 0 <= k < i ==> copied@[k]@ == hosts@[k]@,
            forall|k: int| 0 <= k < i ==> spec_host_well_formed(hosts@[k]@),
        decreases n - i,
    {
        let h = &hosts[i];
        if !host_well_formed(h) {
            proof {
                assert(strs_view(features.http_requests.allowed_hosts@)[i as int] == hosts@[
                    i as int
                ]@);
                assert(!spec_all_hosts_well_formed(
                    strs_view(features.http_requests.allowed_hosts@),
                ));
            }
            return Err(CapabilityError::MalformedAllowedHost);
        }
        copied.push(h.clone());
        i += 1;
    }
    let r = CapabilityRegistry { http_fetch: Some(copied) };
    proof {
        assert(strs_view(copied@) =~~= strs_view(features.http_requests.allowed_hosts@));
    }
    Ok(r)
}

/// Copies a registry, so each worker instance can carry its own immutable
/// capability set.
pub fn clone_registry(reg: &CapabilityRegistry) -> (r: CapabilityRegistry)
    ensures
        r@ == reg@,
{
    match &reg.http_fetch {
        None => CapabilityRegistry { http_fetch: None },
        Some(hosts) => {
            let n = hosts.len();
            let mut copied: Vec<String> = Vec::new();
            let mut i: usize = 0;
            while i < n
                invariant
                    n == hosts@.len(),
                    i <= n,
                    copied@.len() == i,
                    forall|k: int| 0 <= k < i ==> copied@[k]@ == hosts@[k]@,
                decreases n - i,
            {
                copied.push(hosts[i].clone());
                i += 1;
            }
            let r = CapabilityRegistry { http_fetch: Some(copied) };
            proof {
                assert(strs_view(copied@) =~~= strs_view(hosts@));
            }
            r
        },
    }
}

/// The answer a guest's outbound-fetch request receives.
#[derive(Clone, Copy, PartialEq, Eq, Structural, Debug)]
pub enum FetchDecision {
    /// The capability is disabled: the call fails closed before any host
    /// I/O, and the guest sees this as a typed error.
    Disabled,
    /// The capability is enabled but the target host is not on the
    /// allow-list.
    HostNotAllowed,
    /// The call may proceed to the host side.
    Allowed,
}

pub open spec fn spec_list_contains(hosts: Seq<Seq<char>>, h: Seq<char>) -> bool {
    exists|i: int| 0 <= i < hosts.len() && hosts[i] == h
}

/// The decision, as a function of the registry and the target host.
pub open spec fn spec_fetch_decision(reg: Option<Seq<Seq<char>>>, host: Seq<char>) -> FetchDecision {
    match reg {
        None => FetchDecision::Disabled,
        Some(hosts) => if spec_list_contains(hosts, host) {
            FetchDecision::Allowed
        } else {
            FetchDecision::HostNotAllowed
        },
    }
}

/// Gates one guest call to the HTTP-fetch capability. The decision is the
/// only path to host I/O: a `Disabled` or `HostNotAllowed` answer returns to
/// the guest without any host-side work.
pub fn gate_http_fetch(reg: &CapabilityRegistry, host: &String) -> (r: FetchDecision)
    ensures
        r == spec_fetch_decision(reg@, host@),
{
    match &reg.http_fetch {
        None => FetchDecision::Disabled,
        Some(hosts) => {
            let n = hosts.len();
            let mut i: usize = 0;
            while i < n
                invariant
                    reg@ == Some(strs_view(hosts@)),
                    n == hosts@.len(),
                    i <= n,
                    forall|k: int| 0 <= k < i ==> hosts@[k]@ != host@,
                decreases n - i,
            {
                if hosts[i].eq(host) {
                    proof {
                        assert(strs_view(hosts@)[i as int] == host@);
                        assert(spec_list_contains(strs_view(hosts@), host@));
                    }
                    return FetchDecision::Allowed;
                }
                i += 1;
            }
            proof {
                assert(forall|k: int|
                    0 <= k < strs_view(hosts@).len() ==> strs_view(hosts@)[k] != host@);
            }
            FetchDecision::HostNotAllowed
        },
    }
}

/// Law: capability gating fails closed. Whatever host a guest names, a
/// registry without the capability answers `Disabled`, so the call never
/// reaches host I/O.
pub proof fn lemma_capability_fail_closed(reg: CapabilityRegistry, host: Seq<char>)
    requires
        reg@ is None,
    ensures
        spec_fetch_decision(reg@, host) == FetchDecision::Disabled,
{
}

} // verus!
