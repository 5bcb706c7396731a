//! Reconciling the RAPL domains that perf_event and powercap report.
use vstd::prelude::*;

use crate::domain::{distinct_domains, distinct_in_name_order, same_domains, RaplDomainType};
use crate::perf_event::PowerEvent;
use crate::powercap::PowerZoneHierarchy;

verus! {

/// The domains of each interface and the ones to offer.
#[derive(Debug, Clone)]
pub struct DomainConsistency {
    /// The domains of the perf events, each once, in name order.
    pub perf_domains: Vec<RaplDomainType>,
    /// The domains of the powercap zones, each once, in name order.
    pub powercap_domains: Vec<RaplDomainType>,
    /// Whether both interfaces report the same domains.
    pub consistent: bool,
    /// The longer of the two lists (perf_event's when they have the same length).
    pub available: Vec<RaplDomainType>,
}

/// Compares the domains that perf_event and powercap report. A mismatch is a
/// known kernel or vendor inconsistency, which the caller reports; the longer
/// list is the one to offer.
pub fn check_domains_consistency(perf_events: &[PowerEvent], power_zones: &PowerZoneHierarchy) -> (r:
    DomainConsistency)
    ensures
        r.perf_domains@ == distinct_in_name_order(
            perf_events@.map_values(|e: PowerEvent| e.domain),
            5,
        ),
        r.powercap_domains@ == distinct_in_name_order(
            power_zones.flat@.map_values(|z: crate::powercap::PowerZone| z.domain),
            5,
        ),
        r.consistent == (r.perf_domains@ == r.powercap_domains@),
        r.available@ == if r.perf_domains@.len() >= r.powercap_domains@.len() {
            r.perf_domains@
        } else {
            r.powercap_domains@
        },
{
    let mut perf: Vec<RaplDomainType> = Vec::new();
    let mut i: usize = 0;
    while i < perf_events.len()
        invariant
            i <= perf_events@.len(),
            perf@ =~= perf_events@.map_values(|e: PowerEvent| e.domain).take(i as int),
        decreases perf_events@.len() - i,
    {
        perf.push(perf_events[i].domain);
        i += 1;
    }
    assert(perf@ =~= perf_events@.map_values(|e: PowerEvent| e.domain));
    let mut zones: Vec<RaplDomainType> = Vec::new();
    let mut j: usize = 0;
    while j < power_zones.flat.len()
        invariant
            j <= power_zones.flat@.len(),
            zones@ =~= power_zones.flat@.map_values(|z: crate::powercap::PowerZone| z.domain).take(
                j as int,
            ),
        decreases power_zones.flat@.len() - j,
    {
        zones.push(power_zones.flat[j].domain);
        j += 1;
    }
    assert(zones@ =~= power_zones.flat@.map_values(|z: crate::powercap::PowerZone| z.domain));
    let perf_domains = distinct_domains(perf.as_slice());
    let powercap_domains = distinct_domains(zones.as_slice());
    let consistent = same_domains(perf_domains.as_slice(), powercap_domains.as_slice());
    let available = if perf_domains.len() >= powercap_domains.len() {
        perf_domains.clone()
    } else {
        powercap_domains.clone()
    };
    proof {
        assert(available@ =~= if perf_domains@.len() >= powercap_domains@.len() {
            perf_domains@
        } else {
            powercap_domains@
        });
    }
    DomainConsistency { perf_domains, powercap_domains, consistent, available }
}

} // verus!
