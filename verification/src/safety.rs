//! Safety analysis of a service failure: how far it would spread.

use crate::dag::DependencyGraph;
use vstd::prelude::*;

verus! {

/// Analysis of safety impact for a service failure.
#[derive(Debug, Clone, PartialEq, Eq)]
pub struct SafetyImpact {
    pub service: String,
    pub is_critical: bool,
    pub dependents_count: usize,
    pub would_trigger_emergency: bool,
    pub dependents: Vec<String>,
}

impl SafetyImpact {
    /// An impact record for a service nothing depends on.
    pub fn new(service: String) -> (r: SafetyImpact)
        ensures
            r.service == service,
            !r.is_critical,
            r.dependents_count == 0,
            !r.would_trigger_emergency,
            r.dependents@.len() == 0,
    {
        SafetyImpact {
            service,
            is_critical: false,
            dependents_count: 0,
            would_trigger_emergency: false,
            dependents: Vec::new(),
        }
    }
}

/// What stopping would spread to if `service` failed: its transitive
/// dependents, with the critical flag deciding whether the whole
/// workspace would be brought down.
pub fn analyze_safety_impact(
    dag: &DependencyGraph,
    service: &str,
    is_critical: bool,
) -> (r: SafetyImpact)
    requires
        dag.wf(),
    ensures
        r.service@ == service@,
        r.is_critical == is_critical,
        r.would_trigger_emergency == is_critical,
        r.dependents_count == r.dependents@.len(),
        crate::orchestrator::spec_cascade_result(*dag, service@, r.dependents@),
{
    let dependents = dag.cascade_failure(service);
    let count = dependents.len();
    SafetyImpact {
        service: service.to_owned(),
        is_critical,
        dependents_count: count,
        would_trigger_emergency: is_critical,
        dependents,
    }
}

} // verus!
