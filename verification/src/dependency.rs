//! Dependency declarations between services: the target's name and the
//! condition the target must meet before the dependent may start.

use vstd::prelude::*;

verus! {

/// The state a dependency target must reach: `Started` is met by any live
/// state, `Healthy` only by an affirmative health signal.
#[derive(Debug, Clone, Copy, PartialEq, Eq, Structural, Hash)]
pub enum DependencyCondition {
    Started,
    Healthy,
}

/// A single dependency declaration: either a bare service name (condition
/// defaults to `Started`) or a name with an explicit condition.
#[derive(Debug, Clone, PartialEq, Eq, Hash)]
pub enum Dependency {
    Simple(String),
    WithCondition { service: String, condition: DependencyCondition },
}

impl Dependency {
    /// The target service's name.
    pub open spec fn spec_service(self) -> Seq<char> {
        match self {
            Dependency::Simple(name) => name@,
            Dependency::WithCondition { service, .. } => service@,
        }
    }

    /// The declared condition; a bare name means `Started`.
    pub open spec fn spec_condition(self) -> DependencyCondition {
        match self {
            Dependency::Simple(_) => DependencyCondition::Started,
            Dependency::WithCondition { condition, .. } => condition,
        }
    }

    /// Get the service name this dependency refers to.
    pub fn service_name(&self) -> (r: &str)
        ensures
            r@ == self.spec_service(),
    {
        match self {
            Dependency::Simple(name) => name.as_str(),
            Dependency::WithCondition { service, .. } => service.as_str(),
        }
    }

    /// An equal copy of this declaration.
    pub fn duplicate(&self) -> (r: Dependency)
        ensures
            r == *self,
    {
        match self {
            Dependency::Simple(name) => Dependency::Simple(name.clone()),
            Dependency::WithCondition { service, condition } => Dependency::WithCondition {
                service: service.clone(),
                condition: *condition,
            },
        }
    }

    /// Get the condition required for this dependency (defaults to Started).
    pub fn condition(&self) -> (c: DependencyCondition)
        ensures
            c == self.spec_condition(),
    {
        match self {
            Dependency::Simple(_) => DependencyCondition::Started,
            Dependency::WithCondition { condition, .. } => *condition,
        }
    }
}

} // verus!
