use vstd::prelude::*;
use crate::structure::time::Duration;

verus! {

/// Whether a writer waits for its readers to acknowledge what it sends.
#[derive(PartialEq, Eq, Structural, Clone, Copy, Debug)]
pub enum Reliability {
    BestEffort,
    Reliable { max_blocking_time: Duration },
}

/// How much of its history a writer keeps.
#[derive(PartialEq, Eq, Structural, Clone, Copy, Debug)]
pub enum History {
    KeepLast { depth: i32 },
    KeepAll,
}

/// The quality-of-service policies that the endpoint core reads.
#[derive(PartialEq, Eq, Structural, Clone, Copy, Debug)]
pub struct QosPolicies {
    pub reliability: Option<Reliability>,
    pub history: Option<History>,
}

impl QosPolicies {
    /// Whether the policies ask for reliable delivery.
    pub open spec fn spec_is_reliable(&self) -> bool {
        self.reliability matches Some(Reliability::Reliable { .. })
    }

    /// Policies that set nothing.
    pub fn qos_none() -> (r: QosPolicies)
        ensures
            r == (QosPolicies { reliability: None, history: None }),
    {
        QosPolicies { reliability: None, history: None }
    }

    /// Whether the policies ask for reliable delivery.
    #[verifier::when_used_as_spec(spec_is_reliable)]
    pub fn is_reliable(&self) -> (r: bool)
        ensures
            r == self.spec_is_reliable(),
    {
        match self.reliability {
            Some(Reliability::Reliable { max_blocking_time: _ }) => true,
            _ => false,
        }
    }
}

} // verus!
