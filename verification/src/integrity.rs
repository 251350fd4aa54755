//! Mandatory integrity levels.

use core::cmp::Ordering;
use vstd::prelude::*;

verus! {

/// Mandatory integrity levels, ordered low → high.
#[derive(Clone, Copy, Debug, PartialEq, Eq, Ord, Structural)]
pub enum IntegrityLevel {
    /// Lowest integrity — sandboxed processes.
    Untrusted,
    /// Low integrity — the AppContainer / protected-mode browser tier.
    Low,
    /// Medium integrity — the default interactive-user tier.
    Medium,
    /// High integrity — elevated / administrator tier.
    High,
    /// System integrity — kernel / `SYSTEM` tier.
    System,
}

impl IntegrityLevel {
    /// The position of the level in the order, counted from the lowest.
    pub open spec fn rank(self) -> int {
        match self {
            IntegrityLevel::Untrusted => 0,
            IntegrityLevel::Low => 1,
            IntegrityLevel::Medium => 2,
            IntegrityLevel::High => 3,
            IntegrityLevel::System => 4,
        }
    }

    fn position(&self) -> (n: u8)
        ensures
            n == self.rank(),
    {
        match self {
            IntegrityLevel::Untrusted => 0,
            IntegrityLevel::Low => 1,
            IntegrityLevel::Medium => 2,
            IntegrityLevel::High => 3,
            IntegrityLevel::System => 4,
        }
    }
}

impl PartialOrd for IntegrityLevel {
    fn partial_cmp(&self, other: &Self) -> (order: Option<Ordering>) {
        let a: u8 = self.position();
        let b: u8 = other.position();
        if a < b {
            Some(Ordering::Less)
        } else if a == b {
            Some(Ordering::Equal)
        } else {
            Some(Ordering::Greater)
        }
    }
}

impl vstd::std_specs::cmp::PartialOrdSpecImpl for IntegrityLevel {
    open spec fn obeys_partial_cmp_spec() -> bool {
        true
    }

    open spec fn partial_cmp_spec(&self, other: &Self) -> Option<Ordering> {
        if self.rank() < other.rank() {
            Some(Ordering::Less)
        } else if self.rank() == other.rank() {
            Some(Ordering::Equal)
        } else {
            Some(Ordering::Greater)
        }
    }
}

impl IntegrityLevel {
    /// The levels rise from `Untrusted` over `Low`, `Medium` and `High` to
    /// `System`.
    pub proof fn levels_rise()
        ensures
            IntegrityLevel::Untrusted.rank() < IntegrityLevel::Low.rank()
                < IntegrityLevel::Medium.rank() < IntegrityLevel::High.rank()
                < IntegrityLevel::System.rank(),
    {
    }

    /// `<` says of every two levels which one stands first in the row
    /// `Untrusted`, `Low`, `Medium`, `High`, `System`; a level is equal to
    /// itself only.
    pub proof fn comparison_follows_the_row(self, other: IntegrityLevel)
        ensures
            vstd::std_specs::cmp::PartialOrdSpec::partial_cmp_spec(&self, &other) == Some(
                Ordering::Equal,
            ) <==> self == other,
            vstd::std_specs::cmp::PartialOrdSpec::partial_cmp_spec(&self, &other) == Some(
                Ordering::Less,
            ) <==> match (self, other) {
                (_, IntegrityLevel::Untrusted) => false,
                (IntegrityLevel::Untrusted, _) => true,
                (_, IntegrityLevel::Low) => false,
                (IntegrityLevel::Low, _) => true,
                (_, IntegrityLevel::Medium) => false,
                (IntegrityLevel::Medium, _) => true,
                (a, b) => a == IntegrityLevel::High && b == IntegrityLevel::System,
            },
            vstd::std_specs::cmp::PartialOrdSpec::partial_cmp_spec(&self, &other) == Some(
                Ordering::Greater,
            ) <==> vstd::std_specs::cmp::PartialOrdSpec::partial_cmp_spec(&other, &self) == Some(
                Ordering::Less,
            ),
    {
    }
}

} // verus!
