//! The lifecycle of a grant allocation.

use vstd::prelude::*;

verus! {

/// Where a grant allocation stands in its lifecycle.
///
/// An allocation that is approved is disbursed when its grantee withdraws
/// it. `Pending` and `Expired` are kept for an allocation that waits to be
/// approved, and for one that was not withdrawn in time: nothing puts an
/// allocation there yet.
#[derive(Clone, Copy, Debug, PartialEq, Eq, Structural)]
pub enum AllocationStatus {
    Pending,
    Approved,
    Disbursed,
    Expired,
}

impl AllocationStatus {
    /// A terminal status admits no further transition.
    pub open spec fn is_terminal(self) -> bool {
        self is Disbursed || self is Expired
    }

    /// Whether the lifecycle lets an allocation pass from `self` to `next`:
    /// from pending to approved, and from approved to disbursed or expired.
    pub open spec fn leads_to(self, next: AllocationStatus) -> bool {
        ||| self is Pending && next is Approved
        ||| self is Approved && next is Disbursed
        ||| self is Approved && next is Expired
    }

    /// Reports whether the allocation has reached a terminal status.
    pub fn terminal(self) -> (r: bool)
        ensures
            r == self.is_terminal(),
    {
        match self {
            AllocationStatus::Disbursed | AllocationStatus::Expired => true,
            _ => false,
        }
    }

    /// Reports whether the lifecycle lets an allocation pass from `self` to `next`.
    pub fn can_become(self, next: AllocationStatus) -> (r: bool)
        ensures
            r == self.leads_to(next),
    {
        match (self, next) {
            (AllocationStatus::Pending, AllocationStatus::Approved) => true,
            (AllocationStatus::Approved, AllocationStatus::Disbursed) => true,
            (AllocationStatus::Approved, AllocationStatus::Expired) => true,
            _ => false,
        }
    }
}

/// A status is terminal exactly when it leads nowhere.
pub proof fn law_terminal_leads_nowhere(status: AllocationStatus)
    ensures
        status.is_terminal() <==> forall|next: AllocationStatus| !status.leads_to(next),
{
    if !status.is_terminal() {
        if status is Pending {
            assert(status.leads_to(AllocationStatus::Approved));
        } else {
            assert(status.leads_to(AllocationStatus::Disbursed));
        }
    }
}

} // verus!
