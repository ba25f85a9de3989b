use crate::passenger::Direction;
use vstd::prelude::*;

verus! {

/// A pending call for service at a floor.
#[derive(Debug, PartialEq, Eq, Clone, Copy, Structural)]
pub struct FloorRequest {
    pub floor: i32,
    pub direction: Direction,
    /// When the call was made, by the controller's clock; no two calls share it.
    pub time: u64,
}

/// The calls stand in the order in which they were made.
pub open spec fn ledger_sorted(ledger: Seq<FloorRequest>) -> bool {
    forall|k: int, l: int| 0 <= k < l < ledger.len() ==> ledger[k].time < ledger[l].time
}

/// A call made at `ticket` is pending.
pub open spec fn has_ticket(ledger: Seq<FloorRequest>, ticket: u64) -> bool {
    exists|k: int| 0 <= k < ledger.len() && #[trigger] ledger[k].time == ticket
}

/// Where the call made at `ticket` stands in the ledger.
pub open spec fn ticket_position(ledger: Seq<FloorRequest>, ticket: u64) -> int {
    choose|k: int| 0 <= k < ledger.len() && #[trigger] ledger[k].time == ticket
}

/// Finds the call made at `ticket`, if it is pending.
pub(crate) fn find_ticket(ledger: &Vec<FloorRequest>, ticket: u64) -> (r: Option<usize>)
    requires
        ledger_sorted(ledger@),
    ensures
        match r {
            Some(k) => has_ticket(ledger@, ticket) && k as int == ticket_position(ledger@, ticket),
            None => !has_ticket(ledger@, ticket),
        },
{
    let mut k: usize = 0;
    while k < ledger.len()
        invariant
            k <= ledger.len(),
            ledger_sorted(ledger@),
            forall|j: int| 0 <= j < k ==> (#[trigger] ledger@[j]).time != ticket,
        decreases ledger.len() - k,
    {
        if ledger[k].time == ticket {
            proof {
                let at = ticket_position(ledger@, ticket);
                assert(ledger@[k as int].time == ticket);
                assert(ledger@[at].time == ticket);
                if at != k {
                    if at < k {
                        assert(ledger@[at].time < ledger@[k as int].time);
                    } else {
                        assert(ledger@[k as int].time < ledger@[at].time);
                    }
                }
            }
            return Some(k);
        }
        k += 1;
    }
    None
}

} // verus!
