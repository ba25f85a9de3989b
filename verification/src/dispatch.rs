use crate::cabin::{distance, CabinView, ElevatorState, Fahrkabine};
use vstd::prelude::*;

verus! {

/// The models of a row of cabins.
pub open spec fn cabin_views(cabins: Seq<Fahrkabine>) -> Seq<CabinView> {
    Seq::new(cabins.len(), |i: int| cabins[i]@)
}

/// A moving cabin has `floor` ahead of it in its direction of travel.
pub open spec fn moving_towards(c: CabinView, floor: i32) -> bool {
    c.motion == ElevatorState::Moving && ((c.floor < floor && c.floor < c.heading) || (c.floor
        > floor && c.floor > c.heading))
}

/// What it costs to send cabin `c` to a call at `floor`. A full cabin and
/// one that moves away from the call are not to be sent now: `None`. For the
/// others the distance decides, and at equal distance an idle cabin comes
/// before one that is busy.
pub open spec fn cost(c: CabinView, floor: i32) -> Option<int> {
    if c.is_full() {
        None
    } else if c.motion == ElevatorState::Moving && !moving_towards(c, floor) {
        None
    } else {
        Some(
            2 * distance(c.floor, floor) + if c.motion == ElevatorState::Idle {
                0int
            } else {
                1int
            },
        )
    }
}

/// Cabin `i` is no worse a choice than cabin `j`: `j` is not to be sent, or
/// costs more, or costs the same and does not stand before `i` in the row.
pub open spec fn no_worse(cabins: Seq<CabinView>, floor: i32, i: int, j: int) -> bool {
    match (cost(cabins[i], floor), cost(cabins[j], floor)) {
        (Some(ci), Some(cj)) => ci < cj || (ci == cj && i <= j),
        (Some(_), None) => true,
        (None, _) => false,
    }
}

/// Cabin `i` is the one to send to `floor`: it can be sent, and no cabin
/// costs less, nor the same with a smaller index.
pub open spec fn is_best(cabins: Seq<CabinView>, floor: i32, i: int) -> bool {
    &&& 0 <= i < cabins.len()
    &&& cost(cabins[i], floor) is Some
    &&& forall|j: int| 0 <= j < cabins.len() ==> #[trigger] no_worse(cabins, floor, i, j)
}

/// The cabin to send to `floor`, if any can be sent.
pub open spec fn select(cabins: Seq<CabinView>, floor: i32) -> Option<int> {
    if exists|i: int| is_best(cabins, floor, i) {
        Some(choose|i: int| is_best(cabins, floor, i))
    } else {
        None
    }
}

/// At most one cabin is the one to send.
pub proof fn lemma_best_unique(cabins: Seq<CabinView>, floor: i32, i: int, j: int)
    requires
        is_best(cabins, floor, i),
        is_best(cabins, floor, j),
    ensures
        i == j,
{
    assert(no_worse(cabins, floor, i, j));
    assert(no_worse(cabins, floor, j, i));
}

/// Among the first `n` cabins, if one can be sent, one of them is no worse
/// than all of them.
proof fn lemma_best_in_prefix(cabins: Seq<CabinView>, floor: i32, n: int) -> (b: int)
    requires
        0 <= n <= cabins.len(),
        exists|k: int| 0 <= k < n && cost(#[trigger] cabins[k], floor) is Some,
    ensures
        0 <= b < n,
        cost(cabins[b], floor) is Some,
        forall|j: int| 0 <= j < n ==> #[trigger] no_worse(cabins, floor, b, j),
    decreases n,
{
    let last = n - 1;
    if exists|k: int| 0 <= k < last && cost(#[trigger] cabins[k], floor) is Some {
        let b = lemma_best_in_prefix(cabins, floor, last);
        if no_worse(cabins, floor, b, last) {
            b
        } else {
            assert forall|j: int| 0 <= j < n implies #[trigger] no_worse(cabins, floor, last, j) by {
                if j < last {
                    assert(no_worse(cabins, floor, b, j));
                }
            }
            last
        }
    } else {
        assert(cost(cabins[last], floor) is Some);
        last
    }
}

/// `select` names the one cabin to send, and names none exactly when no
/// cabin can be sent.
pub proof fn lemma_select(cabins: Seq<CabinView>, floor: i32)
    ensures
        match select(cabins, floor) {
            Some(i) => is_best(cabins, floor, i),
            None => forall|j: int| 0 <= j < cabins.len() ==> cost(#[trigger] cabins[j], floor) is None,
        },
{
    if select(cabins, floor) is None {
        if exists|k: int| 0 <= k < cabins.len() && cost(#[trigger] cabins[k], floor) is Some {
            let b = lemma_best_in_prefix(cabins, floor, cabins.len() as int);
            assert(is_best(cabins, floor, b));
        }
    }
}

/// Of two idle cabins with room, the one nearer to the call is selected,
/// wherever it stands in the row.
pub proof fn lemma_nearer_idle_cabin(near: CabinView, far: CabinView, floor: i32)
    requires
        near.motion == ElevatorState::Idle,
        far.motion == ElevatorState::Idle,
        !near.is_full(),
        !far.is_full(),
        distance(near.floor, floor) < distance(far.floor, floor),
    ensures
        select(seq![near, far], floor) == Some(0int),
        select(seq![far, near], floor) == Some(1int),
{
    let a = seq![near, far];
    let b = seq![far, near];
    assert forall|j: int| 0 <= j < a.len() implies #[trigger] no_worse(a, floor, 0, j) by {
        if j != 0 {
            assert(j == 1);
        }
    }
    assert(is_best(a, floor, 0));
    assert forall|j: int| 0 <= j < b.len() implies #[trigger] no_worse(b, floor, 1, j) by {
        if j != 0 {
            assert(j == 1);
        }
    }
    assert(is_best(b, floor, 1));
    lemma_select(a, floor);
    lemma_select(b, floor);
    lemma_best_unique(a, floor, 0, select(a, floor)->0);
    lemma_best_unique(b, floor, 1, select(b, floor)->0);
}

/// Computes what it costs to send `cabin` to a call at `floor`, as `cost`
/// defines it; `None` for a cabin that is not to be sent now.
pub fn cabin_cost(cabin: &Fahrkabine, floor: i32) -> (r: Option<u64>)
    ensures
        match r {
            Some(c) => cost(cabin@, floor) == Some(c as int),
            None => cost(cabin@, floor) is None,
        },
{
    if cabin.is_full() {
        return None;
    }
    let here = cabin.current_floor();
    let state = cabin.state();
    if state == ElevatorState::Moving {
        let heading = cabin.heading();
        let towards = (here < floor && here < heading) || (here > floor && here > heading);
        if !towards {
            return None;
        }
    }
    let a: i64 = here as i64;
    let b: i64 = floor as i64;
    let d: i64 = if a >= b {
        a - b
    } else {
        b - a
    };
    let penalty: i64 = if state == ElevatorState::Idle {
        0
    } else {
        1
    };
    Some((2 * d + penalty) as u64)
}

/// Chooses the cabin to send to a call at `floor`: the nearest one that can
/// be sent, an idle one before a busy one at the same distance, the first
/// in the row among equals. `None` exactly when every cabin is full or moves
/// away from the call.
pub fn select_cabin(cabins: &Vec<Fahrkabine>, floor: i32) -> (r: Option<usize>)
    ensures
        match r {
            Some(i) => is_best(cabin_views(cabins@), floor, i as int),
            None => forall|j: int|
                0 <= j < cabins.len() ==> cost(#[trigger] cabin_views(cabins@)[j], floor) is None,
        },
        match r {
            Some(i) => select(cabin_views(cabins@), floor) == Some(i as int),
            None => select(cabin_views(cabins@), floor) is None,
        },
{
    let ghost views = cabin_views(cabins@);
    let mut best: Option<usize> = None;
    let mut best_cost: u64 = 0;
    let mut i: usize = 0;
    while i < cabins.len()
        invariant
            i <= cabins.len(),
            views == cabin_views(cabins@),
            match best {
                Some(b) => b < i && cost(views[b as int], floor) == Some(best_cost as int)
                    && forall|j: int| 0 <= j < i ==> #[trigger] no_worse(views, floor, b as int, j),
                None => forall|j: int| 0 <= j < i ==> cost(#[trigger] views[j], floor) is None,
            },
        decreases cabins.len() - i,
    {
        let c = cabin_cost(&cabins[i], floor);
        assert(views[i as int] == cabins[i as int]@);
        match c {
            Some(ci) => {
                let take = match best {
                    Some(_) => ci < best_cost,
                    None => true,
                };
                if take {
                    proof {
                        assert forall|j: int| 0 <= j < i + 1 implies #[trigger] no_worse(
                            views,
                            floor,
                            i as int,
                            j,
                        ) by {
                            if j < i {
                                if let Some(b) = best {
                                    assert(no_worse(views, floor, b as int, j));
                                }
                            }
                        }
                    }
                    best = Some(i);
                    best_cost = ci;
                }
            },
            None => {},
        }
        i += 1;
    }
    proof {
        lemma_select(views, floor);
        match best {
            Some(b) => {
                assert(is_best(views, floor, b as int));
                lemma_best_unique(views, floor, b as int, select(views, floor)->0);
            },
            None => {
                if select(views, floor) is Some {
                    let s = select(views, floor)->0;
                    assert(cost(views[s], floor) is None);
                }
            },
        }
    }
    best
}

} // verus!
