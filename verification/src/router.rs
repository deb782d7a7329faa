//! The dispatch router: round-robin assignment of records to worker lanes.

use vstd::arithmetic::div_mod::{
    lemma_fundamental_div_mod, lemma_mod_multiples_vanish, lemma_small_mod,
};
use vstd::arithmetic::mul::{lemma_mul_inequality, lemma_mul_strict_inequality};
use vstd::prelude::*;

verus! {

/// The lane after `cursor` among `lanes` lanes: the next one, and the first
/// one again after the last.
pub open spec fn next_lane(lanes: nat, cursor: nat) -> nat {
    if cursor + 1 >= lanes {
        0
    } else {
        cursor + 1
    }
}

/// The lane that the dispatch at position `k` (counted from 0) goes to, for a
/// router whose cursor stood at `start` before the first of them.
pub open spec fn lane_at(lanes: nat, start: nat, k: nat) -> nat
    decreases k,
{
    if k == 0 {
        start
    } else {
        next_lane(lanes, lane_at(lanes, start, (k - 1) as nat))
    }
}

/// What lane `lane` receives when a fresh router dispatches `records` in
/// order: the records whose dispatch goes to that lane, in their order.
pub open spec fn lane_share<T>(records: Seq<T>, lanes: nat, lane: nat) -> Seq<T>
    decreases records.len(),
{
    if records.len() == 0 {
        Seq::<T>::empty()
    } else if lane_at(lanes, 0, (records.len() - 1) as nat) == lane {
        lane_share(records.drop_last(), lanes, lane).push(records.last())
    } else {
        lane_share(records.drop_last(), lanes, lane)
    }
}

/// The position of the `k`-th record (counted from 0) that lane `lane`
/// receives under round robin.
pub open spec fn position(lanes: nat, lane: nat, k: nat) -> nat {
    lane + k * lanes
}

/// A fixed number of lanes and the cursor that says which lane is next.
pub struct Router {
    lanes: usize,
    cursor: usize,
}

impl Router {
    #[verifier::type_invariant]
    spec fn well_formed(self) -> bool {
        self.cursor < self.lanes
    }

    /// The number of lanes.
    pub closed spec fn lanes(self) -> nat {
        self.lanes as nat
    }

    /// The lane that the next dispatch goes to.
    pub closed spec fn cursor(self) -> nat {
        self.cursor as nat
    }

    /// A router over `lanes` lanes with its cursor on the first, or `None`
    /// where there is no lane to dispatch to.
    pub fn new(lanes: usize) -> (router: Option<Router>)
        ensures
            match router {
                Some(r) => lanes > 0 && r.lanes() == lanes && r.cursor() == 0,
                None => lanes == 0,
            },
    {
        if lanes == 0 {
            None
        } else {
            Some(Router { lanes, cursor: 0 })
        }
    }

    /// The number of lanes.
    pub fn lane_count(&self) -> (n: usize)
        ensures
            n == self.lanes(),
            n > 0,
    {
        proof {
            use_type_invariant(self);
        }
        self.lanes
    }

    /// Assigns the next record: returns the lane under the cursor and moves
    /// the cursor on by one lane, around to the first after the last.
    pub fn dispatch(&mut self) -> (lane: usize)
        ensures
            lane == old(self).cursor(),
            lane < old(self).lanes(),
            final(self).lanes() == old(self).lanes(),
            final(self).cursor() == next_lane(old(self).lanes(), old(self).cursor()),
    {
        proof {
            use_type_invariant(&*self);
        }
        let lane = self.cursor;
        if lane + 1 >= self.lanes {
            self.cursor = 0;
        } else {
            self.cursor = lane + 1;
        }
        lane
    }
}

/// Round robin: with the cursor at `start`, the dispatch at position `k`
/// goes to lane `(start + k) mod lanes`.
pub proof fn lemma_round_robin(lanes: nat, start: nat, k: nat)
    requires
        start < lanes,
    ensures
        lane_at(lanes, start, k) == (start + k) % lanes,
    decreases k,
{
    if k == 0 {
        assert(start % lanes == start) by (nonlinear_arith)
            requires
                start < lanes,
        ;
    } else {
        lemma_round_robin(lanes, start, (k - 1) as nat);
        let before = ((start + k - 1) as nat) % lanes;
        assert(0 <= before < lanes && (if before + 1 >= lanes {
            0
        } else {
            before + 1
        }) == (start + k) % lanes) by (nonlinear_arith)
            requires
                lanes > 0,
                start + k >= 1,
                before == ((start + k - 1) as nat) % lanes,
        ;
    }
}

/// What each lane receives: of the records that a fresh router dispatches in
/// order, lane `lane` gets those at the positions `lane`, `lane + lanes`,
/// `lane + 2 * lanes` and so on, as far as there are records, in that order,
/// and no others.
pub proof fn lemma_lane_share<T>(records: Seq<T>, lanes: nat, lane: nat)
    requires
        lane < lanes,
    ensures
        forall|k: nat|
            k < lane_share(records, lanes, lane).len() <==> #[trigger] position(lanes, lane, k)
                < records.len(),
        forall|k: nat|
            k < lane_share(records, lanes, lane).len() ==> lane_share(records, lanes, lane)[k as int]
                == records[#[trigger] position(lanes, lane, k) as int],
    decreases records.len(),
{
    let share = lane_share(records, lanes, lane);
    if records.len() > 0 {
        let before = records.drop_last();
        let last = (records.len() - 1) as nat;
        let earlier = lane_share(before, lanes, lane);
        lemma_lane_share(before, lanes, lane);
        lemma_round_robin(lanes, 0, last);
        if last % lanes == lane {
            let q = last / lanes;
            lemma_fundamental_div_mod(last as int, lanes as int);
            assert(position(lanes, lane, q) == last) by (nonlinear_arith)
                requires
                    last == lanes * q + lane,
                    position(lanes, lane, q) == lane + q * lanes,
            ;
            let n = earlier.len();
            if n < q {
                lemma_mul_strict_inequality(n as int, q as int, lanes as int);
                assert(position(lanes, lane, n) < before.len());
            }
            assert forall|k: nat|
                k < share.len() <==> #[trigger] position(lanes, lane, k) < records.len() by {
                if k <= q {
                    lemma_mul_inequality(k as int, q as int, lanes as int);
                } else {
                    lemma_mul_strict_inequality(q as int, k as int, lanes as int);
                }
            }
        } else {
            assert forall|k: nat|
                k < share.len() <==> #[trigger] position(lanes, lane, k) < records.len() by {
                lemma_mod_multiples_vanish(k as int, lane as int, lanes as int);
                lemma_small_mod(lane, lanes);
                assert(lanes * k + lane == position(lanes, lane, k)) by (nonlinear_arith)
                    requires
                        position(lanes, lane, k) == lane + k * lanes,
                ;
            }
        }
    }
}

} // verus!
