//! How many creatures of each species appear near the player in one
//! spawning tick.
use vstd::prelude::*;

verus! {

/// At most this many creatures appear in one tick.
pub const MAX_SPAWNS_PER_TICK: usize = 10;

/// How many creatures may appear this tick when `current` of at most
/// `max_creatures` exist: the room left, but no more than ten.
pub open spec fn spec_spawn_budget(max_creatures: usize, current: usize) -> nat {
    if current >= max_creatures {
        0
    } else if max_creatures - current < MAX_SPAWNS_PER_TICK {
        (max_creatures - current) as nat
    } else {
        MAX_SPAWNS_PER_TICK as nat
    }
}

/// How many creatures may appear this tick when `current` of at most
/// `max_creatures` exist; none once the limit is reached.
pub fn spawn_budget(max_creatures: usize, current: usize) -> (r: usize)
    ensures
        r == spec_spawn_budget(max_creatures, current),
        r <= 10,
        current >= max_creatures ==> r == 0,
        current < max_creatures ==> r <= max_creatures - current && (r == max_creatures - current || r == 10),
{
    if current >= max_creatures {
        0
    } else {
        let room = max_creatures - current;
        if room < MAX_SPAWNS_PER_TICK {
            room
        } else {
            MAX_SPAWNS_PER_TICK
        }
    }
}

/// Law: no more than ten creatures appear in a tick, and no more than the
/// room left under the limit; as many as both allow do.
pub proof fn law_spawn_budget(max_creatures: usize, current: usize)
    ensures
        spec_spawn_budget(max_creatures, current) <= 10,
        current >= max_creatures ==> spec_spawn_budget(max_creatures, current) == 0,
        current < max_creatures ==> spec_spawn_budget(max_creatures, current) <= max_creatures - current && (
        spec_spawn_budget(max_creatures, current) == max_creatures - current || spec_spawn_budget(
            max_creatures,
            current,
        ) == 10),
{
}

/// The creatures of each species, in turn, that appear out of `budget` when
/// `spent` have already appeared; `wants` holds, for each species, how many
/// should exist and how many do. A species short of its target gets what it
/// lacks, as far as the budget reaches; one at or over it gets none.
pub open spec fn planned_spawns(budget: nat, spent: nat, wants: Seq<(usize, usize)>) -> Seq<nat>
    decreases wants.len(),
{
    if wants.len() == 0 {
        Seq::empty()
    } else {
        let (target, existing) = wants[0];
        let c: nat = if spent >= budget || existing >= target {
            0
        } else if target - existing < budget - spent {
            (target - existing) as nat
        } else {
            (budget - spent) as nat
        };
        seq![c] + planned_spawns(budget, spent + c, wants.drop_first())
    }
}

/// The sum of a sequence of counts.
pub open spec fn total(s: Seq<nat>) -> nat
    decreases s.len(),
{
    if s.len() == 0 {
        0
    } else {
        s[0] + total(s.drop_first())
    }
}

/// Law: a plan never spends more than what is left of its budget, and no
/// species gets more than it lacks.
pub proof fn law_plan_within_budget(budget: nat, spent: nat, wants: Seq<(usize, usize)>)
    requires
        spent <= budget,
    ensures
        spent + total(planned_spawns(budget, spent, wants)) <= budget,
        planned_spawns(budget, spent, wants).len() == wants.len(),
        forall|i: int|
            0 <= i < wants.len() ==> #[trigger] planned_spawns(budget, spent, wants)[i] == 0 || wants[i].1 + planned_spawns(
                budget,
                spent,
                wants,
            )[i] <= wants[i].0,
    decreases wants.len(),
{
    if wants.len() > 0 {
        let (target, existing) = wants[0];
        let c: nat = if spent >= budget || existing >= target {
            0
        } else if target - existing < budget - spent {
            (target - existing) as nat
        } else {
            (budget - spent) as nat
        };
        law_plan_within_budget(budget, spent + c, wants.drop_first());
        let rest = planned_spawns(budget, spent + c, wants.drop_first());
        assert(planned_spawns(budget, spent, wants) == seq![c] + rest);
        assert((seq![c] + rest).drop_first() =~= rest);
        assert forall|i: int| 0 <= i < wants.len() implies #[trigger] planned_spawns(budget, spent, wants)[i]
            == 0 || wants[i].1 + planned_spawns(budget, spent, wants)[i] <= wants[i].0 by {
            if i > 0 {
                assert(planned_spawns(budget, spent, wants)[i] == rest[i - 1]);
                assert(wants[i] == wants.drop_first()[i - 1]);
            }
        }
    }
}

/// How many creatures of each species appear this tick, out of `budget`;
/// `wants` holds, for each species in turn, how many should exist and how
/// many do.
pub fn plan_spawns(budget: usize, wants: &Vec<(usize, usize)>) -> (r: Vec<usize>)
    ensures
        r@.len() == wants@.len(),
        forall|i: int| 0 <= i < r@.len() ==> r@[i] as nat == #[trigger] planned_spawns(budget as nat, 0, wants@)[i],
        sum_of(r@) <= budget,
        forall|i: int|
            0 <= i < r@.len() ==> #[trigger] r@[i] == if wants@[i].1 >= wants@[i].0 {
                0
            } else if wants@[i].0 - wants@[i].1 < budget - sum_of(r@.take(i)) {
                wants@[i].0 - wants@[i].1
            } else {
                budget - sum_of(r@.take(i))
            },
{
    let mut out: Vec<usize> = Vec::new();
    let mut spent: usize = 0;
    let mut i: usize = 0;
    let ghost plan = planned_spawns(budget as nat, 0, wants@);
    proof {
        assert(wants@.skip(0) =~= wants@);
        law_plan_within_budget(budget as nat, 0, wants@);
    }
    while i < wants.len()
        invariant
            i <= wants.len(),
            spent <= budget,
            out@.len() == i,
            plan == planned_spawns(budget as nat, 0, wants@),
            plan.len() == wants@.len(),
            forall|j: int| 0 <= j < i ==> out@[j] as nat == #[trigger] plan[j],
            plan.skip(i as int) == planned_spawns(budget as nat, spent as nat, wants@.skip(i as int)),
            spent == sum_of(out@),
            forall|j: int|
                0 <= j < i ==> #[trigger] out@[j] == if wants@[j].1 >= wants@[j].0 {
                    0
                } else if wants@[j].0 - wants@[j].1 < budget - sum_of(out@.take(j)) {
                    wants@[j].0 - wants@[j].1
                } else {
                    budget - sum_of(out@.take(j))
                },
        decreases wants.len() - i,
    {
        let (target, existing) = wants[i];
        let c: usize = if spent >= budget || existing >= target {
            0
        } else if target - existing < budget - spent {
            target - existing
        } else {
            budget - spent
        };
        proof {
            let w = wants@.skip(i as int);
            assert(w[0] == wants@[i as int]);
            assert(w.drop_first() =~= wants@.skip(i + 1));
            assert(plan.skip(i as int)[0] == plan[i as int]);
            assert(plan.skip(i as int).drop_first() =~= plan.skip(i + 1));
            assert((seq![c as nat] + planned_spawns(budget as nat, (spent + c) as nat, w.drop_first())).drop_first()
                =~= planned_spawns(budget as nat, (spent + c) as nat, w.drop_first()));
        }
        let ghost before = out@;
        out.push(c);
        proof {
            assert(out@.drop_last() =~= before);
            assert(out@.take(i as int) =~= before);
            assert forall|j: int| 0 <= j < i implies out@.take(j) =~= before.take(j) by {}
        }
        spent = spent + c;
        i = i + 1;
    }
    out
}

/// The sum of a sequence of counts.
pub open spec fn sum_of(s: Seq<usize>) -> int
    decreases s.len(),
{
    if s.len() == 0 {
        0
    } else {
        sum_of(s.drop_last()) + s.last()
    }
}

} // verus!
