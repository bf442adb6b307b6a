//! Pre-built behavior trees for the kinds of creature, and what watching
//! each kind teaches.
//!
//! Tree thresholds are in hundredths: of the 0..1 scale for hunger, threat
//! and energy, and of a meter for detection ranges.
use vstd::prelude::*;
use crate::plugins::creature::behavior::{
    spec_evaluate, spec_selector, spec_sequence, BehaviorNode, BehaviorStatus, CreatureAction,
    CreatureCondition,
};
use crate::plugins::discovery::PhenomenonId;
use crate::plugins::ecosystem::SpeciesType;

verus! {

/// What a herbivore does: flee if threatened, else forage if hungry, else
/// rest if tired, else socialize near its flock, else wander.
pub open spec fn herbivore_choice(holds: spec_fn(CreatureCondition<u32>) -> bool) -> CreatureAction {
    if holds(CreatureCondition::Threatened(30)) {
        CreatureAction::FleeFrom
    } else if holds(CreatureCondition::Hungry(40)) {
        CreatureAction::Forage
    } else if holds(CreatureCondition::Tired(30)) {
        CreatureAction::Rest
    } else if holds(CreatureCondition::NearFlock(3000)) {
        CreatureAction::Socialize
    } else {
        CreatureAction::Wander
    }
}

/// What a carnivore does: hunt if hungry and near prey, else forage if
/// hungry, else rest if tired, else mark its territory. Marking territory
/// is an action that always runs, so the wandering after it is never chosen.
pub open spec fn carnivore_choice(holds: spec_fn(CreatureCondition<u32>) -> bool) -> CreatureAction {
    if holds(CreatureCondition::Hungry(30)) && holds(CreatureCondition::NearPrey(5000)) {
        CreatureAction::HuntPrey
    } else if holds(CreatureCondition::Hungry(50)) {
        CreatureAction::Forage
    } else if holds(CreatureCondition::Tired(30)) {
        CreatureAction::Rest
    } else {
        CreatureAction::MarkTerritory
    }
}

/// What a decomposer does: forage if hungry, else rest if tired, else wander.
pub open spec fn decomposer_choice(holds: spec_fn(CreatureCondition<u32>) -> bool) -> CreatureAction {
    if holds(CreatureCondition::Hungry(30)) {
        CreatureAction::Forage
    } else if holds(CreatureCondition::Tired(40)) {
        CreatureAction::Rest
    } else {
        CreatureAction::Wander
    }
}

/// The tree of each species type: omnivores use the herbivore tree, and
/// producers the decomposer tree (plants don't move much).
pub open spec fn species_choice(species_type: SpeciesType, holds: spec_fn(CreatureCondition<u32>) -> bool) -> CreatureAction {
    match species_type {
        SpeciesType::Herbivore => herbivore_choice(holds),
        SpeciesType::Carnivore => carnivore_choice(holds),
        SpeciesType::Omnivore => herbivore_choice(holds),
        SpeciesType::Decomposer => decomposer_choice(holds),
        SpeciesType::Producer => decomposer_choice(holds),
    }
}

/// A sequence of a condition then an action.
fn when(condition: CreatureCondition<u32>, action: CreatureAction) -> (r: BehaviorNode<u32>)
    ensures
        forall|holds: spec_fn(CreatureCondition<u32>) -> bool|
            #[trigger] spec_evaluate(r, holds) == if holds(condition) {
                (BehaviorStatus::Running, Some(action))
            } else {
                (BehaviorStatus::Failure, None)
            },
{
    let children = vec![BehaviorNode::Condition(condition), BehaviorNode::Action(action)];
    assert(children@ == seq![BehaviorNode::Condition(condition), BehaviorNode::Action(action)]);
    let r = BehaviorNode::Sequence(children);
    assert forall|holds: spec_fn(CreatureCondition<u32>) -> bool| #[trigger] spec_evaluate(r, holds) == if holds(condition) {
        (BehaviorStatus::Running, Some(action))
    } else {
        (BehaviorStatus::Failure, None)
    } by {
        assert(spec_evaluate(children@[0], holds) == (
            if holds(condition) {
                BehaviorStatus::Success
            } else {
                BehaviorStatus::Failure
            },
            None::<CreatureAction>,
        ));
        assert(spec_evaluate(children@[1], holds) == (BehaviorStatus::Running, Some(action)));
        assert(spec_sequence(children@, 1, holds) == (BehaviorStatus::Running, Some(action)));
        assert(spec_evaluate(r, holds) == spec_sequence(children@, 0, holds));
    }
    r
}

/// Behavior tree for herbivores: flee > forage > rest > socialize > wander
pub fn herbivore_behavior() -> (r: BehaviorNode<u32>)
    ensures
        forall|holds: spec_fn(CreatureCondition<u32>) -> bool|
            #[trigger] spec_evaluate(r, holds) == (BehaviorStatus::Running, Some(herbivore_choice(holds))),
{
    let flee = when(CreatureCondition::Threatened(30), CreatureAction::FleeFrom);
    let forage = when(CreatureCondition::Hungry(40), CreatureAction::Forage);
    let rest = when(CreatureCondition::Tired(30), CreatureAction::Rest);
    let socialize = when(CreatureCondition::NearFlock(3000), CreatureAction::Socialize);
    let ghost (f, g, h, k) = (flee, forage, rest, socialize);
    let children = vec![flee, forage, rest, socialize, BehaviorNode::Action(CreatureAction::Wander)];
    assert(children@ == seq![f, g, h, k, BehaviorNode::Action(CreatureAction::Wander)]);
    let r = BehaviorNode::Selector(children);
    assert forall|holds: spec_fn(CreatureCondition<u32>) -> bool| #[trigger] spec_evaluate(r, holds) == (
        BehaviorStatus::Running,
        Some(herbivore_choice(holds)),
    ) by {
        assert(spec_evaluate(f, holds) == spec_evaluate(children@[0], holds));
        assert(spec_evaluate(g, holds) == spec_evaluate(children@[1], holds));
        assert(spec_evaluate(h, holds) == spec_evaluate(children@[2], holds));
        assert(spec_evaluate(k, holds) == spec_evaluate(children@[3], holds));
        assert(spec_evaluate(children@[4], holds) == (BehaviorStatus::Running, Some(CreatureAction::Wander)));
        assert(spec_selector(children@, 4, holds) == (BehaviorStatus::Running, Some(CreatureAction::Wander)));
        assert(spec_selector(children@, 3, holds).0 == BehaviorStatus::Running);
        assert(spec_selector(children@, 2, holds).0 == BehaviorStatus::Running);
        assert(spec_selector(children@, 1, holds).0 == BehaviorStatus::Running);
        assert(spec_selector(children@, 0, holds) == (BehaviorStatus::Running, Some(herbivore_choice(holds))));
    }
    r
}

/// Behavior tree for carnivores: hunt > forage > rest > mark territory > wander
pub fn carnivore_behavior() -> (r: BehaviorNode<u32>)
    ensures
        forall|holds: spec_fn(CreatureCondition<u32>) -> bool|
            #[trigger] spec_evaluate(r, holds) == (BehaviorStatus::Running, Some(carnivore_choice(holds))),
{
    let hunt_steps = vec![
        BehaviorNode::Condition(CreatureCondition::Hungry(30)),
        BehaviorNode::Condition(CreatureCondition::NearPrey(5000)),
        BehaviorNode::Action(CreatureAction::HuntPrey),
    ];
    let ghost steps = hunt_steps@;
    assert(steps == seq![
        BehaviorNode::Condition(CreatureCondition::Hungry(30u32)),
        BehaviorNode::Condition(CreatureCondition::NearPrey(5000u32)),
        BehaviorNode::Action(CreatureAction::HuntPrey),
    ]);
    let hunt = BehaviorNode::Sequence(hunt_steps);
    let forage = when(CreatureCondition::Hungry(50), CreatureAction::Forage);
    let rest = when(CreatureCondition::Tired(30), CreatureAction::Rest);
    let ghost (f, g, h) = (hunt, forage, rest);
    let children = vec![
        hunt,
        forage,
        rest,
        BehaviorNode::Action(CreatureAction::MarkTerritory),
        BehaviorNode::Action(CreatureAction::Wander),
    ];
    assert(children@ == seq![
        f,
        g,
        h,
        BehaviorNode::Action(CreatureAction::MarkTerritory),
        BehaviorNode::Action(CreatureAction::Wander),
    ]);
    let r = BehaviorNode::Selector(children);
    assert forall|holds: spec_fn(CreatureCondition<u32>) -> bool| #[trigger] spec_evaluate(r, holds) == (
        BehaviorStatus::Running,
        Some(carnivore_choice(holds)),
    ) by {
        let hungry = holds(CreatureCondition::Hungry(30u32));
        let near = holds(CreatureCondition::NearPrey(5000u32));
        assert(spec_evaluate(steps[0], holds).0 == if hungry {
            BehaviorStatus::Success
        } else {
            BehaviorStatus::Failure
        });
        assert(spec_evaluate(steps[1], holds).0 == if near {
            BehaviorStatus::Success
        } else {
            BehaviorStatus::Failure
        });
        assert(spec_evaluate(steps[2], holds) == (BehaviorStatus::Running, Some(CreatureAction::HuntPrey)));
        assert(spec_sequence(steps, 2, holds) == (BehaviorStatus::Running, Some(CreatureAction::HuntPrey)));
        assert(spec_sequence(steps, 1, holds) == if near {
            (BehaviorStatus::Running, Some(CreatureAction::HuntPrey))
        } else {
            (BehaviorStatus::Failure, None)
        });
        assert(spec_sequence(steps, 0, holds) == if hungry && near {
            (BehaviorStatus::Running, Some(CreatureAction::HuntPrey))
        } else {
            (BehaviorStatus::Failure, None)
        });
        assert(spec_evaluate(f, holds) == spec_sequence(steps, 0, holds));
        assert(spec_evaluate(f, holds) == spec_evaluate(children@[0], holds));
        assert(spec_evaluate(g, holds) == spec_evaluate(children@[1], holds));
        assert(spec_evaluate(h, holds) == spec_evaluate(children@[2], holds));
        assert(spec_evaluate(children@[3], holds) == (BehaviorStatus::Running, Some(CreatureAction::MarkTerritory)));
        assert(spec_selector(children@, 3, holds) == (BehaviorStatus::Running, Some(CreatureAction::MarkTerritory)));
        assert(spec_selector(children@, 2, holds).0 == BehaviorStatus::Running);
        assert(spec_selector(children@, 1, holds).0 == BehaviorStatus::Running);
        assert(spec_selector(children@, 0, holds) == (BehaviorStatus::Running, Some(carnivore_choice(holds))));
    }
    r
}

/// Behavior tree for decomposers: forage > rest > wander (simple)
pub fn decomposer_behavior() -> (r: BehaviorNode<u32>)
    ensures
        forall|holds: spec_fn(CreatureCondition<u32>) -> bool|
            #[trigger] spec_evaluate(r, holds) == (BehaviorStatus::Running, Some(decomposer_choice(holds))),
{
    let forage = when(CreatureCondition::Hungry(30), CreatureAction::Forage);
    let rest = when(CreatureCondition::Tired(40), CreatureAction::Rest);
    let ghost (f, g) = (forage, rest);
    let children = vec![forage, rest, BehaviorNode::Action(CreatureAction::Wander)];
    assert(children@ == seq![f, g, BehaviorNode::Action(CreatureAction::Wander)]);
    let r = BehaviorNode::Selector(children);
    assert forall|holds: spec_fn(CreatureCondition<u32>) -> bool| #[trigger] spec_evaluate(r, holds) == (
        BehaviorStatus::Running,
        Some(decomposer_choice(holds)),
    ) by {
        assert(spec_evaluate(f, holds) == spec_evaluate(children@[0], holds));
        assert(spec_evaluate(g, holds) == spec_evaluate(children@[1], holds));
        assert(spec_evaluate(children@[2], holds) == (BehaviorStatus::Running, Some(CreatureAction::Wander)));
        assert(spec_selector(children@, 2, holds) == (BehaviorStatus::Running, Some(CreatureAction::Wander)));
        assert(spec_selector(children@, 1, holds).0 == BehaviorStatus::Running);
        assert(spec_selector(children@, 0, holds) == (BehaviorStatus::Running, Some(decomposer_choice(holds))));
    }
    r
}

/// Get the behavior tree for a species type
pub fn behavior_for_species(species_type: &SpeciesType) -> (r: BehaviorNode<u32>)
    ensures
        forall|holds: spec_fn(CreatureCondition<u32>) -> bool|
            #[trigger] spec_evaluate(r, holds) == (BehaviorStatus::Running, Some(
                species_choice(*species_type, holds),
            )),
{
    match species_type {
        SpeciesType::Herbivore => herbivore_behavior(),
        SpeciesType::Carnivore => carnivore_behavior(),
        SpeciesType::Omnivore => herbivore_behavior(),  // Uses herbivore tree with hunt capability
        SpeciesType::Decomposer => decomposer_behavior(),
        SpeciesType::Producer => decomposer_behavior(),  // Plants don't move much
    }
}

/// Map species type to the phenomenon that observing it teaches
pub fn observable_phenomenon(species_type: &SpeciesType) -> (r: Option<PhenomenonId>)
    ensures
        r == match *species_type {
            SpeciesType::Herbivore => Some(PhenomenonId(3)),
            SpeciesType::Carnivore => Some(PhenomenonId(1)),
            SpeciesType::Omnivore => Some(PhenomenonId(3)),
            SpeciesType::Producer => Some(PhenomenonId(3)),
            SpeciesType::Decomposer => None,
        },
{
    match species_type {
        SpeciesType::Herbivore => Some(PhenomenonId(3)),  // PlantGrowth (watching grazing)
        SpeciesType::Carnivore => Some(PhenomenonId(1)),  // Gravity (watching predator-prey chase)
        SpeciesType::Omnivore => Some(PhenomenonId(3)),
        SpeciesType::Producer => Some(PhenomenonId(3)),  // PlantGrowth
        SpeciesType::Decomposer => None,  // Not observable for discoveries
    }
}

/// Insight needed to discover a species' phenomenon by observation (higher
/// = harder to discover)
pub fn observation_threshold(species_type: &SpeciesType) -> (r: u32)
    ensures
        r == match *species_type {
            SpeciesType::Herbivore => 10u32,
            SpeciesType::Carnivore => 15u32,
            SpeciesType::Omnivore => 12u32,
            SpeciesType::Producer => 8u32,
            SpeciesType::Decomposer => 20u32,
        },
{
    match species_type {
        SpeciesType::Herbivore => 10,
        SpeciesType::Carnivore => 15,
        SpeciesType::Omnivore => 12,
        SpeciesType::Producer => 8,
        SpeciesType::Decomposer => 20,
    }
}

/// Law: the priorities of each kind of creature (thresholds in hundredths).
/// A herbivore flees when threatened (above 0.30), whatever else holds;
/// otherwise it forages when hungry (above 0.40), rests when tired (below
/// 0.30), socializes near its flock (30 m) and else wanders. A carnivore
/// hunts when hungry (above 0.30) with prey within 50 m, otherwise forages
/// when hungrier (above 0.50), rests when tired (below 0.30), and else marks
/// its territory: it never wanders. A decomposer forages when hungry (above
/// 0.30), rests when tired (below 0.40) and else wanders. Omnivores behave
/// as herbivores, producers as decomposers.
pub proof fn law_creature_priorities(holds: spec_fn(CreatureCondition<u32>) -> bool)
    ensures
        holds(CreatureCondition::Threatened(30)) ==> herbivore_choice(holds) == CreatureAction::FleeFrom,
        !holds(CreatureCondition::Threatened(30)) && holds(CreatureCondition::Hungry(40)) ==> herbivore_choice(holds)
            == CreatureAction::Forage,
        !holds(CreatureCondition::Threatened(30)) && !holds(CreatureCondition::Hungry(40)) && holds(
            CreatureCondition::Tired(30),
        ) ==> herbivore_choice(holds) == CreatureAction::Rest,
        !holds(CreatureCondition::Threatened(30)) && !holds(CreatureCondition::Hungry(40)) && !holds(
            CreatureCondition::Tired(30),
        ) && holds(CreatureCondition::NearFlock(3000)) ==> herbivore_choice(holds) == CreatureAction::Socialize,
        !holds(CreatureCondition::Threatened(30)) && !holds(CreatureCondition::Hungry(40)) && !holds(
            CreatureCondition::Tired(30),
        ) && !holds(CreatureCondition::NearFlock(3000)) ==> herbivore_choice(holds) == CreatureAction::Wander,
        holds(CreatureCondition::Hungry(30)) && holds(CreatureCondition::NearPrey(5000)) ==> carnivore_choice(holds)
            == CreatureAction::HuntPrey,
        !(holds(CreatureCondition::Hungry(30)) && holds(CreatureCondition::NearPrey(5000))) && holds(
            CreatureCondition::Hungry(50),
        ) ==> carnivore_choice(holds) == CreatureAction::Forage,
        !(holds(CreatureCondition::Hungry(30)) && holds(CreatureCondition::NearPrey(5000))) && !holds(
            CreatureCondition::Hungry(50),
        ) && holds(CreatureCondition::Tired(30)) ==> carnivore_choice(holds) == CreatureAction::Rest,
        !(holds(CreatureCondition::Hungry(30)) && holds(CreatureCondition::NearPrey(5000))) && !holds(
            CreatureCondition::Hungry(50),
        ) && !holds(CreatureCondition::Tired(30)) ==> carnivore_choice(holds) == CreatureAction::MarkTerritory,
        carnivore_choice(holds) != CreatureAction::Wander,
        holds(CreatureCondition::Hungry(30)) ==> decomposer_choice(holds) == CreatureAction::Forage,
        !holds(CreatureCondition::Hungry(30)) && holds(CreatureCondition::Tired(40)) ==> decomposer_choice(holds)
            == CreatureAction::Rest,
        !holds(CreatureCondition::Hungry(30)) && !holds(CreatureCondition::Tired(40)) ==> decomposer_choice(holds)
            == CreatureAction::Wander,
        species_choice(SpeciesType::Herbivore, holds) == herbivore_choice(holds),
        species_choice(SpeciesType::Omnivore, holds) == herbivore_choice(holds),
        species_choice(SpeciesType::Carnivore, holds) == carnivore_choice(holds),
        species_choice(SpeciesType::Decomposer, holds) == decomposer_choice(holds),
        species_choice(SpeciesType::Producer, holds) == decomposer_choice(holds),
{
}

} // verus!
