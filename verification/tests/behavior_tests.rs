use genesis_engine::plugins::creature::behavior::{
    evaluate, BehaviorNode, BehaviorStatus, CreatureAction, CreatureCondition,
};
use genesis_engine::plugins::creature::species::{
    behavior_for_species, carnivore_behavior, decomposer_behavior, herbivore_behavior,
};
use genesis_engine::plugins::ecosystem::SpeciesType;

/// The creature's state that conditions are checked against.
struct BehaviorContext {
    hunger: f32,
    energy: f32,
    threat_level: f32,
    near_prey: bool,
    near_flock: bool,
    prey_distance: f32,
    flock_distance: f32,
}

fn holds(ctx: &BehaviorContext, condition: &CreatureCondition<f32>) -> bool {
    match condition {
        CreatureCondition::Hungry(threshold) => ctx.hunger > *threshold,
        CreatureCondition::Threatened(threshold) => ctx.threat_level > *threshold,
        CreatureCondition::NearPrey(range) => ctx.near_prey && ctx.prey_distance < *range,
        CreatureCondition::Tired(threshold) => ctx.energy < *threshold,
        CreatureCondition::NearFlock(range) => ctx.near_flock && ctx.flock_distance < *range,
        CreatureCondition::TimeOfDay(_, _) => true,
    }
}

fn calm() -> BehaviorContext {
    BehaviorContext {
        hunger: 0.0,
        energy: 1.0,
        threat_level: 0.0,
        near_prey: false,
        near_flock: false,
        prey_distance: 100.0,
        flock_distance: 100.0,
    }
}

#[test]
fn test_selector_picks_first_success() {
    let tree = BehaviorNode::Selector(vec![
        BehaviorNode::Sequence(vec![
            BehaviorNode::Condition(CreatureCondition::Hungry(0.5)),
            BehaviorNode::Action(CreatureAction::Forage),
        ]),
        BehaviorNode::Action(CreatureAction::Wander),
    ]);

    let ctx = BehaviorContext {
        hunger: 0.8,
        energy: 1.0,
        threat_level: 0.0,
        near_prey: false,
        near_flock: false,
        prey_distance: 100.0,
        flock_distance: 100.0,
    };

    let (status, action) = evaluate(&tree, &|c: &CreatureCondition<f32>| holds(&ctx, c));
    assert_eq!(status, BehaviorStatus::Running);
    assert!(matches!(action, Some(CreatureAction::Forage)));
}

#[test]
fn selector_falls_through_to_default_action() {
    let tree = BehaviorNode::Selector(vec![
        BehaviorNode::Sequence(vec![
            BehaviorNode::Condition(CreatureCondition::Hungry(0.5)),
            BehaviorNode::Action(CreatureAction::Forage),
        ]),
        BehaviorNode::Action(CreatureAction::Wander),
    ]);
    let ctx = calm();
    let (status, action) = evaluate(&tree, &|c: &CreatureCondition<f32>| holds(&ctx, c));
    assert_eq!(status, BehaviorStatus::Running);
    assert_eq!(action, Some(CreatureAction::Wander));
}

#[test]
fn sequence_of_conditions_succeeds_without_action() {
    let tree: BehaviorNode<f32> = BehaviorNode::Sequence(vec![
        BehaviorNode::Condition(CreatureCondition::Tired(0.5)),
        BehaviorNode::Condition(CreatureCondition::TimeOfDay(6.0, 18.0)),
    ]);
    let mut ctx = calm();
    ctx.energy = 0.1;
    let (status, action) = evaluate(&tree, &|c: &CreatureCondition<f32>| holds(&ctx, c));
    assert_eq!(status, BehaviorStatus::Success);
    assert_eq!(action, None);
}

#[test]
fn empty_selector_fails_and_empty_sequence_succeeds() {
    let ctx = calm();
    let selector: BehaviorNode<f32> = BehaviorNode::Selector(vec![]);
    let sequence: BehaviorNode<f32> = BehaviorNode::Sequence(vec![]);
    assert_eq!(evaluate(&selector, &|c: &CreatureCondition<f32>| holds(&ctx, c)), (BehaviorStatus::Failure, None));
    assert_eq!(evaluate(&sequence, &|c: &CreatureCondition<f32>| holds(&ctx, c)), (BehaviorStatus::Success, None));
}

#[test]
fn invert_swaps_success_and_failure_but_keeps_running() {
    let ctx = calm();
    let failing: BehaviorNode<f32> = BehaviorNode::Invert(Box::new(BehaviorNode::Condition(CreatureCondition::Threatened(0.3))));
    assert_eq!(evaluate(&failing, &|c: &CreatureCondition<f32>| holds(&ctx, c)), (BehaviorStatus::Success, None));
    let running: BehaviorNode<f32> = BehaviorNode::Invert(Box::new(BehaviorNode::Action(CreatureAction::Rest)));
    assert_eq!(
        evaluate(&running, &|c: &CreatureCondition<f32>| holds(&ctx, c)),
        (BehaviorStatus::Running, Some(CreatureAction::Rest))
    );
    let repeated: BehaviorNode<f32> = BehaviorNode::Repeat(3, Box::new(BehaviorNode::Cooldown(2.0, Box::new(BehaviorNode::Action(CreatureAction::CallOut)))));
    assert_eq!(
        evaluate(&repeated, &|c: &CreatureCondition<f32>| holds(&ctx, c)),
        (BehaviorStatus::Running, Some(CreatureAction::CallOut))
    );
}

#[test]
fn failing_condition_stops_a_sequence() {
    let tree = BehaviorNode::Sequence(vec![
        BehaviorNode::Condition(CreatureCondition::NearPrey(50.0)),
        BehaviorNode::Action(CreatureAction::HuntPrey),
    ]);
    let mut ctx = calm();
    ctx.near_prey = true;
    ctx.prey_distance = 80.0;
    assert_eq!(evaluate(&tree, &|c: &CreatureCondition<f32>| holds(&ctx, c)), (BehaviorStatus::Failure, None));
    ctx.prey_distance = 20.0;
    assert_eq!(
        evaluate(&tree, &|c: &CreatureCondition<f32>| holds(&ctx, c)),
        (BehaviorStatus::Running, Some(CreatureAction::HuntPrey))
    );
}

/// Species trees carry thresholds in hundredths.
fn holds_hundredths(ctx: &BehaviorContext, condition: &CreatureCondition<u32>) -> bool {
    let scaled = match condition {
        CreatureCondition::Hungry(t) => CreatureCondition::Hungry(*t as f32 / 100.0),
        CreatureCondition::Threatened(t) => CreatureCondition::Threatened(*t as f32 / 100.0),
        CreatureCondition::NearPrey(t) => CreatureCondition::NearPrey(*t as f32 / 100.0),
        CreatureCondition::Tired(t) => CreatureCondition::Tired(*t as f32 / 100.0),
        CreatureCondition::NearFlock(t) => CreatureCondition::NearFlock(*t as f32 / 100.0),
        CreatureCondition::TimeOfDay(a, b) => CreatureCondition::TimeOfDay(*a as f32 / 100.0, *b as f32 / 100.0),
    };
    holds(ctx, &scaled)
}

fn pick_action(tree: &BehaviorNode<u32>, ctx: &BehaviorContext) -> Option<CreatureAction> {
    let (status, action) = evaluate(tree, &|c: &CreatureCondition<u32>| holds_hundredths(ctx, c));
    assert_eq!(status, BehaviorStatus::Running);
    action
}

#[test]
fn herbivore_priorities() {
    let tree = herbivore_behavior();
    let mut ctx = calm();
    assert_eq!(pick_action(&tree, &ctx), Some(CreatureAction::Wander));
    ctx.near_flock = true;
    ctx.flock_distance = 20.0;
    assert_eq!(pick_action(&tree, &ctx), Some(CreatureAction::Socialize));
    ctx.energy = 0.2;
    assert_eq!(pick_action(&tree, &ctx), Some(CreatureAction::Rest));
    ctx.hunger = 0.5;
    assert_eq!(pick_action(&tree, &ctx), Some(CreatureAction::Forage));
    ctx.threat_level = 0.9;
    assert_eq!(pick_action(&tree, &ctx), Some(CreatureAction::FleeFrom));
}

#[test]
fn carnivore_hunts_only_hungry_and_near_prey() {
    let tree = carnivore_behavior();
    let mut ctx = calm();
    assert_eq!(pick_action(&tree, &ctx), Some(CreatureAction::MarkTerritory));
    ctx.near_prey = true;
    ctx.prey_distance = 40.0;
    assert_eq!(pick_action(&tree, &ctx), Some(CreatureAction::MarkTerritory));
    ctx.hunger = 0.4;
    assert_eq!(pick_action(&tree, &ctx), Some(CreatureAction::HuntPrey));
    ctx.prey_distance = 60.0;
    assert_eq!(pick_action(&tree, &ctx), Some(CreatureAction::MarkTerritory));
    ctx.hunger = 0.6;
    assert_eq!(pick_action(&tree, &ctx), Some(CreatureAction::Forage));
    ctx.hunger = 0.0;
    ctx.energy = 0.1;
    assert_eq!(pick_action(&tree, &ctx), Some(CreatureAction::Rest));
}

#[test]
fn decomposer_and_species_trees() {
    let mut ctx = calm();
    assert_eq!(pick_action(&decomposer_behavior(), &ctx), Some(CreatureAction::Wander));
    ctx.energy = 0.35;
    assert_eq!(pick_action(&decomposer_behavior(), &ctx), Some(CreatureAction::Rest));
    ctx.hunger = 0.31;
    assert_eq!(pick_action(&decomposer_behavior(), &ctx), Some(CreatureAction::Forage));
    ctx.threat_level = 1.0;
    assert_eq!(pick_action(&behavior_for_species(&SpeciesType::Omnivore), &ctx), Some(CreatureAction::FleeFrom));
    assert_eq!(pick_action(&behavior_for_species(&SpeciesType::Herbivore), &ctx), Some(CreatureAction::FleeFrom));
    assert_eq!(pick_action(&behavior_for_species(&SpeciesType::Producer), &ctx), Some(CreatureAction::Forage));
    assert_eq!(pick_action(&behavior_for_species(&SpeciesType::Decomposer), &ctx), Some(CreatureAction::Forage));
    assert_eq!(pick_action(&behavior_for_species(&SpeciesType::Carnivore), &ctx), Some(CreatureAction::MarkTerritory));
}
