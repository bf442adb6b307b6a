//! A minimal behavior tree engine: simple recursive tree evaluation.
//!
//! Condition thresholds are of a scalar type `T` chosen by the caller; the
//! tree decides from whether each condition holds, which the caller answers.
use vstd::prelude::*;

verus! {

/// Result of evaluating a behavior node
#[derive(Clone, Copy, Debug, PartialEq, Eq, Structural)]
pub enum BehaviorStatus {
    Running,
    Success,
    Failure,
}

/// Actions a creature can perform
#[derive(Clone, Copy, Debug, PartialEq, Eq, Structural)]
pub enum CreatureAction {
    Wander,
    Forage,
    FleeFrom,
    HuntPrey,
    Rest,
    Socialize,
    Migrate,
    PlayBehavior,
    MarkTerritory,
    CallOut,
}

/// Conditions a creature can check, with thresholds of type `T`
#[derive(Clone, Debug)]
pub enum CreatureCondition<T> {
    /// hunger threshold
    Hungry(T),
    /// threat level threshold
    Threatened(T),
    /// prey detection range
    NearPrey(T),
    /// energy threshold
    Tired(T),
    /// flock detection range
    NearFlock(T),
    /// (start_hour, end_hour)
    TimeOfDay(T, T),
}

/// A node in the behavior tree
#[derive(Debug)]
pub enum BehaviorNode<T> {
    /// Run children in sequence; fail on first failure
    Sequence(Vec<BehaviorNode<T>>),
    /// Try children in order; succeed on first success
    Selector(Vec<BehaviorNode<T>>),
    /// Repeat a child N times (0 = forever)
    Repeat(u32, Box<BehaviorNode<T>>),
    /// Invert child result
    Invert(Box<BehaviorNode<T>>),
    /// Only run child if cooldown has elapsed
    Cooldown(T, Box<BehaviorNode<T>>),
    /// Leaf: perform an action
    Action(CreatureAction),
    /// Leaf: check a condition
    Condition(CreatureCondition<T>),
}

/// Success and failure swap; running stays running.
pub open spec fn inverted(s: BehaviorStatus) -> BehaviorStatus {
    match s {
        BehaviorStatus::Success => BehaviorStatus::Failure,
        BehaviorStatus::Failure => BehaviorStatus::Success,
        BehaviorStatus::Running => BehaviorStatus::Running,
    }
}

/// The status of a node, and the action it chose, given which conditions hold.
pub open spec fn spec_evaluate<T>(node: BehaviorNode<T>, holds: spec_fn(CreatureCondition<T>) -> bool) -> (
    BehaviorStatus,
    Option<CreatureAction>,
)
    decreases node, 0nat,
{
    match node {
        BehaviorNode::Sequence(children) => spec_sequence(children@, 0, holds),
        BehaviorNode::Selector(children) => spec_selector(children@, 0, holds),
        BehaviorNode::Repeat(_, child) => spec_evaluate(*child, holds),
        BehaviorNode::Invert(child) => {
            let r = spec_evaluate(*child, holds);
            (inverted(r.0), r.1)
        },
        BehaviorNode::Cooldown(_, child) => spec_evaluate(*child, holds),
        BehaviorNode::Action(action) => (BehaviorStatus::Running, Some(action)),
        BehaviorNode::Condition(condition) => (
            if holds(condition) {
                BehaviorStatus::Success
            } else {
                BehaviorStatus::Failure
            },
            None,
        ),
    }
}

/// A sequence from child `i` on: the first child that fails makes it fail,
/// the first that is running makes it run with that child's action, and it
/// succeeds when all succeed.
pub open spec fn spec_sequence<T>(children: Seq<BehaviorNode<T>>, i: int, holds: spec_fn(CreatureCondition<T>) -> bool) -> (
    BehaviorStatus,
    Option<CreatureAction>,
)
    decreases children, children.len() - i,
{
    if i < 0 || i >= children.len() {
        (BehaviorStatus::Success, None)
    } else {
        let r = spec_evaluate(children[i], holds);
        match r.0 {
            BehaviorStatus::Failure => (BehaviorStatus::Failure, None),
            BehaviorStatus::Running => (BehaviorStatus::Running, r.1),
            BehaviorStatus::Success => spec_sequence(children, i + 1, holds),
        }
    }
}

/// A selector from child `i` on: the first child that succeeds makes it
/// succeed and the first that is running makes it run, each with that
/// child's action; it fails when all fail.
pub open spec fn spec_selector<T>(children: Seq<BehaviorNode<T>>, i: int, holds: spec_fn(CreatureCondition<T>) -> bool) -> (
    BehaviorStatus,
    Option<CreatureAction>,
)
    decreases children, children.len() - i,
{
    if i < 0 || i >= children.len() {
        (BehaviorStatus::Failure, None)
    } else {
        let r = spec_evaluate(children[i], holds);
        match r.0 {
            BehaviorStatus::Success => (BehaviorStatus::Success, r.1),
            BehaviorStatus::Running => (BehaviorStatus::Running, r.1),
            BehaviorStatus::Failure => spec_selector(children, i + 1, holds),
        }
    }
}

/// Whether the predicate `f` reports that a condition holds.
pub open spec fn outcome_of<T, F: Fn(&CreatureCondition<T>) -> bool>(f: F) -> spec_fn(CreatureCondition<T>) -> bool {
    |c: CreatureCondition<T>| f.ensures((&c,), true)
}

/// The predicate `f` can be asked about any condition and gives one answer for each.
pub open spec fn is_condition_check<T, F: Fn(&CreatureCondition<T>) -> bool>(f: F) -> bool {
    &&& forall|c: &CreatureCondition<T>| #[trigger] f.requires((c,))
    &&& forall|c: &CreatureCondition<T>, b1: bool, b2: bool|
        #[trigger] f.ensures((c,), b1) && #[trigger] f.ensures((c,), b2) ==> b1 == b2
}

/// Evaluate a behavior tree node, returning status and the chosen action
/// (if any). `condition_holds` answers whether a condition holds for the
/// creature being evaluated.
///
/// The contract ties the outcome of each condition to the answer that
/// `condition_holds` gives about it (`outcome_of`). A caller that wants to
/// reason about a particular result first asks `condition_holds` about the
/// conditions in question: the answers it gets back are what `outcome_of`
/// reports, since a condition check gives one answer for each condition.
pub fn evaluate<T, F: Fn(&CreatureCondition<T>) -> bool>(node: &BehaviorNode<T>, condition_holds: &F) -> (r: (
    BehaviorStatus,
    Option<CreatureAction>,
))
    requires
        is_condition_check(*condition_holds),
    ensures
        r == spec_evaluate(*node, outcome_of(*condition_holds)),
    decreases node,
{
    let ghost holds = outcome_of(*condition_holds);
    match node {
        BehaviorNode::Sequence(children) => {
            proof {
                assert(spec_evaluate(*node, holds) == spec_sequence(children@, 0, holds));
            }
            let mut i: usize = 0;
            while i < children.len()
                invariant
                    i <= children.len(),
                    is_condition_check(*condition_holds),
                    holds == outcome_of(*condition_holds),
                    spec_sequence(children@, 0, holds) == spec_sequence(children@, i as int, holds),
                    *node == BehaviorNode::Sequence(*children),
                    spec_evaluate(*node, holds) == spec_sequence(children@, 0, holds),
                decreases children.len() - i,
            {
                proof {
                    vstd::std_specs::vec::axiom_vec_index_decreases(*children, i as int);
                    assert(decreases_to!(*node => (*node)->Sequence_0));
                }
                let (status, action) = evaluate(&children[i], condition_holds);
                proof {
                    assert(spec_evaluate(children@[i as int], holds) == (status, action));
                }
                match status {
                    BehaviorStatus::Failure => {
                        return (BehaviorStatus::Failure, None);
                    },
                    BehaviorStatus::Running => {
                        return (BehaviorStatus::Running, action);
                    },
                    BehaviorStatus::Success => {},
                }
                i = i + 1;
            }
            (BehaviorStatus::Success, None)
        },
        BehaviorNode::Selector(children) => {
            proof {
                assert(spec_evaluate(*node, holds) == spec_selector(children@, 0, holds));
            }
            let mut i: usize = 0;
            while i < children.len()
                invariant
                    i <= children.len(),
                    is_condition_check(*condition_holds),
                    holds == outcome_of(*condition_holds),
                    spec_selector(children@, 0, holds) == spec_selector(children@, i as int, holds),
                    *node == BehaviorNode::Selector(*children),
                    spec_evaluate(*node, holds) == spec_selector(children@, 0, holds),
                decreases children.len() - i,
            {
                proof {
                    vstd::std_specs::vec::axiom_vec_index_decreases(*children, i as int);
                    assert(decreases_to!(*node => (*node)->Selector_0));
                }
                let (status, action) = evaluate(&children[i], condition_holds);
                proof {
                    assert(spec_evaluate(children@[i as int], holds) == (status, action));
                }
                match status {
                    BehaviorStatus::Success => {
                        return (BehaviorStatus::Success, action);
                    },
                    BehaviorStatus::Running => {
                        return (BehaviorStatus::Running, action);
                    },
                    BehaviorStatus::Failure => {},
                }
                i = i + 1;
            }
            (BehaviorStatus::Failure, None)
        },
        BehaviorNode::Repeat(_, child) => {
            // Simplified: just run once per tick
            evaluate(child, condition_holds)
        },
        BehaviorNode::Invert(child) => {
            let (status, action) = evaluate(child, condition_holds);
            let inverted = match status {
                BehaviorStatus::Success => BehaviorStatus::Failure,
                BehaviorStatus::Failure => BehaviorStatus::Success,
                BehaviorStatus::Running => BehaviorStatus::Running,
            };
            (inverted, action)
        },
        BehaviorNode::Cooldown(_, child) => {
            // Simplified: cooldown tracking handled externally
            evaluate(child, condition_holds)
        },
        BehaviorNode::Action(action) => (BehaviorStatus::Running, Some(*action)),
        BehaviorNode::Condition(condition) => {
            let result = condition_holds(condition);
            proof {
                if result {
                    assert(holds(*condition));
                } else {
                    assert(!condition_holds.ensures((condition,), true));
                }
            }
            (if result {
                BehaviorStatus::Success
            } else {
                BehaviorStatus::Failure
            }, None)
        },
    }
}

/// Law: a tree chooses an action exactly when it is running; success and
/// failure never carry an action.
pub proof fn law_action_iff_running<T>(node: BehaviorNode<T>, holds: spec_fn(CreatureCondition<T>) -> bool)
    ensures
        (spec_evaluate(node, holds).0 == BehaviorStatus::Running) <==> spec_evaluate(node, holds).1 is Some,
    decreases node, 0nat,
{
    match node {
        BehaviorNode::Sequence(children) => {
            lemma_children_action_iff_running(children@, 0, holds);
        },
        BehaviorNode::Selector(children) => {
            lemma_children_action_iff_running(children@, 0, holds);
        },
        BehaviorNode::Repeat(_, child) => {
            law_action_iff_running(*child, holds);
        },
        BehaviorNode::Invert(child) => {
            law_action_iff_running(*child, holds);
        },
        BehaviorNode::Cooldown(_, child) => {
            law_action_iff_running(*child, holds);
        },
        BehaviorNode::Action(_) => {},
        BehaviorNode::Condition(_) => {},
    }
}

proof fn lemma_children_action_iff_running<T>(
    children: Seq<BehaviorNode<T>>,
    i: int,
    holds: spec_fn(CreatureCondition<T>) -> bool,
)
    ensures
        (spec_sequence(children, i, holds).0 == BehaviorStatus::Running) <==> spec_sequence(children, i, holds).1 is Some,
        (spec_selector(children, i, holds).0 == BehaviorStatus::Running) <==> spec_selector(children, i, holds).1 is Some,
    decreases children, children.len() - i,
{
    if 0 <= i < children.len() {
        law_action_iff_running(children[i], holds);
        lemma_children_action_iff_running(children, i + 1, holds);
    }
}

/// Every child from position `i` up to `k` ends with `status`.
pub open spec fn all_end_with<T>(
    children: Seq<BehaviorNode<T>>,
    i: int,
    k: int,
    status: BehaviorStatus,
    holds: spec_fn(CreatureCondition<T>) -> bool,
) -> bool {
    forall|j: int| i <= j < k ==> (#[trigger] spec_evaluate(children[j], holds)).0 == status
}

/// Law: how a sequence ends, from child `i` on. If every child succeeds,
/// it succeeds with no action; otherwise the first child that does not
/// succeed decides: if that child fails, the sequence fails with no action;
/// if it is running, the sequence runs with that child's action.
pub proof fn law_sequence_outcome<T>(children: Seq<BehaviorNode<T>>, i: int, holds: spec_fn(CreatureCondition<T>) -> bool)
    requires
        0 <= i <= children.len(),
    ensures
        all_end_with(children, i, children.len() as int, BehaviorStatus::Success, holds) ==> spec_sequence(
            children,
            i,
            holds,
        ) == (BehaviorStatus::Success, None::<CreatureAction>),
        forall|k: int|
            i <= k < children.len() && all_end_with(children, i, k, BehaviorStatus::Success, holds) && (
            #[trigger] spec_evaluate(children[k], holds)).0 == BehaviorStatus::Failure ==> spec_sequence(
                children,
                i,
                holds,
            ) == (BehaviorStatus::Failure, None::<CreatureAction>),
        forall|k: int|
            i <= k < children.len() && all_end_with(children, i, k, BehaviorStatus::Success, holds) && (
            #[trigger] spec_evaluate(children[k], holds)).0 == BehaviorStatus::Running ==> spec_sequence(
                children,
                i,
                holds,
            ) == (BehaviorStatus::Running, spec_evaluate(children[k], holds).1),
    decreases children.len() - i,
{
    if i < children.len() {
        law_sequence_outcome(children, i + 1, holds);
        if all_end_with(children, i, children.len() as int, BehaviorStatus::Success, holds) {
            assert(spec_evaluate(children[i], holds).0 == BehaviorStatus::Success);
        }
        assert forall|k: int|
            i < k < children.len() && all_end_with(children, i, k, BehaviorStatus::Success, holds) implies (
            #[trigger] spec_evaluate(children[i], holds)).0 == BehaviorStatus::Success && all_end_with(
                children,
                i + 1,
                k,
                BehaviorStatus::Success,
                holds,
            ) && spec_sequence(children, i, holds) == spec_sequence(children, i + 1, holds) by {
            assert(spec_evaluate(children[i], holds).0 == BehaviorStatus::Success);
        }
    }
}

/// Law: how a selector ends, from child `i` on. If every child fails, it
/// fails with no action; otherwise the first child that does not fail
/// decides: the selector succeeds or runs as that child does, with that
/// child's action.
pub proof fn law_selector_outcome<T>(children: Seq<BehaviorNode<T>>, i: int, holds: spec_fn(CreatureCondition<T>) -> bool)
    requires
        0 <= i <= children.len(),
    ensures
        all_end_with(children, i, children.len() as int, BehaviorStatus::Failure, holds) ==> spec_selector(
            children,
            i,
            holds,
        ) == (BehaviorStatus::Failure, None::<CreatureAction>),
        forall|k: int|
            i <= k < children.len() && all_end_with(children, i, k, BehaviorStatus::Failure, holds) && (
            #[trigger] spec_evaluate(children[k], holds)).0 != BehaviorStatus::Failure ==> spec_selector(
                children,
                i,
                holds,
            ) == spec_evaluate(children[k], holds),
    decreases children.len() - i,
{
    if i < children.len() {
        law_selector_outcome(children, i + 1, holds);
        if all_end_with(children, i, children.len() as int, BehaviorStatus::Failure, holds) {
            assert(spec_evaluate(children[i], holds).0 == BehaviorStatus::Failure);
        }
        assert forall|k: int|
            i < k < children.len() && all_end_with(children, i, k, BehaviorStatus::Failure, holds) implies (
            #[trigger] spec_evaluate(children[i], holds)).0 == BehaviorStatus::Failure && all_end_with(
                children,
                i + 1,
                k,
                BehaviorStatus::Failure,
                holds,
            ) && spec_selector(children, i, holds) == spec_selector(children, i + 1, holds) by {
            assert(spec_evaluate(children[i], holds).0 == BehaviorStatus::Failure);
        }
    }
}

/// Law: the leaves and decorators. An action runs with that action; a
/// condition succeeds when it holds and fails otherwise, with no action; an
/// inverted node swaps success and failure and keeps its action; repeating
/// and cooling down change nothing of a single evaluation.
pub proof fn law_leaves_and_decorators<T>(node: BehaviorNode<T>, holds: spec_fn(CreatureCondition<T>) -> bool)
    ensures
        node matches BehaviorNode::Action(a) ==> spec_evaluate(node, holds) == (BehaviorStatus::Running, Some(a)),
        node matches BehaviorNode::Condition(c) ==> spec_evaluate(node, holds).1 is None && (spec_evaluate(
            node,
            holds,
        ).0 == BehaviorStatus::Success <==> holds(c)) && (spec_evaluate(node, holds).0 == BehaviorStatus::Failure
            <==> !holds(c)),
        node matches BehaviorNode::Invert(child) ==> spec_evaluate(node, holds).1 == spec_evaluate(*child, holds).1
            && (spec_evaluate(node, holds).0 == BehaviorStatus::Success <==> spec_evaluate(*child, holds).0
            == BehaviorStatus::Failure) && (spec_evaluate(node, holds).0 == BehaviorStatus::Failure <==> spec_evaluate(
            *child,
            holds,
        ).0 == BehaviorStatus::Success),
        node matches BehaviorNode::Repeat(_, child) ==> spec_evaluate(node, holds) == spec_evaluate(*child, holds),
        node matches BehaviorNode::Cooldown(_, child) ==> spec_evaluate(node, holds) == spec_evaluate(*child, holds),
        node matches BehaviorNode::Sequence(children) ==> spec_evaluate(node, holds) == spec_sequence(children@, 0, holds),
        node matches BehaviorNode::Selector(children) ==> spec_evaluate(node, holds) == spec_selector(children@, 0, holds),
{
}

} // verus!
