//! Which build actions are due: components of a build order whose start
//! conditions hold and whose end conditions do not, standing policies whose
//! conditions hold, each only when the action can be done now.
use crate::abilities as ab;
use crate::build_tree::{
    condition_holds, evaluate_condition, evaluate_condition_group, group_holds, groups_hold, BuildCondition,
    BuildOrderAction, BuildOrderTree, ComponentView, GameFacts,
};
use crate::ids::{Ability, UnitType, Upgrade};
use crate::unit_types as ut;
use vstd::prelude::*;

verus! {

/// What the bot can do right now: expand, chrono-boost, afford each
/// building type, find a worker, find a research building (types without an
/// idle one), afford each upgrade, and which training abilities some
/// structure has.
#[derive(Debug)]
pub struct ActionFacts {
    pub can_expand: bool,
    pub chrono_ready: bool,
    pub affordable: Vec<UnitType>,
    pub has_workers: bool,
    pub without_idle: Vec<UnitType>,
    pub affordable_upgrades: Vec<Upgrade>,
    pub trainer_abilities: Vec<Ability>,
}

/// Whether an action can be done now. Actions that need nothing of the game
/// (chat, surrender) always can.
pub open spec fn action_doable(action: BuildOrderAction, f: ActionFacts) -> bool {
    match action {
        BuildOrderAction::Expand => f.can_expand,
        BuildOrderAction::Chrono(_) => f.chrono_ready,
        BuildOrderAction::ChronoWhatever(_) => f.chrono_ready,
        BuildOrderAction::Construct(building) => f.affordable@.contains(building) && f.has_workers,
        BuildOrderAction::Research(upgrade, _, researcher) => f.without_idle@.contains(researcher) && f.affordable_upgrades@.contains(upgrade),
        BuildOrderAction::Train(_, ability) => f.trainer_abilities@.contains(ability),
        BuildOrderAction::Chat(_) => true,
        BuildOrderAction::Surrender => true,
    }
}

/// Whether `v` holds `x`.
fn holds(v: &Vec<u32>, x: u32) -> (b: bool)
    ensures
        b == v@.contains(x),
{
    let mut i: usize = 0;
    while i < v.len()
        invariant
            i <= v@.len(),
            forall|k: int| 0 <= k < i ==> v@[k] != x,
        decreases v@.len() - i,
    {
        if v[i] == x {
            return true;
        }
        i = i + 1;
    }
    false
}

/// Whether an action can be done now.
pub fn can_do_build_action(action: BuildOrderAction, f: &ActionFacts) -> (b: bool)
    ensures
        b == action_doable(action, *f),
{
    match action {
        BuildOrderAction::Expand => f.can_expand,
        BuildOrderAction::Chrono(_) => f.chrono_ready,
        BuildOrderAction::ChronoWhatever(_) => f.chrono_ready,
        BuildOrderAction::Construct(building) => holds(&f.affordable, building) && f.has_workers,
        BuildOrderAction::Research(upgrade, _, researcher) => holds(&f.without_idle, researcher) && holds(&f.affordable_upgrades, upgrade),
        BuildOrderAction::Train(_, ability) => holds(&f.trainer_abilities, ability),
        BuildOrderAction::Chat(_) => true,
        BuildOrderAction::Surrender => true,
    }
}

/// Whether every condition holds.
pub open spec fn all_hold(conditions: Seq<BuildCondition>, f: GameFacts) -> bool {
    forall|i: int| 0 <= i < conditions.len() ==> #[trigger] condition_holds(conditions[i], f)
}

/// Whether every condition holds.
pub fn evaluate_conditions(conditions: &Vec<BuildCondition>, f: &GameFacts) -> (b: bool)
    ensures
        b == all_hold(conditions@, *f),
{
    let mut i: usize = 0;
    while i < conditions.len()
        invariant
            i <= conditions@.len(),
            forall|k: int| 0 <= k < i ==> #[trigger] condition_holds(conditions@[k], *f),
        decreases conditions@.len() - i,
    {
        if !evaluate_condition(&conditions[i], f) {
            return false;
        }
        i = i + 1;
    }
    true
}

/// The actions due from the components, in order: each component with an
/// action whose start groups hold, whose end groups do not all hold, and
/// whose action can be done now.
pub open spec fn due_actions(nodes: Seq<ComponentView>, f: GameFacts, a: ActionFacts) -> Seq<BuildOrderAction>
    decreases nodes.len(),
{
    if nodes.len() == 0 {
        Seq::empty()
    } else {
        let rest = due_actions(nodes.drop_last(), f, a);
        let c = nodes.last();
        if groups_hold(c.1, f) && !groups_hold(c.2, f) && c.4 is Some && action_doable(c.4->0, a) {
            rest.push(c.4->0)
        } else {
            rest
        }
    }
}

/// Whether every group of the list holds.
fn all_groups_hold(gs: &Vec<crate::build_tree::ConditionGroup>, f: &GameFacts) -> (b: bool)
    ensures
        b == groups_hold(gs@.map_values(|g: crate::build_tree::ConditionGroup| g@), *f),
{
    let ghost views = gs@.map_values(|g: crate::build_tree::ConditionGroup| g@);
    let mut i: usize = 0;
    while i < gs.len()
        invariant
            i <= gs@.len(),
            views == gs@.map_values(|g: crate::build_tree::ConditionGroup| g@),
            forall|k: int| 0 <= k < i ==> #[trigger] group_holds(views[k], *f),
        decreases gs@.len() - i,
    {
        if !evaluate_condition_group(&gs[i], f) {
            proof { assert(views[i as int] == gs@[i as int]@); }
            return false;
        }
        i = i + 1;
    }
    true
}

/// The two conditions in a list.
fn two(c1: BuildCondition, c2: BuildCondition) -> (v: Vec<BuildCondition>)
    ensures
        v@ == seq![c1, c2],
{
    let mut v: Vec<BuildCondition> = Vec::new();
    v.push(c1);
    v.push(c2);
    assert(v@ =~= seq![c1, c2]);
    v
}

/// The condition in a list.
fn one(c: BuildCondition) -> (v: Vec<BuildCondition>)
    ensures
        v@ == seq![c],
{
    let mut v: Vec<BuildCondition> = Vec::new();
    v.push(c);
    assert(v@ =~= seq![c]);
    v
}

/// The actions due now from the components of a build order tree, in the
/// order the components were added.
pub fn progress_build(tree: &BuildOrderTree, f: &GameFacts, a: &ActionFacts) -> (due: Vec<BuildOrderAction>)
    requires
        tree.wf(),
    ensures
        due@ == due_actions(tree.nodes(), *f, *a),
{
    let n = tree.len();
    let mut due: Vec<BuildOrderAction> = Vec::new();
    let mut i: usize = 0;
    while i < n
        invariant
            tree.wf(),
            n == tree.nodes().len(),
            i <= n,
            due@ == due_actions(tree.nodes().subrange(0, i as int), *f, *a),
        decreases n - i,
    {
        proof {
            assert(tree.nodes().subrange(0, i as int + 1).drop_last() =~= tree.nodes().subrange(0, i as int));
        }
        match tree.get(i) {
            Some(c) => {
                let started = all_groups_hold(&c.start_when, f);
                let finished = all_groups_hold(&c.complete_when, f);
                if started && !finished {
                    match c.action {
                        Some(act) => {
                            if can_do_build_action(act, a) {
                                due.push(act);
                            }
                        },
                        None => {},
                    }
                }
            },
            None => {},
        }
        i = i + 1;
    }
    proof {
        assert(tree.nodes().subrange(0, i as int) =~= tree.nodes());
    }
    due
}

/// An element of a simple build order: conditions and an action.
#[derive(Debug)]
pub struct BuildOrderComponent {
    pub conditions: Vec<BuildCondition>,
    pub action: BuildOrderAction,
}

/// An action taken whenever its conditions hold, while active.
#[derive(Debug)]
pub struct Policy {
    pub action: BuildOrderAction,
    pub active: bool,
    pub conditions: Vec<BuildCondition>,
}

impl Policy {
    /// An active policy.
    pub fn new(action: BuildOrderAction, conditions: Vec<BuildCondition>) -> (p: Policy)
        ensures
            p.action == action,
            p.active,
            p.conditions@ == conditions@,
    {
        Policy { action, conditions, active: true }
    }
}

/// The standing policies and the remaining build order.
pub struct BuildOrderManager {
    pub policies: Vec<Policy>,
    pub build_order: Vec<BuildOrderComponent>,
}

/// The standing policies: probes to 14 before the first pylon, probes to 48
/// once a pylon stands, a pylon when supply runs low after 13 probes,
/// gateways up to four once a pylon stands, and chrono on probes between 16
/// and 48 supply.
pub open spec fn standard_policies() -> Seq<(BuildOrderAction, Seq<BuildCondition>)> {
    seq![
        (BuildOrderAction::Train(ut::PROBE, ab::NEXUS_TRAIN_PROBE),
            seq![BuildCondition::LessThanCount(ut::PROBE, 14), BuildCondition::LessThanCount(ut::PYLON, 1)]),
        (BuildOrderAction::Train(ut::PROBE, ab::NEXUS_TRAIN_PROBE),
            seq![BuildCondition::StructureComplete(ut::PYLON), BuildCondition::LessThanCount(ut::PROBE, 48)]),
        (BuildOrderAction::Construct(ut::PYLON),
            seq![BuildCondition::AtLeastCount(ut::PROBE, 13), BuildCondition::SupplyLeftBelow(4)]),
        (BuildOrderAction::Construct(ut::GATEWAY),
            seq![BuildCondition::StructureComplete(ut::PYLON), BuildCondition::LessThanCount(ut::GATEWAY, 4)]),
        (BuildOrderAction::Chrono(ab::NEXUS_TRAIN_PROBE), seq![BuildCondition::SupplyBetween(16, 48)]),
    ]
}

/// The actions of the active policies whose conditions all hold and whose
/// action can be done now, in order.
pub open spec fn doable_policy_actions(policies: Seq<(BuildOrderAction, bool, Seq<BuildCondition>)>, f: GameFacts, a: ActionFacts) -> Seq<BuildOrderAction>
    decreases policies.len(),
{
    if policies.len() == 0 {
        Seq::empty()
    } else {
        let rest = doable_policy_actions(policies.drop_last(), f, a);
        let p = policies.last();
        if p.1 && all_hold(p.2, f) && action_doable(p.0, a) { rest.push(p.0) } else { rest }
    }
}

impl BuildOrderManager {
    /// The policies as values.
    pub open spec fn policy_views(&self) -> Seq<(BuildOrderAction, bool, Seq<BuildCondition>)> {
        self.policies@.map_values(|p: Policy| (p.action, p.active, p.conditions@))
    }

    /// The standing policies, all active, and an empty build order.
    pub fn new() -> (m: BuildOrderManager)
        ensures
            m.policy_views() == standard_policies().map_values(|p: (BuildOrderAction, Seq<BuildCondition>)| (p.0, true, p.1)),
            m.build_order@.len() == 0,
    {
        let mut policies: Vec<Policy> = Vec::new();
        policies.push(Policy::new(
            BuildOrderAction::Train(ut::PROBE, ab::NEXUS_TRAIN_PROBE),
            two(BuildCondition::LessThanCount(ut::PROBE, 14), BuildCondition::LessThanCount(ut::PYLON, 1)),
        ));
        policies.push(Policy::new(
            BuildOrderAction::Train(ut::PROBE, ab::NEXUS_TRAIN_PROBE),
            two(BuildCondition::StructureComplete(ut::PYLON), BuildCondition::LessThanCount(ut::PROBE, 48)),
        ));
        policies.push(Policy::new(
            BuildOrderAction::Construct(ut::PYLON),
            two(BuildCondition::AtLeastCount(ut::PROBE, 13), BuildCondition::SupplyLeftBelow(4)),
        ));
        policies.push(Policy::new(
            BuildOrderAction::Construct(ut::GATEWAY),
            two(BuildCondition::StructureComplete(ut::PYLON), BuildCondition::LessThanCount(ut::GATEWAY, 4)),
        ));
        policies.push(Policy::new(BuildOrderAction::Chrono(ab::NEXUS_TRAIN_PROBE), one(BuildCondition::SupplyBetween(16, 48))));
        let m = BuildOrderManager { policies, build_order: Vec::new() };
        assert(m.policy_views() =~= standard_policies().map_values(|p: (BuildOrderAction, Seq<BuildCondition>)| (p.0, true, p.1)));
        m
    }

    /// The next component's action, if any.
    pub fn get_next_component(&self) -> (r: Option<BuildOrderAction>)
        ensures
            self.build_order@.len() == 0 ==> r is None,
            self.build_order@.len() > 0 ==> r == Some(self.build_order@[0].action),
    {
        if self.build_order.len() == 0 {
            None
        } else {
            Some(self.build_order[0].action)
        }
    }

    /// Drops the first component.
    pub fn mark_component_done(&mut self)
        requires
            old(self).build_order@.len() > 0,
        ensures
            final(self).build_order@ == old(self).build_order@.drop_first(),
            final(self).policies == old(self).policies,
    {
        self.build_order.remove(0);
        assert(self.build_order@ =~= old(self).build_order@.drop_first());
    }

    /// Appends a component.
    pub fn add_component(&mut self, component: BuildOrderComponent)
        ensures
            final(self).build_order@ == old(self).build_order@.push(component),
            final(self).policies == old(self).policies,
    {
        self.build_order.push(component);
    }

    /// The actions of the policies that are due now, in order.
    pub fn check_policies(&self, f: &GameFacts, a: &ActionFacts) -> (due: Vec<BuildOrderAction>)
        ensures
            due@ == doable_policy_actions(self.policy_views(), *f, *a),
    {
        let ghost views = self.policy_views();
        let mut due: Vec<BuildOrderAction> = Vec::new();
        let mut i: usize = 0;
        while i < self.policies.len()
            invariant
                i <= self.policies@.len(),
                views == self.policy_views(),
                due@ == doable_policy_actions(views.subrange(0, i as int), *f, *a),
            decreases self.policies@.len() - i,
        {
            proof {
                assert(views.subrange(0, i as int + 1).drop_last() =~= views.subrange(0, i as int));
            }
            let p = &self.policies[i];
            if p.active && evaluate_conditions(&p.conditions, f) && can_do_build_action(p.action, a) {
                due.push(p.action);
            }
            i = i + 1;
        }
        proof { assert(views.subrange(0, i as int) =~= views); }
        due
    }
}

impl Default for BuildOrderManager {
    /// No policies and an empty build order.
    fn default() -> (m: Self)
        ensures
            m.policies@.len() == 0,
            m.build_order@.len() == 0,
    {
        BuildOrderManager { policies: Vec::new(), build_order: Vec::new() }
    }
}

/// A simple build order: its components, in order.
pub struct BuildOrder(pub Vec<BuildOrderComponent>);

impl BuildOrder {
    /// A build order without components.
    pub fn empty() -> (b: BuildOrder)
        ensures
            b.0@.len() == 0,
    {
        BuildOrder(Vec::new())
    }

    /// The components, in order.
    pub fn iter(&self) -> (r: Vec<&BuildOrderComponent>)
        ensures
            r@.len() == self.0@.len(),
            forall|k: int| 0 <= k < r@.len() ==> *(#[trigger] r@[k]) == self.0@[k],
    {
        let mut r: Vec<&BuildOrderComponent> = Vec::new();
        let mut k: usize = 0;
        while k < self.0.len()
            invariant
                k <= self.0@.len(),
                r@.len() == k,
                forall|m: int| 0 <= m < k ==> *(#[trigger] r@[m]) == self.0@[m],
            decreases self.0@.len() - k,
        {
            r.push(&self.0[k]);
            k = k + 1;
        }
        r
    }
}

impl Default for BuildOrder {
    /// A build order without components.
    fn default() -> (b: Self)
        ensures
            b.0@.len() == 0,
    {
        BuildOrder::empty()
    }
}


/// Research is doable only when its upgrade can be afforded and a structure
/// of the researcher's type is free; more money or a free researcher never
/// makes it undoable.
pub proof fn law_research_needs_money_and_researcher(upgrade: Upgrade, ability: Ability, researcher: UnitType, f: ActionFacts, g: ActionFacts)
    ensures
        action_doable(BuildOrderAction::Research(upgrade, ability, researcher), f) ==> f.affordable_upgrades@.contains(upgrade)
            && f.without_idle@.contains(researcher),
        action_doable(BuildOrderAction::Research(upgrade, ability, researcher), f)
            && (f.affordable_upgrades@.contains(upgrade) ==> g.affordable_upgrades@.contains(upgrade))
            && (f.without_idle@.contains(researcher) ==> g.without_idle@.contains(researcher))
            ==> action_doable(BuildOrderAction::Research(upgrade, ability, researcher), g),
{
}

} // verus!
