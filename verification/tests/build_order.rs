use rebicycler::abilities as ab;
use rebicycler::build_order::{
    can_do_build_action, BuildOrder, evaluate_conditions, progress_build, ActionFacts, BuildOrderComponent, BuildOrderManager,
};
use rebicycler::build_tree::{BuildComponent, BuildCondition, BuildOrderAction, BuildOrderTree, ConditionGroup, ConditionOperator, GameFacts};
use rebicycler::unit_types as ut;

fn facts(supply_used: u32, supply_left: u32, all: Vec<(u32, usize)>, ready: Vec<u32>) -> GameFacts {
    GameFacts { supply_used, supply_left, done: vec![], ordered: vec![], all, ready_structures: ready, upgrades_done: vec![] }
}

fn able() -> ActionFacts {
    ActionFacts {
        can_expand: true,
        chrono_ready: true,
        affordable: vec![ut::PYLON, ut::GATEWAY],
        has_workers: true,
        without_idle: vec![],
        affordable_upgrades: vec![],
        trainer_abilities: vec![ab::NEXUS_TRAIN_PROBE],
    }
}

#[test]
fn build_order_test_build_order_manager() {
    let m = BuildOrderManager::default();
    assert!(m.get_next_component().is_none());
}

#[test]
fn build_order_manager_test_build_order_manager() {
    let m = BuildOrderManager::new();
    assert_eq!(m.policies.len(), 5);
}

#[test]
fn conditions_all_have_to_hold() {
    let f = facts(20, 3, vec![(ut::PROBE, 14)], vec![ut::PYLON]);
    assert!(evaluate_conditions(&vec![BuildCondition::SupplyAtLeast(20), BuildCondition::StructureComplete(ut::PYLON)], &f));
    assert!(!evaluate_conditions(&vec![BuildCondition::SupplyAtLeast(20), BuildCondition::LessThanCount(ut::PROBE, 14)], &f));
    assert!(evaluate_conditions(&vec![], &f));
}

#[test]
fn actions_need_their_means() {
    let a = able();
    assert!(can_do_build_action(BuildOrderAction::Construct(ut::PYLON), &a));
    assert!(!can_do_build_action(BuildOrderAction::Construct(ut::NEXUS), &a));
    assert!(can_do_build_action(BuildOrderAction::Train(ut::PROBE, ab::NEXUS_TRAIN_PROBE), &a));
    assert!(can_do_build_action(BuildOrderAction::Expand, &a));
    assert!(can_do_build_action(BuildOrderAction::Surrender, &a));
    let none = ActionFacts { can_expand: false, chrono_ready: false, has_workers: false, ..able() };
    assert!(!can_do_build_action(BuildOrderAction::Construct(ut::PYLON), &none));
    assert!(!can_do_build_action(BuildOrderAction::Chrono(ab::NEXUS_TRAIN_PROBE), &none));
}

#[test]
fn standing_policies_fire_on_their_conditions() {
    let m = BuildOrderManager::new();
    let early = facts(12, 3, vec![(ut::PROBE, 13)], vec![]);
    assert_eq!(
        m.check_policies(&early, &able()),
        vec![BuildOrderAction::Train(ut::PROBE, ab::NEXUS_TRAIN_PROBE), BuildOrderAction::Construct(ut::PYLON)]
    );
    let later = facts(20, 10, vec![(ut::PROBE, 20), (ut::PYLON, 1), (ut::GATEWAY, 4)], vec![ut::PYLON]);
    assert_eq!(
        m.check_policies(&later, &able()),
        vec![BuildOrderAction::Train(ut::PROBE, ab::NEXUS_TRAIN_PROBE), BuildOrderAction::Chrono(ab::NEXUS_TRAIN_PROBE)]
    );
}

#[test]
fn the_simple_build_order_is_a_queue() {
    let mut m = BuildOrderManager::default();
    m.add_component(BuildOrderComponent { conditions: vec![], action: BuildOrderAction::Construct(ut::PYLON) });
    m.add_component(BuildOrderComponent { conditions: vec![], action: BuildOrderAction::Expand });
    assert_eq!(m.get_next_component(), Some(BuildOrderAction::Construct(ut::PYLON)));
    m.mark_component_done();
    assert_eq!(m.get_next_component(), Some(BuildOrderAction::Expand));
    m.mark_component_done();
    assert_eq!(m.get_next_component(), None);
}

#[test]
fn started_unfinished_doable_components_are_due() {
    let mut tree = BuildOrderTree::default();
    let when = |c: BuildCondition| vec![ConditionGroup::new(&[c], ConditionOperator::All)];
    let pylon = BuildComponent::new(
        "pylon",
        &when(BuildCondition::SupplyAtLeast(13)),
        &when(BuildCondition::AtLeastCount(ut::PYLON, 1)),
        false,
        Some(BuildOrderAction::Construct(ut::PYLON)),
        true,
    );
    let gateway = BuildComponent::new(
        "gateway",
        &when(BuildCondition::StructureComplete(ut::PYLON)),
        &when(BuildCondition::Never),
        false,
        Some(BuildOrderAction::Construct(ut::GATEWAY)),
        true,
    );
    let root = tree.add_node(pylon, Some(0)).unwrap();
    tree.add_node(gateway, Some(root)).unwrap();
    let f = facts(14, 1, vec![], vec![]);
    assert_eq!(progress_build(&tree, &f, &able()), vec![BuildOrderAction::Construct(ut::PYLON)]);
    let g = facts(14, 1, vec![(ut::PYLON, 1)], vec![ut::PYLON]);
    assert_eq!(progress_build(&tree, &g, &able()), vec![BuildOrderAction::Construct(ut::GATEWAY)]);
}

#[test]
fn a_simple_build_order_lists_its_components() {
    assert!(BuildOrder::empty().iter().is_empty());
    let order = BuildOrder(vec![
        BuildOrderComponent { conditions: vec![], action: BuildOrderAction::Expand },
        BuildOrderComponent { conditions: vec![BuildCondition::Always], action: BuildOrderAction::Surrender },
    ]);
    let actions: Vec<BuildOrderAction> = order.iter().iter().map(|c| c.action).collect();
    assert_eq!(actions, vec![BuildOrderAction::Expand, BuildOrderAction::Surrender]);
}
