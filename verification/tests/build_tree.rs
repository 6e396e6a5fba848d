use rebicycler::build_tree::{
    evaluate_condition_group, BuildComponent, BuildCondition, BuildOrderTree, ComponentState, ConditionGroup,
    ConditionOperator, GameFacts,
};

fn blank_component() -> BuildComponent {
    BuildComponent::new(
        "child",
        &[],
        &[ConditionGroup::new(&[], ConditionOperator::All)],
        false,
        None,
        true,
    )
}

fn no_facts() -> GameFacts {
    GameFacts {
        supply_used: 0,
        supply_left: 0,
        done: vec![],
        ordered: vec![],
        all: vec![],
        ready_structures: vec![],
        upgrades_done: vec![],
    }
}

#[test]
fn breadth_first_order_ok() {
    let mut tree = BuildOrderTree::default();

    assert!(tree.add_node(blank_component(), Some(0)).is_ok()); // 1
    assert!(tree.add_node(blank_component(), Some(1)).is_ok()); // 2
    assert!(tree.add_node(blank_component(), Some(2)).is_ok()); // 3
    assert!(tree.add_node(blank_component(), Some(0)).is_ok()); // 4
    assert!(tree.add_node(blank_component(), Some(0)).is_ok()); // 5

    assert_eq!(tree.breadth_first(), vec![0, 1, 4, 5, 2, 3]);
}

#[test]
fn display_good() {
    let mut tree = BuildOrderTree::default();

    assert!(tree.add_node(blank_component(), Some(0)).is_ok()); // 1
    assert!(tree.add_node(blank_component(), Some(1)).is_ok()); // 2
    assert!(tree.add_node(blank_component(), Some(2)).is_ok()); // 3
    assert!(tree.add_node(blank_component(), Some(0)).is_ok()); // 4
    assert!(tree.add_node(blank_component(), Some(0)).is_ok()); // 5
    assert!(tree.add_node(blank_component(), Some(5)).is_ok()); // 6

    assert_eq!(
        tree.to_text(),
        "ROOT➖\n-child➖\n--child➖\n-child➖\n-child➖\n--child➖\n---child➖\n".to_string()
    );

    let mut tree_two = BuildOrderTree::default();

    assert!(tree_two.add_node(blank_component(), Some(0)).is_ok()); // 1
    assert!(tree_two.add_node(blank_component(), None).is_ok()); // 2

    assert_eq!(tree_two.to_text(), "ROOT➖\n-child➖\nchild➖\n".to_string());
}

#[test]
fn update_state() {
    let mut tree = BuildOrderTree::default();
    assert!(tree.add_node(blank_component(), Some(0)).is_ok()); // 1

    let one = tree.set_state(1, ComponentState::Restricted);
    assert!(one.is_ok());

    assert_eq!(tree.to_text(), "ROOT➖\n-child❌\n".to_string());
}

#[test]
fn check_logic() {
    let facts = no_facts();

    let one_off = &[BuildCondition::Never, BuildCondition::Always, BuildCondition::Always];
    let all_good = &[BuildCondition::Always, BuildCondition::Always, BuildCondition::Always];

    assert!(evaluate_condition_group(&ConditionGroup::new(all_good, ConditionOperator::All), &facts));
    assert!(!evaluate_condition_group(&ConditionGroup::new(one_off, ConditionOperator::All), &facts));

    assert!(evaluate_condition_group(&ConditionGroup::new(all_good, ConditionOperator::Any), &facts));
    assert!(evaluate_condition_group(&ConditionGroup::new(one_off, ConditionOperator::Any), &facts));

    assert!(!evaluate_condition_group(&ConditionGroup::new(all_good, ConditionOperator::NoneOf), &facts));
    assert!(!evaluate_condition_group(&ConditionGroup::new(one_off, ConditionOperator::NoneOf), &facts));

    assert!(!evaluate_condition_group(
        &ConditionGroup::new(all_good, ConditionOperator::ExactlyNOf(2)),
        &facts
    ));
    assert!(evaluate_condition_group(
        &ConditionGroup::new(one_off, ConditionOperator::ExactlyNOf(2)),
        &facts
    ));
}
