//! The bot's build orders, written with a pointer into a growing tree:
//! roots, children under the pointed node, leaves that leave the pointer
//! where it is, and whole trees grafted below it.
use crate::abilities as ab;
use crate::build_tree::{
    bfs_order, is_bfs_order, BuildComponent, BuildCondition, BuildOrderAction, BuildOrderTree, ComponentState,
    ComponentView, ConditionGroup, ConditionOperator, GroupView, TreeError,
};
use crate::unit_types as ut;
use crate::upgrades as up;
use vstd::prelude::*;

verus! {

/// A tree and the node new children go under.
pub struct TreePointer {
    pub tree: BuildOrderTree,
    pub index: usize,
}

/// A new component as values: not started yet.
pub open spec fn fresh_component(
    name: Seq<char>,
    start: Seq<GroupView>,
    end: Seq<GroupView>,
    restrictive: bool,
    action: Option<BuildOrderAction>,
    display: bool,
) -> ComponentView {
    (name, start, end, restrictive, action, display, ComponentState::NotYetStarted)
}

/// The groups as values.
pub open spec fn group_views(groups: Seq<ConditionGroup>) -> Seq<GroupView> {
    groups.map_values(|g: ConditionGroup| g@)
}

/// Where `x` first stands in `s`, counted from the front, if it is there.
pub open spec fn place_in(s: Seq<usize>, x: usize) -> Option<int>
    decreases s.len(),
{
    if s.len() == 0 {
        None
    } else {
        match place_in(s.drop_last(), x) {
            Some(k) => Some(k),
            None => if s.last() == x { Some(s.len() - 1) } else { None },
        }
    }
}

/// A place found in a prefix is the place in every longer prefix, and lies
/// within the prefix.
proof fn lemma_place_in_prefix(s: Seq<usize>, x: usize, a: int, b: int)
    requires
        0 <= a <= b <= s.len(),
    ensures
        place_in(s.subrange(0, a), x) matches Some(k) ==> 0 <= k < a && place_in(s.subrange(0, b), x) == Some(k),
    decreases b - a,
{
    if a < b {
        lemma_place_in_prefix(s, x, a, b - 1);
        assert(s.subrange(0, b).drop_last() =~= s.subrange(0, b - 1));
    } else {
        lemma_place_in_bounds(s.subrange(0, a), x);
    }
}

/// A place lies within the sequence.
proof fn lemma_place_in_bounds(s: Seq<usize>, x: usize)
    ensures
        place_in(s, x) matches Some(k) ==> 0 <= k < s.len(),
    decreases s.len(),
{
    if s.len() > 0 {
        lemma_place_in_bounds(s.drop_last(), x);
    }
}

/// Where `x` first stands among the first `end` entries of `order`.
fn place_before(order: &Vec<usize>, end: usize, x: usize) -> (r: Option<usize>)
    requires
        end <= order@.len(),
    ensures
        match place_in(order@.subrange(0, end as int), x) {
            Some(k) => 0 <= k < end && r == Some(k as usize),
            None => r is None,
        },
{
    let mut j: usize = 0;
    while j < end
        invariant
            j <= end <= order@.len(),
            place_in(order@.subrange(0, j as int), x) is None,
        decreases end - j,
    {
        proof {
            assert(order@.subrange(0, j as int + 1).drop_last() =~= order@.subrange(0, j as int));
        }
        if order[j] == x {
            proof {
                assert(place_in(order@.subrange(0, j as int + 1), x) == Some(j as int));
                lemma_place_in_prefix(order@, x, j as int + 1, end as int);
            }
            return Some(j);
        }
        j = j + 1;
    }
    None
}

/// The forest after copying in the nodes of another one, in `order`: a root
/// of the other goes under node `at`, and a node whose parent was copied
/// before it under that parent's copy (the copies are numbered from the end
/// of the forest on, in `order`). A copy whose parent was not copied before
/// it, or whose place is not in the forest, is refused, and so is the whole
/// graft (`None`).
pub open spec fn grafted(
    nodes: Seq<ComponentView>,
    parents: Seq<Option<usize>>,
    other_nodes: Seq<ComponentView>,
    other_parents: Seq<Option<usize>>,
    order: Seq<usize>,
    at: usize,
) -> Option<(Seq<ComponentView>, Seq<Option<usize>>)>
    decreases order.len(),
{
    if order.len() == 0 {
        Some((nodes, parents))
    } else {
        match grafted(nodes, parents, other_nodes, other_parents, order.drop_last(), at) {
            None => None,
            Some(t) => {
                let o = order.last();
                if o >= other_nodes.len() || o >= other_parents.len() {
                    Some(t)
                } else {
                    let target: Option<int> = match other_parents[o as int] {
                        None => Some(at as int),
                        Some(p) => match place_in(order.drop_last(), p) {
                            Some(k) => Some(nodes.len() + k),
                            None => None,
                        },
                    };
                    match target {
                        Some(g) => if g >= t.0.len() {
                            None
                        } else {
                            Some((t.0.push(other_nodes[o as int]), t.1.push(Some(g as usize))))
                        },
                        None => None,
                    }
                }
            }
        }
    }
}

/// What grafting `other` below node `at` of a forest with `nodes` and
/// `parents` gives: the grown forest, pointing at `at`, or the refusal.
pub open spec fn graft_result(
    r: Result<TreePointer, TreeError>,
    nodes: Seq<ComponentView>,
    parents: Seq<Option<usize>>,
    other: BuildOrderTree,
    at: usize,
) -> bool {
    match grafted(nodes, parents, other.nodes(), other.parent_links(), bfs_order(other.parent_links()), at) {
        None => r == Err::<TreePointer, TreeError>(TreeError::NodeNotInTree),
        Some(t) => r matches Ok(p) && p.tree.wf() && p.tree.nodes() == t.0 && p.tree.parent_links() == t.1 && p.index == at,
    }
}

impl TreePointer {
    /// An empty tree, pointing at node 0.
    pub fn new() -> (p: TreePointer)
        ensures
            p.tree.wf(),
            p.tree.nodes() == Seq::<ComponentView>::empty(),
            p.tree.parent_links() == Seq::<Option<usize>>::empty(),
            p.index == 0,
    {
        TreePointer { tree: BuildOrderTree::new(), index: 0 }
    }

    /// Adds a component as a new root and points at it.
    pub fn root(
        self,
        name: &str,
        start: &[ConditionGroup],
        end: &[ConditionGroup],
        restrictive: bool,
        action: Option<BuildOrderAction>,
        display: bool,
    ) -> (r: Result<TreePointer, TreeError>)
        requires
            self.tree.wf(),
        ensures
            r matches Ok(p) && p.tree.wf()
                && p.tree.nodes() == self.tree.nodes().push(fresh_component(name@, group_views(start@), group_views(end@), restrictive, action, display))
                && p.tree.parent_links() == self.tree.parent_links().push(None)
                && p.index == self.tree.nodes().len(),
    {
        let mut tree = self.tree;
        let c = BuildComponent::new(name, start, end, restrictive, action, display);
        match tree.add_node(c, None) {
            Ok(_) => {},
            Err(e) => { return Err(e); },
        }
        let index = tree.len() - 1;
        Ok(TreePointer { index, tree })
    }

    /// Adds a component under the pointed node and keeps pointing there.
    /// Refused when the pointed node is not in the tree.
    pub fn leaf(
        self,
        name: &str,
        start: &[ConditionGroup],
        end: &[ConditionGroup],
        restrictive: bool,
        action: Option<BuildOrderAction>,
        display: bool,
    ) -> (r: Result<TreePointer, TreeError>)
        requires
            self.tree.wf(),
        ensures
            self.index >= self.tree.nodes().len() ==> r == Err::<TreePointer, TreeError>(TreeError::NodeNotInTree),
            self.index < self.tree.nodes().len() ==> (r matches Ok(p) && p.tree.wf()
                && p.tree.nodes() == self.tree.nodes().push(fresh_component(name@, group_views(start@), group_views(end@), restrictive, action, display))
                && p.tree.parent_links() == self.tree.parent_links().push(Some(self.index))
                && p.index == self.index),
    {
        let mut me = self;
        let c = BuildComponent::new(name, start, end, restrictive, action, display);
        match me.tree.add_node(c, Some(me.index)) {
            Ok(_) => Ok(me),
            Err(e) => Err(e),
        }
    }

    /// Adds a component under the pointed node and points at it. Refused
    /// when the pointed node is not in the tree.
    pub fn child(
        self,
        name: &str,
        start: &[ConditionGroup],
        end: &[ConditionGroup],
        restrictive: bool,
        action: Option<BuildOrderAction>,
        display: bool,
    ) -> (r: Result<TreePointer, TreeError>)
        requires
            self.tree.wf(),
        ensures
            self.index >= self.tree.nodes().len() ==> r == Err::<TreePointer, TreeError>(TreeError::NodeNotInTree),
            self.index < self.tree.nodes().len() ==> (r matches Ok(p) && p.tree.wf()
                && p.tree.nodes() == self.tree.nodes().push(fresh_component(name@, group_views(start@), group_views(end@), restrictive, action, display))
                && p.tree.parent_links() == self.tree.parent_links().push(Some(self.index))
                && p.index == self.tree.nodes().len()),
    {
        let mut tree = self.tree;
        let c = BuildComponent::new(name, start, end, restrictive, action, display);
        match tree.add_node(c, Some(self.index)) {
            Ok(_) => {},
            Err(e) => { return Err(e); },
        }
        let index = tree.len() - 1;
        Ok(TreePointer { index, tree })
    }

    /// Combines the two trees: copies every node of `other`, in
    /// breadth-first order, onto the end of the tree, its roots becoming
    /// children of the pointed node and every other node a child of its
    /// parent's copy, so that `other` keeps its shape. The pointer stays.
    /// Refused when the pointed node is not in the tree.
    pub fn subtree(self, other: TreePointer) -> (r: Result<TreePointer, TreeError>)
        requires
            self.tree.wf(),
            other.tree.wf(),
        ensures
            graft_result(r, self.tree.nodes(), self.tree.parent_links(), other.tree, self.index),
    {
        let ghost nodes0 = self.tree.nodes();
        let ghost parents0 = self.tree.parent_links();
        let ghost at = self.index;
        let ghost orig = self;
        let mut me = self;
        let base = me.tree.len();
        let order = other.tree.breadth_first();
        let ghost on = other.tree.nodes();
        let ghost op = other.tree.parent_links();
        let mut i: usize = 0;
        proof {
            assert(order@.subrange(0, 0) =~= Seq::<usize>::empty());
        }
        while i < order.len()
            invariant
                nodes0 == orig.tree.nodes(),
                parents0 == orig.tree.parent_links(),
                at == orig.index,
                orig == self,
                other.tree.wf(),
                on == other.tree.nodes(),
                op == other.tree.parent_links(),
                is_bfs_order(op, order@),
                order@ == bfs_order(op),
                i <= order@.len(),
                me.tree.wf(),
                me.index == at,
                on.len() == op.len(),
                base == nodes0.len(),
                me.tree.nodes().len() == nodes0.len() + i,
                grafted(nodes0, parents0, on, op, order@.subrange(0, i as int), me.index)
                    == Some((me.tree.nodes(), me.tree.parent_links())),
            decreases order@.len() - i,
        {
            let o = order[i];
            proof {
                assert(order@.subrange(0, i as int + 1).drop_last() =~= order@.subrange(0, i as int));
                assert(order@.subrange(0, i as int + 1).last() == o);
            }
            proof {
                assert(o < op.len());
            }
            match other.tree.get(o) {
                Some(node) => {
                    let cur = me.tree.len();
                    let parent = match other.tree.parent(o) {
                        None => Some(me.index),
                        Some(p) => match place_before(&order, i, p) {
                            Some(k) => {
                                proof {
                                    assert(place_in(order@.subrange(0, i as int), p) == Some(k as int));
                                    assert(k < i);
                                    assert(cur == nodes0.len() + i);
                                }
                                Some(base + k)
                            },
                            None => {
                                proof {
                                    assert(order@.subrange(0, i as int + 1).drop_last() =~= order@.subrange(0, i as int));
                                    assert(grafted(nodes0, parents0, on, op, order@.subrange(0, i as int + 1), me.index) is None);
                                    lemma_graft_stays_refused(nodes0, parents0, on, op, order@, i as int + 1, me.index);
                                    assert(order@.subrange(0, order@.len() as int) =~= order@);
                                    assert(graft_result(Err(TreeError::NodeNotInTree), nodes0, parents0, other.tree, at));
                                }
                                return Err(TreeError::NodeNotInTree);
                            },
                        },
                    };
                    let copy = node.duplicate();
                    match me.tree.add_node(copy, parent) {
                        Ok(_) => {},
                        Err(e) => {
                            proof {
                                assert(grafted(nodes0, parents0, on, op, order@.subrange(0, i as int + 1), me.index) is None);
                                lemma_graft_stays_refused(nodes0, parents0, on, op, order@, i as int + 1, me.index);
                                assert(order@.subrange(0, order@.len() as int) =~= order@);
                                assert(e == TreeError::NodeNotInTree);
                                assert(grafted(nodes0, parents0, on, op, order@, at) is None);
                                assert(graft_result(Err(e), nodes0, parents0, other.tree, at));
                                assert(nodes0 == orig.tree.nodes() && parents0 == orig.tree.parent_links() && at == orig.index);
                            }
                            return Err(e);
                        },
                    }
                },
                None => {
                    proof {
                        assert(false);
                    }
                },
            }
            i = i + 1;
        }
        proof {
            assert(order@.subrange(0, i as int) =~= order@);
        }
        Ok(me)
    }

    /// Adds a root that does nothing: named `name` and shown, or named
    /// "empty_root" and hidden when there is no name.
    pub fn empty_root(self, name: Option<&str>) -> (r: Result<TreePointer, TreeError>)
        requires
            self.tree.wf(),
        ensures
            r matches Ok(p) && p.tree.wf()
                && p.tree.nodes() == self.tree.nodes().push(fresh_component(
                    match name { Some(n) => n@, None => "empty_root"@ },
                    Seq::empty(),
                    Seq::empty(),
                    false,
                    None,
                    name is Some,
                ))
                && p.tree.parent_links() == self.tree.parent_links().push(None)
                && p.index == self.tree.nodes().len(),
    {
        let none: [ConditionGroup; 0] = [];
        proof {
            assert(group_views(none@) =~= Seq::<GroupView>::empty());
        }
        let shown = name.is_some();
        let label = match name {
            Some(n) => n,
            None => "empty_root",
        };
        self.root(label, &none, &none, false, None, shown)
    }
}

/// A graft refused after `i` nodes stays refused to the end.
proof fn lemma_graft_stays_refused(
    nodes: Seq<ComponentView>,
    parents: Seq<Option<usize>>,
    other_nodes: Seq<ComponentView>,
    other_parents: Seq<Option<usize>>,
    order: Seq<usize>,
    i: int,
    at: usize,
)
    requires
        0 <= i <= order.len(),
        grafted(nodes, parents, other_nodes, other_parents, order.subrange(0, i), at) is None,
    ensures
        grafted(nodes, parents, other_nodes, other_parents, order.subrange(0, order.len() as int), at) is None,
    decreases order.len() - i,
{
    if i < order.len() {
        assert(order.subrange(0, i + 1).drop_last() =~= order.subrange(0, i));
        lemma_graft_stays_refused(nodes, parents, other_nodes, other_parents, order, i + 1, at);
    }
}


/// One group of the given conditions under the operator, as values.
pub open spec fn one_group(conditions: Seq<BuildCondition>, op: ConditionOperator) -> Seq<GroupView> {
    seq![(conditions, op)]
}

/// A list holding one group of the given conditions.
fn group_list(conditions: &[BuildCondition], op: ConditionOperator) -> (gs: Vec<ConditionGroup>)
    ensures
        group_views(gs@) == one_group(conditions@, op),
{
    let mut gs: Vec<ConditionGroup> = Vec::new();
    gs.push(ConditionGroup::new(conditions, op));
    proof { assert(group_views(gs@) =~= one_group(conditions@, op)); }
    gs
}

/// A list holding one group of one condition.
fn single(c: BuildCondition, op: ConditionOperator) -> (gs: Vec<ConditionGroup>)
    ensures
        group_views(gs@) == one_group(seq![c], op),
{
    let cs = [c];
    proof { assert(cs@ =~= seq![c]); }
    group_list(&cs, op)
}

/// A list holding one group of two conditions.
fn pair(c1: BuildCondition, c2: BuildCondition, op: ConditionOperator) -> (gs: Vec<ConditionGroup>)
    ensures
        group_views(gs@) == one_group(seq![c1, c2], op),
{
    let cs = [c1, c2];
    proof { assert(cs@ =~= seq![c1, c2]); }
    group_list(&cs, op)
}

/// The opener's components: probes to 14, the first pylon, the second
/// nexus, probes to 38 once a gateway is up, and two gateways.
pub open spec fn nexus_first_nodes() -> Seq<ComponentView> {
    seq![
        fresh_component("probe to 14"@, one_group(seq![BuildCondition::Always], ConditionOperator::All),
            one_group(seq![BuildCondition::SupplyBetween(0, 15)], ConditionOperator::NoneOf), true,
            Some(BuildOrderAction::Train(ut::PROBE, ab::NEXUS_TRAIN_PROBE)), true),
        fresh_component("first pylon"@, one_group(seq![BuildCondition::Always], ConditionOperator::All),
            one_group(seq![BuildCondition::AtLeastCount(ut::PYLON, 1)], ConditionOperator::All), true,
            Some(BuildOrderAction::Construct(ut::PYLON)), true),
        fresh_component("nexus first"@, one_group(seq![BuildCondition::Always], ConditionOperator::All),
            one_group(seq![BuildCondition::AtLeastCount(ut::NEXUS, 2)], ConditionOperator::All), true,
            Some(BuildOrderAction::Construct(ut::NEXUS)), true),
        fresh_component("probe to 38"@, one_group(seq![BuildCondition::AtLeastCount(ut::GATEWAY, 1)], ConditionOperator::All),
            one_group(seq![BuildCondition::TotalAndOrderedAtLeast(ut::PROBE, 38)], ConditionOperator::All), false,
            Some(BuildOrderAction::Train(ut::PROBE, ab::NEXUS_TRAIN_PROBE)), true),
        fresh_component("two gateways"@, one_group(seq![BuildCondition::Always], ConditionOperator::All),
            one_group(seq![BuildCondition::AtLeastCount(ut::GATEWAY, 2), BuildCondition::TechComplete(up::WARP_GATE_RESEARCH)], ConditionOperator::Any), false,
            Some(BuildOrderAction::Construct(ut::GATEWAY)), true),
    ]
}

/// An opener: probes to 14, pylon, more probes, a second nexus, then two
/// gateways. Each step hangs under the one before; the probes to 38 hang
/// beside the gateways under the nexus.
pub fn nexus_first() -> (r: Result<TreePointer, TreeError>)
    ensures
        r matches Ok(p) && p.tree.wf() && p.tree.nodes() == nexus_first_nodes()
            && p.tree.parent_links() == nexus_first_parents()
            && p.index == 4,
{
    let always = single(BuildCondition::Always, ConditionOperator::All);
    let p = TreePointer::new().root(
        "probe to 14",
        always.as_slice(),
        single(BuildCondition::SupplyBetween(0, 15), ConditionOperator::NoneOf).as_slice(),
        true,
        Some(BuildOrderAction::Train(ut::PROBE, ab::NEXUS_TRAIN_PROBE)),
        true,
    )?;
    let p = p.child(
        "first pylon",
        always.as_slice(),
        single(BuildCondition::AtLeastCount(ut::PYLON, 1), ConditionOperator::All).as_slice(),
        true,
        Some(BuildOrderAction::Construct(ut::PYLON)),
        true,
    )?;
    let p = p.child(
        "nexus first",
        always.as_slice(),
        single(BuildCondition::AtLeastCount(ut::NEXUS, 2), ConditionOperator::All).as_slice(),
        true,
        Some(BuildOrderAction::Construct(ut::NEXUS)),
        true,
    )?;
    let p = p.leaf(
        "probe to 38",
        single(BuildCondition::AtLeastCount(ut::GATEWAY, 1), ConditionOperator::All).as_slice(),
        single(BuildCondition::TotalAndOrderedAtLeast(ut::PROBE, 38), ConditionOperator::All).as_slice(),
        false,
        Some(BuildOrderAction::Train(ut::PROBE, ab::NEXUS_TRAIN_PROBE)),
        true,
    )?;
    let p = p.child(
        "two gateways",
        always.as_slice(),
        pair(BuildCondition::AtLeastCount(ut::GATEWAY, 2), BuildCondition::TechComplete(up::WARP_GATE_RESEARCH), ConditionOperator::Any).as_slice(),
        false,
        Some(BuildOrderAction::Construct(ut::GATEWAY)),
        true,
    )?;
    proof {
        assert(p.tree.nodes() =~= nexus_first_nodes());
        assert(p.tree.parent_links() =~= nexus_first_parents());
    }
    Ok(p)
}


/// Up to the twilight council: both gases once two gateways stand, the
/// cybernetics core, warp gate research beside the council.
pub open spec fn straight_to_twilight_nodes() -> Seq<ComponentView> {
    seq![
        fresh_component("gas 1&2"@, one_group(seq![BuildCondition::AtLeastCount(ut::GATEWAY, 2)], ConditionOperator::All),
            one_group(seq![BuildCondition::AtLeastCount(ut::ASSIMILATOR, 2)], ConditionOperator::All), true,
            Some(BuildOrderAction::Construct(ut::ASSIMILATOR)), true),
        fresh_component("cybercore"@, one_group(seq![BuildCondition::StructureComplete(ut::GATEWAY), BuildCondition::StructureComplete(ut::WARP_GATE)], ConditionOperator::Any),
            one_group(seq![BuildCondition::AtLeastCount(ut::CYBERNETICS_CORE, 1)], ConditionOperator::All), true,
            Some(BuildOrderAction::Construct(ut::CYBERNETICS_CORE)), true),
        fresh_component("warpgate"@, one_group(seq![BuildCondition::StructureComplete(ut::CYBERNETICS_CORE)], ConditionOperator::All),
            one_group(seq![BuildCondition::TechComplete(up::WARP_GATE_RESEARCH)], ConditionOperator::All), false,
            Some(BuildOrderAction::Research(up::WARP_GATE_RESEARCH, ab::RESEARCH_WARP_GATE, ut::CYBERNETICS_CORE)), true),
        fresh_component("twilight"@, one_group(seq![BuildCondition::StructureComplete(ut::CYBERNETICS_CORE)], ConditionOperator::Any),
            one_group(seq![BuildCondition::AtLeastCount(ut::TWILIGHT_COUNCIL, 1)], ConditionOperator::All), true,
            Some(BuildOrderAction::Construct(ut::TWILIGHT_COUNCIL)), true),
    ]
}

/// Gases, cybernetics core, then the twilight council, with warp gate
/// research hanging beside the council under the core.
pub fn straight_to_twilight() -> (r: Result<TreePointer, TreeError>)
    ensures
        r matches Ok(p) && p.tree.wf() && p.tree.nodes() == straight_to_twilight_nodes()
            && p.tree.parent_links() == straight_to_twilight_parents()
            && p.index == 3,
{
    let p = TreePointer::new().root(
        "gas 1&2",
        single(BuildCondition::AtLeastCount(ut::GATEWAY, 2), ConditionOperator::All).as_slice(),
        single(BuildCondition::AtLeastCount(ut::ASSIMILATOR, 2), ConditionOperator::All).as_slice(),
        true,
        Some(BuildOrderAction::Construct(ut::ASSIMILATOR)),
        true,
    )?;
    let p = p.child(
        "cybercore",
        pair(BuildCondition::StructureComplete(ut::GATEWAY), BuildCondition::StructureComplete(ut::WARP_GATE), ConditionOperator::Any).as_slice(),
        single(BuildCondition::AtLeastCount(ut::CYBERNETICS_CORE, 1), ConditionOperator::All).as_slice(),
        true,
        Some(BuildOrderAction::Construct(ut::CYBERNETICS_CORE)),
        true,
    )?;
    let p = p.leaf(
        "warpgate",
        single(BuildCondition::StructureComplete(ut::CYBERNETICS_CORE), ConditionOperator::All).as_slice(),
        single(BuildCondition::TechComplete(up::WARP_GATE_RESEARCH), ConditionOperator::All).as_slice(),
        false,
        Some(BuildOrderAction::Research(up::WARP_GATE_RESEARCH, ab::RESEARCH_WARP_GATE, ut::CYBERNETICS_CORE)),
        true,
    )?;
    let p = p.child(
        "twilight",
        single(BuildCondition::StructureComplete(ut::CYBERNETICS_CORE), ConditionOperator::Any).as_slice(),
        single(BuildCondition::AtLeastCount(ut::TWILIGHT_COUNCIL, 1), ConditionOperator::All).as_slice(),
        true,
        Some(BuildOrderAction::Construct(ut::TWILIGHT_COUNCIL)),
        true,
    )?;
    proof {
        assert(p.tree.nodes() =~= straight_to_twilight_nodes());
        assert(p.tree.parent_links() =~= straight_to_twilight_parents());
    }
    Ok(p)
}

/// The army: a shown "units" root, then a chain of training steps.
pub open spec fn make_units_nodes() -> Seq<ComponentView> {
    seq![
        fresh_component("units"@, Seq::empty(), Seq::empty(), false, None, true),
        fresh_component("two zealots"@, one_group(seq![BuildCondition::Always], ConditionOperator::All),
            one_group(seq![BuildCondition::TotalAndOrderedAtLeast(ut::ZEALOT, 2), BuildCondition::TechComplete(up::WARP_GATE_RESEARCH)], ConditionOperator::Any), false,
            Some(BuildOrderAction::Train(ut::STALKER, ab::GATEWAY_TRAIN_STALKER)), true),
        fresh_component("safety stalkers"@, one_group(seq![BuildCondition::Always], ConditionOperator::All),
            one_group(seq![BuildCondition::TotalAndOrderedAtLeast(ut::STALKER, 6), BuildCondition::TechComplete(up::WARP_GATE_RESEARCH)], ConditionOperator::Any), false,
            Some(BuildOrderAction::Train(ut::STALKER, ab::GATEWAY_TRAIN_STALKER)), true),
        fresh_component("safety stalkers WG"@, one_group(seq![BuildCondition::Always], ConditionOperator::All),
            one_group(seq![BuildCondition::TotalAndOrderedAtLeast(ut::STALKER, 6)], ConditionOperator::Any), true,
            Some(BuildOrderAction::Train(ut::STALKER, ab::WARP_GATE_TRAIN_STALKER)), true),
        fresh_component("zealots forever"@, one_group(seq![BuildCondition::Always], ConditionOperator::All),
            one_group(seq![BuildCondition::Never], ConditionOperator::All), false,
            Some(BuildOrderAction::Train(ut::ZEALOT, ab::WARP_GATE_TRAIN_ZEALOT)), true),
    ]
}

/// The army: gateway units until warp gates, stalkers to six, then
/// zealots for ever, each step under the one before.
pub fn make_units() -> (r: Result<TreePointer, TreeError>)
    ensures
        r matches Ok(p) && p.tree.wf() && p.tree.nodes() == make_units_nodes()
            && p.tree.parent_links() == make_units_parents()
            && p.index == 4,
{
    let always = single(BuildCondition::Always, ConditionOperator::All);
    let p = TreePointer::new().empty_root(Some("units"))?;
    let p = p.child(
        "two zealots",
        always.as_slice(),
        pair(BuildCondition::TotalAndOrderedAtLeast(ut::ZEALOT, 2), BuildCondition::TechComplete(up::WARP_GATE_RESEARCH), ConditionOperator::Any).as_slice(),
        false,
        Some(BuildOrderAction::Train(ut::STALKER, ab::GATEWAY_TRAIN_STALKER)),
        true,
    )?;
    let p = p.child(
        "safety stalkers",
        always.as_slice(),
        pair(BuildCondition::TotalAndOrderedAtLeast(ut::STALKER, 6), BuildCondition::TechComplete(up::WARP_GATE_RESEARCH), ConditionOperator::Any).as_slice(),
        false,
        Some(BuildOrderAction::Train(ut::STALKER, ab::GATEWAY_TRAIN_STALKER)),
        true,
    )?;
    let p = p.child(
        "safety stalkers WG",
        always.as_slice(),
        single(BuildCondition::TotalAndOrderedAtLeast(ut::STALKER, 6), ConditionOperator::Any).as_slice(),
        true,
        Some(BuildOrderAction::Train(ut::STALKER, ab::WARP_GATE_TRAIN_STALKER)),
        true,
    )?;
    let p = p.child(
        "zealots forever",
        always.as_slice(),
        single(BuildCondition::Never, ConditionOperator::All).as_slice(),
        false,
        Some(BuildOrderAction::Train(ut::ZEALOT, ab::WARP_GATE_TRAIN_ZEALOT)),
        true,
    )?;
    proof {
        assert(p.tree.nodes() =~= make_units_nodes());
        assert(p.tree.parent_links() =~= make_units_parents());
    }
    Ok(p)
}

/// Charge and weapon upgrades: a hidden root, charge beside the forge
/// chain, then plus one, two and three one after another.
pub open spec fn charge_and_plus_one_nodes() -> Seq<ComponentView> {
    seq![
        fresh_component("empty_root"@, Seq::empty(), Seq::empty(), false, None, false),
        fresh_component("charge"@, one_group(seq![BuildCondition::StructureComplete(ut::TWILIGHT_COUNCIL)], ConditionOperator::All),
            one_group(seq![BuildCondition::TechComplete(up::CHARGE)], ConditionOperator::All), false,
            Some(BuildOrderAction::Research(up::CHARGE, ab::RESEARCH_CHARGE, ut::TWILIGHT_COUNCIL)), true),
        fresh_component("forge"@, one_group(seq![BuildCondition::AtLeastCount(ut::TWILIGHT_COUNCIL, 1)], ConditionOperator::All),
            one_group(seq![BuildCondition::AtLeastCount(ut::FORGE, 1)], ConditionOperator::All), false,
            Some(BuildOrderAction::Construct(ut::FORGE)), true),
        fresh_component("plus 1"@, one_group(seq![BuildCondition::StructureComplete(ut::TWILIGHT_COUNCIL)], ConditionOperator::All),
            one_group(seq![BuildCondition::TechComplete(up::PROTOSS_GROUND_WEAPONS_LEVEL_1)], ConditionOperator::All), false,
            Some(BuildOrderAction::Research(up::PROTOSS_GROUND_WEAPONS_LEVEL_1, ab::FORGE_RESEARCH_PROTOSS_GROUND_WEAPONS_LEVEL_1, ut::FORGE)), true),
        fresh_component("plus 2"@, one_group(seq![BuildCondition::TechComplete(up::PROTOSS_GROUND_WEAPONS_LEVEL_1)], ConditionOperator::All),
            one_group(seq![BuildCondition::TechComplete(up::PROTOSS_GROUND_WEAPONS_LEVEL_2)], ConditionOperator::All), false,
            Some(BuildOrderAction::Research(up::PROTOSS_GROUND_WEAPONS_LEVEL_2, ab::FORGE_RESEARCH_PROTOSS_GROUND_WEAPONS_LEVEL_2, ut::FORGE)), true),
        fresh_component("plus 3"@, one_group(seq![BuildCondition::TechComplete(up::PROTOSS_GROUND_WEAPONS_LEVEL_2)], ConditionOperator::All),
            one_group(seq![BuildCondition::TechComplete(up::PROTOSS_GROUND_WEAPONS_LEVEL_3)], ConditionOperator::All), false,
            Some(BuildOrderAction::Research(up::PROTOSS_GROUND_WEAPONS_LEVEL_3, ab::FORGE_RESEARCH_PROTOSS_GROUND_WEAPONS_LEVEL_3, ut::FORGE)), true),
    ]
}

/// Charge at the twilight council, and a forge with the three weapon
/// upgrades in turn.
pub fn get_charge_and_plus_one() -> (r: Result<TreePointer, TreeError>)
    ensures
        r matches Ok(p) && p.tree.wf() && p.tree.nodes() == charge_and_plus_one_nodes()
            && p.tree.parent_links() == charge_and_plus_one_parents()
            && p.index == 5,
{
    let p = TreePointer::new().empty_root(None)?;
    let p = p.leaf(
        "charge",
        single(BuildCondition::StructureComplete(ut::TWILIGHT_COUNCIL), ConditionOperator::All).as_slice(),
        single(BuildCondition::TechComplete(up::CHARGE), ConditionOperator::All).as_slice(),
        false,
        Some(BuildOrderAction::Research(up::CHARGE, ab::RESEARCH_CHARGE, ut::TWILIGHT_COUNCIL)),
        true,
    )?;
    let p = p.child(
        "forge",
        single(BuildCondition::AtLeastCount(ut::TWILIGHT_COUNCIL, 1), ConditionOperator::All).as_slice(),
        single(BuildCondition::AtLeastCount(ut::FORGE, 1), ConditionOperator::All).as_slice(),
        false,
        Some(BuildOrderAction::Construct(ut::FORGE)),
        true,
    )?;
    let p = p.child(
        "plus 1",
        single(BuildCondition::StructureComplete(ut::TWILIGHT_COUNCIL), ConditionOperator::All).as_slice(),
        single(BuildCondition::TechComplete(up::PROTOSS_GROUND_WEAPONS_LEVEL_1), ConditionOperator::All).as_slice(),
        false,
        Some(BuildOrderAction::Research(up::PROTOSS_GROUND_WEAPONS_LEVEL_1, ab::FORGE_RESEARCH_PROTOSS_GROUND_WEAPONS_LEVEL_1, ut::FORGE)),
        true,
    )?;
    let p = p.child(
        "plus 2",
        single(BuildCondition::TechComplete(up::PROTOSS_GROUND_WEAPONS_LEVEL_1), ConditionOperator::All).as_slice(),
        single(BuildCondition::TechComplete(up::PROTOSS_GROUND_WEAPONS_LEVEL_2), ConditionOperator::All).as_slice(),
        false,
        Some(BuildOrderAction::Research(up::PROTOSS_GROUND_WEAPONS_LEVEL_2, ab::FORGE_RESEARCH_PROTOSS_GROUND_WEAPONS_LEVEL_2, ut::FORGE)),
        true,
    )?;
    let p = p.child(
        "plus 3",
        single(BuildCondition::TechComplete(up::PROTOSS_GROUND_WEAPONS_LEVEL_2), ConditionOperator::All).as_slice(),
        single(BuildCondition::TechComplete(up::PROTOSS_GROUND_WEAPONS_LEVEL_3), ConditionOperator::All).as_slice(),
        false,
        Some(BuildOrderAction::Research(up::PROTOSS_GROUND_WEAPONS_LEVEL_3, ab::FORGE_RESEARCH_PROTOSS_GROUND_WEAPONS_LEVEL_3, ut::FORGE)),
        true,
    )?;
    proof {
        assert(p.tree.nodes() =~= charge_and_plus_one_nodes());
        assert(p.tree.parent_links() =~= charge_and_plus_one_parents());
    }
    Ok(p)
}


/// The opener's links: a chain down to the nexus, with the probes to 38 and
/// the gateways both under it.
pub open spec fn nexus_first_parents() -> Seq<Option<usize>> {
    seq![None, Some(0usize), Some(1usize), Some(2usize), Some(2usize)]
}

/// The links up to the twilight council.
pub open spec fn straight_to_twilight_parents() -> Seq<Option<usize>> {
    seq![None, Some(0usize), Some(1usize), Some(1usize)]
}

/// The army's links: one chain.
pub open spec fn make_units_parents() -> Seq<Option<usize>> {
    seq![None, Some(0usize), Some(1usize), Some(2usize), Some(3usize)]
}

/// The upgrades' links.
pub open spec fn charge_and_plus_one_parents() -> Seq<Option<usize>> {
    seq![None, Some(0usize), Some(0usize), Some(2usize), Some(3usize), Some(4usize)]
}

/// Grafting a forest onto a forest that may already have been refused.
pub open spec fn graft_onto(
    t: Option<(Seq<ComponentView>, Seq<Option<usize>>)>,
    other_nodes: Seq<ComponentView>,
    other_parents: Seq<Option<usize>>,
    at: usize,
) -> Option<(Seq<ComponentView>, Seq<Option<usize>>)> {
    match t {
        None => None,
        Some(t) => grafted(t.0, t.1, other_nodes, other_parents, bfs_order(other_parents), at),
    }
}

/// The full build: the opener with a shown "graft" root after it, and
/// below that root the army, the way to the twilight council and the
/// upgrades, grafted in that order.
pub open spec fn two_base_charge_tree() -> Option<(Seq<ComponentView>, Seq<Option<usize>>)> {
    let base = (
        nexus_first_nodes().push(fresh_component("graft"@, Seq::empty(), Seq::empty(), false, None, true)),
        nexus_first_parents().push(None),
    );
    let t1 = graft_onto(Some(base), make_units_nodes(), make_units_parents(), 5);
    let t2 = graft_onto(t1, straight_to_twilight_nodes(), straight_to_twilight_parents(), 5);
    graft_onto(t2, charge_and_plus_one_nodes(), charge_and_plus_one_parents(), 5)
}

/// Nexus first, then warp gates, then the twilight council and charge,
/// with units all along: the opener, and under a "graft" root the army,
/// the tech and the upgrades.
pub fn nexus_first_two_base_charge() -> (r: Result<BuildOrderTree, TreeError>)
    ensures
        two_base_charge_tree() is None ==> r == Err::<BuildOrderTree, TreeError>(TreeError::NodeNotInTree),
        two_base_charge_tree() matches Some(t) ==> (r matches Ok(tree) && tree.wf() && tree.nodes() == t.0 && tree.parent_links() == t.1),
{
    let p = nexus_first()?;
    let p = p.empty_root(Some("graft"))?;
    proof {
        assert(p.tree.parent_links() =~= nexus_first_parents().push(None));
    }
    let units = make_units()?;
    let p = p.subtree(units)?;
    let tech = straight_to_twilight()?;
    let p = p.subtree(tech)?;
    let upgrades = get_charge_and_plus_one()?;
    let p = p.subtree(upgrades)?;
    Ok(p.tree)
}

} // verus!
