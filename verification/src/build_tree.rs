//! Build orders as a forest of components: each component has conditions
//! that start it and conditions that complete it, an action, and a state.
//! Components are numbered in the order they were added; a component's
//! parent always has a smaller number.
use crate::chatter::ChatAction;
use crate::ids::{Ability, UnitType, Upgrade};
use vstd::prelude::*;

verus! {

/// A fact about the game that a build order waits for.
#[derive(Debug, Clone, Copy, PartialEq, Eq, Structural)]
pub enum BuildCondition {
    /// At least this much supply is used.
    SupplyAtLeast(u32),
    /// Used supply is at least the first and below the second.
    SupplyBetween(u32, u32),
    /// Less than this much supply is left.
    SupplyLeftBelow(u32),
    /// The upgrade is done.
    TechComplete(Upgrade),
    /// A structure of this type is finished.
    StructureComplete(UnitType),
    /// Fewer than this many of the type, finished or on the way.
    LessThanCount(UnitType, usize),
    /// At least this many of the type, finished or on the way.
    AtLeastCount(UnitType, usize),
    /// None of the type is finished.
    DontHaveAnyDone(UnitType),
    /// None of the type is on the way.
    DontHaveAnyStarted(UnitType),
    /// Always holds.
    Always,
    /// Never holds.
    Never,
    /// At least this many of the type, finished and on the way together.
    TotalAndOrderedAtLeast(UnitType, usize),
}

/// Something a build order does.
#[derive(Debug, Clone, Copy, PartialEq, Eq, Structural)]
pub enum BuildOrderAction {
    /// Train the unit with the ability.
    Train(UnitType, Ability),
    /// Construct a building of the type.
    Construct(UnitType),
    /// Chrono-boost whatever uses the ability.
    Chrono(Ability),
    /// Chrono-boost any structure of the type.
    ChronoWhatever(UnitType),
    /// Research the upgrade with the ability at a structure of the type.
    Research(Upgrade, Ability, UnitType),
    /// Take a new base.
    Expand,
    /// Say something.
    Chat(ChatAction),
    /// Give up.
    Surrender,
}

/// How far a component has come.
#[derive(Debug, Clone, Copy, PartialEq, Eq, Structural)]
pub enum ComponentState {
    NotYetStarted,
    Active,
    Completed,
    Restricted,
}

/// The mark shown for a state.
pub open spec fn state_icon(s: ComponentState) -> Seq<char> {
    match s {
        ComponentState::NotYetStarted => "\u{2796}"@,
        ComponentState::Active => "\u{23f3}"@,
        ComponentState::Completed => "\u{2705}"@,
        ComponentState::Restricted => "\u{274c}"@,
    }
}

impl ComponentState {
    /// The mark shown for the state.
    pub fn icon(&self) -> (s: &'static str)
        ensures
            s@ == state_icon(*self),
    {
        match self {
            ComponentState::NotYetStarted => "\u{2796}",
            ComponentState::Active => "\u{23f3}",
            ComponentState::Completed => "\u{2705}",
            ComponentState::Restricted => "\u{274c}",
        }
    }
}

/// How the conditions of a group combine.
#[derive(Debug, Clone, Copy, PartialEq, Eq, Structural)]
pub enum ConditionOperator {
    /// Every condition holds.
    All,
    /// Not every condition holds.
    NotAll,
    /// Some condition holds.
    Any,
    /// No condition holds.
    NoneOf,
    /// Exactly this many conditions hold.
    ExactlyNOf(usize),
}

/// Conditions combined by an operator.
#[derive(Debug)]
pub struct ConditionGroup {
    pub conditions: Vec<BuildCondition>,
    pub operator: ConditionOperator,
}

/// A group as values: its conditions and its operator.
pub type GroupView = (Seq<BuildCondition>, ConditionOperator);

impl View for ConditionGroup {
    type V = GroupView;

    open spec fn view(&self) -> GroupView {
        (self.conditions@, self.operator)
    }
}

/// The conditions, copied.
fn copy_conditions(conditions: &[BuildCondition]) -> (r: Vec<BuildCondition>)
    ensures
        r@ == conditions@,
{
    let mut r: Vec<BuildCondition> = Vec::new();
    let mut i: usize = 0;
    while i < conditions.len()
        invariant
            i <= conditions@.len(),
            r@ == conditions@.subrange(0, i as int),
        decreases conditions@.len() - i,
    {
        r.push(conditions[i]);
        i = i + 1;
        proof { assert(r@ =~= conditions@.subrange(0, i as int)); }
    }
    proof { assert(conditions@.subrange(0, i as int) =~= conditions@); }
    r
}

impl ConditionGroup {
    /// The conditions under the operator.
    pub fn new(conditions: &[BuildCondition], operator: ConditionOperator) -> (g: ConditionGroup)
        ensures
            g@ == (conditions@, operator),
    {
        ConditionGroup { conditions: copy_conditions(conditions), operator }
    }

    /// A copy of the group.
    pub fn duplicate(&self) -> (g: ConditionGroup)
        ensures
            g@ == self@,
    {
        ConditionGroup { conditions: copy_conditions(self.conditions.as_slice()), operator: self.operator }
    }
}

/// The groups, copied.
fn copy_groups(groups: &[ConditionGroup]) -> (r: Vec<ConditionGroup>)
    ensures
        r@.map_values(|g: ConditionGroup| g@) == groups@.map_values(|g: ConditionGroup| g@),
{
    let mut r: Vec<ConditionGroup> = Vec::new();
    let mut i: usize = 0;
    while i < groups.len()
        invariant
            i <= groups@.len(),
            r@.len() == i,
            forall|k: int| 0 <= k < i ==> (#[trigger] r@[k])@ == groups@[k]@,
        decreases groups@.len() - i,
    {
        r.push(groups[i].duplicate());
        i = i + 1;
    }
    proof {
        assert(r@.map_values(|g: ConditionGroup| g@) =~= groups@.map_values(|g: ConditionGroup| g@));
    }
    r
}

/// An element of a build order: what starts it, what completes it, whether
/// it holds back what follows, what it does, whether it is shown, and how
/// far it has come.
#[derive(Debug)]
pub struct BuildComponent {
    pub name: String,
    pub start_when: Vec<ConditionGroup>,
    pub complete_when: Vec<ConditionGroup>,
    pub restrictive: bool,
    pub action: Option<BuildOrderAction>,
    pub display: bool,
    pub state: ComponentState,
}

/// A component as values.
pub type ComponentView = (Seq<char>, Seq<GroupView>, Seq<GroupView>, bool, Option<BuildOrderAction>, bool, ComponentState);

impl View for BuildComponent {
    type V = ComponentView;

    open spec fn view(&self) -> ComponentView {
        (
            self.name@,
            self.start_when@.map_values(|g: ConditionGroup| g@),
            self.complete_when@.map_values(|g: ConditionGroup| g@),
            self.restrictive,
            self.action,
            self.display,
            self.state,
        )
    }
}

impl BuildComponent {
    /// A component that has not started yet.
    pub fn new(
        name: &str,
        start: &[ConditionGroup],
        end: &[ConditionGroup],
        restrictive: bool,
        action: Option<BuildOrderAction>,
        display: bool,
    ) -> (c: BuildComponent)
        ensures
            c@ == (
                name@,
                start@.map_values(|g: ConditionGroup| g@),
                end@.map_values(|g: ConditionGroup| g@),
                restrictive,
                action,
                display,
                ComponentState::NotYetStarted,
            ),
    {
        BuildComponent {
            name: String::from_str(name),
            start_when: copy_groups(start),
            complete_when: copy_groups(end),
            restrictive,
            action,
            display,
            state: ComponentState::NotYetStarted,
        }
    }

    /// What the component does.
    pub fn action(&self) -> (a: Option<BuildOrderAction>)
        ensures
            a == self.action,
    {
        self.action
    }

    /// A copy of the component.
    pub fn duplicate(&self) -> (c: BuildComponent)
        ensures
            c@ == self@,
    {
        BuildComponent {
            name: self.name.clone(),
            start_when: copy_groups(self.start_when.as_slice()),
            complete_when: copy_groups(self.complete_when.as_slice()),
            restrictive: self.restrictive,
            action: self.action,
            display: self.display,
            state: self.state,
        }
    }
}

/// What the conditions read of the game: supply used and left, how many of
/// each type are finished, on the way, and both together, which structure
/// types have a finished building, and which upgrades are done.
#[derive(Debug)]
pub struct GameFacts {
    pub supply_used: u32,
    pub supply_left: u32,
    pub done: Vec<(UnitType, usize)>,
    pub ordered: Vec<(UnitType, usize)>,
    pub all: Vec<(UnitType, usize)>,
    pub ready_structures: Vec<UnitType>,
    pub upgrades_done: Vec<Upgrade>,
}

/// The count filed for `u` (the first entry for it), or zero.
pub open spec fn tally(s: Seq<(UnitType, usize)>, u: UnitType) -> usize
    decreases s.len(),
{
    if s.len() == 0 {
        0
    } else if s[0].0 == u {
        s[0].1
    } else {
        tally(s.drop_first(), u)
    }
}

/// The count filed for `u`, or zero.
fn tally_of(s: &Vec<(UnitType, usize)>, u: UnitType) -> (n: usize)
    ensures
        n == tally(s@, u),
{
    let mut i: usize = 0;
    proof { assert(s@.subrange(0, s@.len() as int) =~= s@); }
    while i < s.len()
        invariant
            i <= s@.len(),
            tally(s@, u) == tally(s@.subrange(i as int, s@.len() as int), u),
        decreases s@.len() - i,
    {
        proof {
            assert(s@.subrange(i as int, s@.len() as int).drop_first() =~= s@.subrange(i as int + 1, s@.len() as int));
        }
        if s[i].0 == u {
            return s[i].1;
        }
        i = i + 1;
    }
    0
}

/// Whether `v` holds `x`.
fn holds(v: &Vec<u32>, x: u32) -> (b: bool)
    ensures
        b == v@.contains(x),
{
    let mut i: usize = 0;
    while i < v.len()
        invariant
            i <= v@.len(),
            forall|k: int| 0 <= k < i ==> v@[k] != x,
        decreases v@.len() - i,
    {
        if v[i] == x {
            return true;
        }
        i = i + 1;
    }
    false
}

/// Whether a condition holds of the game.
pub open spec fn condition_holds(c: BuildCondition, f: GameFacts) -> bool {
    match c {
        BuildCondition::DontHaveAnyDone(u) => tally(f.done@, u) == 0,
        BuildCondition::DontHaveAnyStarted(u) => tally(f.ordered@, u) == 0,
        BuildCondition::SupplyAtLeast(s) => f.supply_used >= s,
        BuildCondition::SupplyBetween(low, high) => f.supply_used >= low && f.supply_used < high,
        BuildCondition::LessThanCount(u, n) => tally(f.all@, u) < n,
        BuildCondition::SupplyLeftBelow(r) => f.supply_left < r,
        BuildCondition::StructureComplete(u) => f.ready_structures@.contains(u),
        BuildCondition::TechComplete(up) => f.upgrades_done@.contains(up),
        BuildCondition::AtLeastCount(u, n) => tally(f.all@, u) >= n,
        BuildCondition::Always => true,
        BuildCondition::Never => false,
        BuildCondition::TotalAndOrderedAtLeast(u, n) => tally(f.all@, u) >= n,
    }
}

/// Whether a condition holds of the game.
pub fn evaluate_condition(c: &BuildCondition, f: &GameFacts) -> (b: bool)
    ensures
        b == condition_holds(*c, *f),
{
    match *c {
        BuildCondition::DontHaveAnyDone(u) => tally_of(&f.done, u) == 0,
        BuildCondition::DontHaveAnyStarted(u) => tally_of(&f.ordered, u) == 0,
        BuildCondition::SupplyAtLeast(s) => f.supply_used >= s,
        BuildCondition::SupplyBetween(low, high) => f.supply_used >= low && f.supply_used < high,
        BuildCondition::LessThanCount(u, n) => tally_of(&f.all, u) < n,
        BuildCondition::SupplyLeftBelow(r) => f.supply_left < r,
        BuildCondition::StructureComplete(u) => holds(&f.ready_structures, u),
        BuildCondition::TechComplete(up) => holds(&f.upgrades_done, up),
        BuildCondition::AtLeastCount(u, n) => tally_of(&f.all, u) >= n,
        BuildCondition::Always => true,
        BuildCondition::Never => false,
        BuildCondition::TotalAndOrderedAtLeast(u, n) => tally_of(&f.all, u) >= n,
    }
}

/// How many of the conditions hold.
pub open spec fn holding_count(cs: Seq<BuildCondition>, f: GameFacts) -> nat
    decreases cs.len(),
{
    if cs.len() == 0 {
        0
    } else {
        holding_count(cs.drop_last(), f) + if condition_holds(cs.last(), f) { 1nat } else { 0nat }
    }
}

/// Whether a group holds: its conditions combined by its operator.
pub open spec fn group_holds(g: GroupView, f: GameFacts) -> bool {
    let cs = g.0;
    match g.1 {
        ConditionOperator::All => forall|i: int| 0 <= i < cs.len() ==> #[trigger] condition_holds(cs[i], f),
        ConditionOperator::NotAll => !(forall|i: int| 0 <= i < cs.len() ==> #[trigger] condition_holds(cs[i], f)),
        ConditionOperator::Any => exists|i: int| 0 <= i < cs.len() && #[trigger] condition_holds(cs[i], f),
        ConditionOperator::NoneOf => forall|i: int| 0 <= i < cs.len() ==> !#[trigger] condition_holds(cs[i], f),
        ConditionOperator::ExactlyNOf(n) => holding_count(cs, f) == n,
    }
}

/// Whether every group holds.
pub open spec fn groups_hold(gs: Seq<GroupView>, f: GameFacts) -> bool {
    forall|i: int| 0 <= i < gs.len() ==> #[trigger] group_holds(gs[i], f)
}

/// Whether a group of conditions holds of the game.
pub fn evaluate_condition_group(condition_group: &ConditionGroup, f: &GameFacts) -> (b: bool)
    ensures
        b == group_holds(condition_group@, *f),
{
    let cs = &condition_group.conditions;
    let mut all = true;
    let mut any = false;
    let mut count: usize = 0;
    let mut i: usize = 0;
    while i < cs.len()
        invariant
            i <= cs@.len(),
            all == (forall|k: int| 0 <= k < i ==> #[trigger] condition_holds(cs@[k], *f)),
            any == (exists|k: int| 0 <= k < i && #[trigger] condition_holds(cs@[k], *f)),
            count == holding_count(cs@.subrange(0, i as int), *f),
            count <= i,
        decreases cs@.len() - i,
    {
        let b = evaluate_condition(&cs[i], f);
        proof {
            assert(cs@.subrange(0, i as int + 1).drop_last() =~= cs@.subrange(0, i as int));
            assert(cs@.subrange(0, i as int + 1).last() == cs@[i as int]);
        }
        if b {
            any = true;
            count = count + 1;
        } else {
            all = false;
        }
        i = i + 1;
    }
    proof {
        assert(cs@.subrange(0, i as int) =~= cs@);
        assert(condition_group@.0 == cs@);
    }
    match condition_group.operator {
        ConditionOperator::All => {
            proof {
                assert(all == (forall|k: int| 0 <= k < cs@.len() ==> #[trigger] condition_holds(cs@[k], *f)));
            }
            all
        },
        ConditionOperator::NotAll => !all,
        ConditionOperator::Any => any,
        ConditionOperator::NoneOf => {
            proof {
                if !any {
                    assert forall|k: int| 0 <= k < cs@.len() implies !#[trigger] condition_holds(cs@[k], *f) by {
                        if condition_holds(cs@[k], *f) {
                            assert(exists|j: int| 0 <= j < i && #[trigger] condition_holds(cs@[j], *f));
                        }
                    }
                }
            }
            !any
        },
        ConditionOperator::ExactlyNOf(n) => count == n,
    }
}

/// Whether a component is complete: every one of its completing groups
/// holds.
pub fn evaluate_build_component(component: &BuildComponent, f: &GameFacts) -> (b: bool)
    ensures
        b == groups_hold(component@.2, *f),
{
    let gs = &component.complete_when;
    let mut i: usize = 0;
    while i < gs.len()
        invariant
            i <= gs@.len(),
            component@.2 == gs@.map_values(|g: ConditionGroup| g@),
            forall|k: int| 0 <= k < i ==> #[trigger] group_holds(gs@[k]@, *f),
        decreases gs@.len() - i,
    {
        if !evaluate_condition_group(&gs[i], f) {
            proof { assert(component@.2[i as int] == gs@[i as int]@); }
            return false;
        }
        i = i + 1;
    }
    proof {
        assert forall|k: int| 0 <= k < component@.2.len() implies #[trigger] group_holds(component@.2[k], *f) by {
            assert(component@.2[k] == gs@[k]@);
        }
    }
    true
}


/// Why a change to a tree was refused.
#[derive(Debug, Clone, Copy, PartialEq, Eq, Structural)]
pub enum TreeError {
    TreeNotEmpty,
    /// The node named is not in the tree.
    NodeNotInTree,
}

/// A forest of build components. Components are numbered in the order they
/// were added, and each one's parent, if it has one, was added before it.
pub struct BuildOrderTree {
    components: Vec<BuildComponent>,
    parents: Vec<Option<usize>>,
}

/// Every parent comes before its child.
pub open spec fn links_ok(parents: Seq<Option<usize>>) -> bool {
    forall|i: int| 0 <= i < parents.len() ==> (#[trigger] parents[i] matches Some(p) ==> p < i)
}

/// Where `v` stands in `order`.
pub open spec fn place(order: Seq<usize>, v: usize) -> int {
    order.index_of(v)
}

/// Whether node `a` comes before node `b` in breadth-first order, given
/// where the nodes stand: roots first by number, then every other node by
/// where its parent stands, siblings by number.
pub open spec fn bfs_before(parents: Seq<Option<usize>>, order: Seq<usize>, a: usize, b: usize) -> bool {
    match (parents[a as int], parents[b as int]) {
        (None, None) => a < b,
        (None, Some(_)) => true,
        (Some(_), None) => false,
        (Some(pa), Some(pb)) => place(order, pa) < place(order, pb) || (pa == pb && a < b),
    }
}

/// `order` lists every node of a forest with `parents` once, in
/// breadth-first order.
pub open spec fn is_bfs_order(parents: Seq<Option<usize>>, order: Seq<usize>) -> bool {
    &&& order.len() == parents.len()
    &&& order.no_duplicates()
    &&& forall|k: int| 0 <= k < order.len() ==> #[trigger] order[k] < parents.len()
    &&& forall|a: int, b: int| 0 <= a < b < order.len() ==> bfs_before(parents, order, #[trigger] order[a], #[trigger] order[b])
}

/// Node `x` has a parent, listed in `order` before position `limit`.
pub open spec fn parent_placed(ps: Seq<Option<usize>>, order: Seq<usize>, x: usize, limit: int) -> bool {
    match ps[x as int] {
        Some(p) => order.contains(p) && place(order, p) < limit,
        None => false,
    }
}

/// A list of distinct numbers below `n` is at most `n` long.
proof fn lemma_distinct_bounded(s: Seq<usize>, n: nat)
    requires
        s.no_duplicates(),
        forall|k: int| 0 <= k < s.len() ==> #[trigger] s[k] < n,
    ensures
        s.len() <= n,
    decreases n,
{
    if n == 0 {
        if s.len() > 0 {
            assert(s[0] < n);
        }
    } else {
        let top = (n - 1) as usize;
        if s.contains(top) {
            let j = s.index_of(top);
            let t = s.remove(j);
            assert forall|a: int, b: int| 0 <= a < t.len() && 0 <= b < t.len() && a != b implies t[a] != t[b] by {
                let sa = if a < j { a } else { a + 1 };
                let sb = if b < j { b } else { b + 1 };
                assert(t[a] == s[sa] && t[b] == s[sb]);
            }
            assert forall|k: int| 0 <= k < t.len() implies #[trigger] t[k] < n - 1 by {
                let sk = if k < j { k } else { k + 1 };
                assert(t[k] == s[sk]);
                assert(s[sk] != s[j]);
            }
            lemma_distinct_bounded(t, (n - 1) as nat);
        } else {
            assert forall|k: int| 0 <= k < s.len() implies #[trigger] s[k] < n - 1 by {
                assert(s[k] < n);
                if s[k] == top {
                    assert(s.contains(top));
                }
            }
            lemma_distinct_bounded(s, (n - 1) as nat);
        }
    }
}

impl BuildOrderTree {
    /// The components, by number.
    pub closed spec fn nodes(&self) -> Seq<ComponentView> {
        self.components@.map_values(|c: BuildComponent| c@)
    }

    /// Each component's parent, by number.
    pub closed spec fn parent_links(&self) -> Seq<Option<usize>> {
        self.parents@
    }

    /// A parent for each component, each parent before its child.
    pub open spec fn wf(&self) -> bool {
        &&& self.nodes().len() == self.parent_links().len()
        &&& links_ok(self.parent_links())
    }

    /// An empty forest.
    pub fn new() -> (t: BuildOrderTree)
        ensures
            t.wf(),
            t.nodes() == Seq::<ComponentView>::empty(),
            t.parent_links() == Seq::<Option<usize>>::empty(),
    {
        let t = BuildOrderTree { components: Vec::new(), parents: Vec::new() };
        proof { assert(t.nodes() =~= Seq::<ComponentView>::empty()); }
        t
    }

    /// The number of components.
    pub fn len(&self) -> (n: usize)
        requires
            self.wf(),
        ensures
            n == self.nodes().len(),
    {
        self.components.len()
    }

    /// Adds a component under `parent`, or as a new root when there is none;
    /// hands back its number. Refused when the parent is not in the tree.
    pub fn add_node(&mut self, component: BuildComponent, parent: Option<usize>) -> (r: Result<usize, TreeError>)
        requires
            old(self).wf(),
        ensures
            final(self).wf(),
            (parent matches Some(p) && p >= old(self).nodes().len()) ==> r == Err::<usize, TreeError>(TreeError::NodeNotInTree)
                && *final(self) == *old(self),
            !(parent matches Some(p) && p >= old(self).nodes().len()) ==> r == Ok::<usize, TreeError>(old(self).nodes().len() as usize)
                && final(self).nodes() == old(self).nodes().push(component@)
                && final(self).parent_links() == old(self).parent_links().push(parent),
    {
        if let Some(p) = parent {
            if p >= self.components.len() {
                return Err(TreeError::NodeNotInTree);
            }
        }
        let ghost c = component@;
        let n = self.components.len();
        self.components.push(component);
        self.parents.push(parent);
        proof {
            assert(self.nodes() =~= old(self).nodes().push(c));
            assert forall|i: int| 0 <= i < self.parents@.len() implies (#[trigger] self.parents@[i] matches Some(q) ==> q < i) by {
                if i < n {
                    assert(self.parents@[i] == old(self).parents@[i]);
                }
            }
        }
        Ok(n)
    }

    /// The component numbered `node`, if any.
    pub fn get(&self, node: usize) -> (r: Option<&BuildComponent>)
        requires
            self.wf(),
        ensures
            node < self.nodes().len() ==> (r matches Some(c) && c@ == self.nodes()[node as int]),
            node >= self.nodes().len() ==> r is None,
    {
        if node < self.components.len() {
            Some(&self.components[node])
        } else {
            None
        }
    }

    /// The parent of component `node`.
    pub fn parent(&self, node: usize) -> (r: Option<usize>)
        requires
            self.wf(),
            node < self.nodes().len(),
        ensures
            r == self.parent_links()[node as int],
    {
        self.parents[node]
    }

    /// Sets the state of component `index`; refused when there is none.
    pub fn set_state(&mut self, index: usize, state: ComponentState) -> (r: Result<(), TreeError>)
        requires
            old(self).wf(),
        ensures
            final(self).wf(),
            final(self).parent_links() == old(self).parent_links(),
            index < old(self).nodes().len() ==> r is Ok && final(self).nodes() == old(self).nodes().update(
                index as int,
                (old(self).nodes()[index as int].0, old(self).nodes()[index as int].1, old(self).nodes()[index as int].2,
                    old(self).nodes()[index as int].3, old(self).nodes()[index as int].4, old(self).nodes()[index as int].5, state),
            ),
            index >= old(self).nodes().len() ==> r == Err::<(), TreeError>(TreeError::NodeNotInTree) && *final(self) == *old(self),
    {
        if index >= self.components.len() {
            return Err(TreeError::NodeNotInTree);
        }
        let mut c = self.components.remove(index);
        c.state = state;
        self.components.insert(index, c);
        proof {
            assert(self.nodes() =~= old(self).nodes().update(
                index as int,
                (old(self).nodes()[index as int].0, old(self).nodes()[index as int].1, old(self).nodes()[index as int].2,
                    old(self).nodes()[index as int].3, old(self).nodes()[index as int].4, old(self).nodes()[index as int].5, state),
            ));
        }
        Ok(())
    }

    /// The roots, by number.
    fn roots_in_order(&self) -> (out: Vec<usize>)
        requires
            self.wf(),
        ensures
            forall|k: int| 0 <= k < out@.len() ==> #[trigger] out@[k] < self.parents@.len() && self.parents@[out@[k] as int] is None,
            forall|r: usize| r < self.parents@.len() && self.parents@[r as int] is None ==> #[trigger] out@.contains(r),
            forall|a: int, b: int| 0 <= a < b < out@.len() ==> #[trigger] out@[a] < #[trigger] out@[b],
    {
        let n = self.parents.len();
        let mut out: Vec<usize> = Vec::new();
        let mut i: usize = 0;
        while i < n
            invariant
                n == self.parents@.len(),
                i <= n,
                forall|k: int| 0 <= k < out@.len() ==> #[trigger] out@[k] < i && self.parents@[out@[k] as int] is None,
                forall|r: usize| r < i && self.parents@[r as int] is None ==> #[trigger] out@.contains(r),
                forall|a: int, b: int| 0 <= a < b < out@.len() ==> #[trigger] out@[a] < #[trigger] out@[b],
            decreases n - i,
        {
            if self.parents[i].is_none() {
                let ghost prev = out@;
                out.push(i);
                proof {
                    assert(out@[out@.len() - 1] == i);
                    assert forall|r: usize| r < i + 1 && self.parents@[r as int] is None implies #[trigger] out@.contains(r) by {
                        if r < i {
                            assert(prev.contains(r));
                            let k = prev.index_of(r);
                            assert(prev[k] == r);
                            assert(out@[k] == r);
                        }
                    }
                }
            }
            i = i + 1;
        }
        out
    }

    /// Lists the children of the node at position `head`, by number, after
    /// the nodes already listed.
    #[verifier::spinoff_prover]
    fn append_children(&self, out: &mut Vec<usize>, head: usize, Ghost(roots): Ghost<int>)
        requires
            self.wf(),
            bfs_state(self.parents@, old(out)@, roots, head as int),
            head < old(out)@.len(),
        ensures
            bfs_state(self.parents@, final(out)@, roots, head as int + 1),
            final(out)@.len() <= self.parents@.len(),
    {
        let n = self.parents.len();
        let ghost ps = self.parents@;
        let v = out[head];
        let ghost before = out@;
        proof {
            lemma_place(before, head as int);
        }
        let mut c: usize = v + 1;
        while c < n
            invariant
                n == ps.len(),
                ps == self.parents@,
                links_ok(ps),
                bfs_state(ps, before, roots, head as int),
                head < before.len(),
                v == before[head as int],
                place(before, v) == head,
                v < c <= n,
                out@.len() >= before.len(),
                out@.subrange(0, before.len() as int) == before,
                out@.no_duplicates(),
                forall|k: int| 0 <= k < out@.len() ==> #[trigger] out@[k] < n,
                forall|k: int| before.len() <= k < out@.len() ==> #[trigger] ps[out@[k] as int] == Some(v) && out@[k] < c && out@[k] > v,
                forall|x: usize| v < x < c && ps[x as int] == Some(v) ==> #[trigger] out@.contains(x),
                forall|a: int, b: int| 0 <= a < b < out@.len() ==> bfs_before(ps, out@, #[trigger] out@[a], #[trigger] out@[b]),
                forall|y: usize| #[trigger] before.contains(y) ==> place(out@, y) == place(before, y),
            decreases n - c,
        {
            if self.parents[c] == Some(v) {
                let ghost prev = out@;
                proof {
                    if prev.contains(c) {
                        let k = prev.index_of(c);
                        if k < before.len() {
                            assert(before[k] == c);
                            if k < roots {
                                assert(ps[before[k] as int] is None);
                            } else {
                                assert(parent_placed(ps, before, before[k], head as int));
                            }
                        } else {
                            assert(prev[k] < c);
                        }
                    }
                }
                out.push(c);
                proof {
                    assert(out@[out@.len() - 1] == c);
                    assert(out@.subrange(0, before.len() as int) =~= before);
                    assert forall|y: usize| #[trigger] before.contains(y) implies place(out@, y) == place(before, y) by {
                        lemma_place_push(prev, c, y);
                    }
                    assert forall|a: int, b: int| 0 <= a < b < out@.len() implies bfs_before(ps, out@, #[trigger] out@[a], #[trigger] out@[b]) by {
                        if b < prev.len() {
                            assert(out@[a] == prev[a] && out@[b] == prev[b]);
                            assert(bfs_before(ps, prev, prev[a], prev[b]));
                            assert(before.contains(v)) by { assert(before[head as int] == v); }
                            lemma_parent_listed(ps, before, prev, roots, head as int, v, a);
                            lemma_parent_listed(ps, before, prev, roots, head as int, v, b);
                            lemma_before_grows(ps, before, prev, out@, prev[a], prev[b]);
                        } else {
                            assert(out@[b] == c);
                            if a < roots {
                                assert(out@[a] == before[a]);
                            } else if a < before.len() {
                                assert(out@[a] == before[a]);
                                assert(parent_placed(ps, before, before[a], head as int));
                                let pa = ps[before[a] as int]->0;
                                assert(place(out@, pa) == place(before, pa));
                            } else {
                                assert(ps[out@[a] as int] == Some(v));
                            }
                        }
                    }
                    assert forall|x: usize| v < x < c + 1 && ps[x as int] == Some(v) implies #[trigger] out@.contains(x) by {
                        if x < c {
                            assert(prev.contains(x));
                            let k = prev.index_of(x);
                            assert(prev[k] == x);
                            assert(out@[k] == x);
                        }
                    }
                }
            }
            c = c + 1;
        }
        proof {
            let q = out@;
            assert forall|k: int| 0 <= k < before.len() implies #[trigger] q[k] == before[k] by {
                assert(q.subrange(0, before.len() as int)[k] == q[k]);
            }
            assert forall|k: int| 0 <= k < roots implies ps[#[trigger] q[k] as int] is None by {
                assert(q[k] == before[k]);
            }
            assert forall|k: int| roots <= k < q.len() implies parent_placed(ps, q, #[trigger] q[k], head as int + 1) by {
                if k < before.len() {
                    assert(q[k] == before[k]);
                    assert(parent_placed(ps, before, before[k], head as int));
                    let p = ps[before[k] as int]->0;
                    assert(place(q, p) == place(before, p));
                    let j = before.index_of(p);
                    assert(q[j] == p);
                } else {
                    assert(q[head as int] == v);
                    assert(place(q, v) == place(before, v));
                }
            }
            assert forall|r: usize| r < ps.len() && ps[r as int] is None implies #[trigger] q.contains(r) by {
                assert(before.contains(r));
                let k = before.index_of(r);
                assert(before[k] == r);
                assert(q[k] == r);
            }
            assert forall|qi: int, x: usize| #![trigger q[qi], ps[x as int]] 0 <= qi < head + 1 && x < ps.len() && ps[x as int] == Some(q[qi]) implies q.contains(x) by {
                if qi < head {
                    assert(q[qi] == before[qi]);
                    assert(before.contains(x));
                    let k = before.index_of(x);
                    assert(before[k] == x);
                    assert(q[k] == x);
                } else {
                    assert(q[qi] == v);
                    assert(x > v);
                }
            }
            lemma_distinct_bounded(q, n as nat);
            assert(bfs_state(ps, q, roots, head as int + 1));
        }
    }

    /// Every component, each once, in breadth-first order: the roots by
    /// number, then level by level, each node's children by number after
    /// those of the nodes before it.
    pub fn breadth_first(&self) -> (order: Vec<usize>)
        requires
            self.wf(),
        ensures
            is_bfs_order(self.parent_links(), order@),
            order@ == bfs_order(self.parent_links()),
    {
        let n = self.parents.len();
        let ghost ps = self.parents@;
        let mut out = self.roots_in_order();
        let ghost roots = out@.len() as int;
        proof {
            assert(out@.no_duplicates()) by {
                assert forall|a: int, b: int| 0 <= a < out@.len() && 0 <= b < out@.len() && a != b implies out@[a] != out@[b] by {
                    if a < b {
                        assert(out@[a] < out@[b]);
                    } else {
                        assert(out@[b] < out@[a]);
                    }
                }
            }
            assert(bfs_state(ps, out@, roots, 0));
            lemma_distinct_bounded(out@, n as nat);
        }
        let mut head: usize = 0;
        while head < out.len()
            invariant
                n == ps.len(),
                ps == self.parents@,
                self.wf(),
                bfs_state(ps, out@, roots, head as int),
                out@.len() <= n,
            decreases n - head,
        {
            self.append_children(&mut out, head, Ghost(roots));
            head = head + 1;
        }
        proof {
            assert forall|x: usize| x < n implies #[trigger] out@.contains(x) by {
                lemma_all_reached(ps, out@, x as int);
            }
            lemma_covering_len(out@, n);
            lemma_is_the_bfs_order(ps, out@);
        }
        out
    }
}

/// The breadth-first walk so far: the listed nodes are distinct nodes of the
/// forest; the first `roots` are the roots, every later one's parent is
/// listed before position `head`; every root is listed; the children of the
/// first `head` listed nodes are listed; and the list is in breadth-first
/// order.
pub open spec fn bfs_state(ps: Seq<Option<usize>>, q: Seq<usize>, roots: int, head: int) -> bool {
    &&& 0 <= roots <= q.len()
    &&& 0 <= head <= q.len()
    &&& links_ok(ps)
    &&& q.no_duplicates()
    &&& forall|k: int| 0 <= k < q.len() ==> #[trigger] q[k] < ps.len()
    &&& forall|k: int| 0 <= k < roots ==> ps[#[trigger] q[k] as int] is None
    &&& forall|k: int| roots <= k < q.len() ==> parent_placed(ps, q, #[trigger] q[k], head)
    &&& forall|r: usize| r < ps.len() && ps[r as int] is None ==> #[trigger] q.contains(r)
    &&& forall|qi: int, c: usize| #![trigger q[qi], ps[c as int]] 0 <= qi < head && c < ps.len() && ps[c as int] == Some(q[qi]) ==> q.contains(c)
    &&& forall|a: int, b: int| 0 <= a < b < q.len() ==> bfs_before(ps, q, #[trigger] q[a], #[trigger] q[b])
}

/// In a list without repeats, each entry stands at its own position.
proof fn lemma_place(q: Seq<usize>, k: int)
    requires
        q.no_duplicates(),
        0 <= k < q.len(),
    ensures
        place(q, q[k]) == k,
        q.contains(q[k]),
{
    assert(q[k] == q[k]);
    let i = q.index_of(q[k]);
    assert(q[i] == q[k]);
}

/// Appending an entry leaves where the earlier ones stand.
proof fn lemma_place_push(q: Seq<usize>, x: usize, y: usize)
    requires
        q.push(x).no_duplicates(),
        q.contains(y),
    ensures
        place(q.push(x), y) == place(q, y),
{
    let k = q.index_of(y);
    assert(q[k] == y);
    assert(q.push(x)[k] == y);
    let j = q.push(x).index_of(y);
    assert(q.push(x)[j] == y);
}

/// The parent of a listed node other than a root is itself listed among
/// the nodes listed before the current step.
proof fn lemma_parent_listed(ps: Seq<Option<usize>>, before: Seq<usize>, prev: Seq<usize>, roots: int, head: int, v: usize, k: int)
    requires
        bfs_state(ps, before, roots, head),
        before.contains(v),
        0 <= k < prev.len(),
        prev.len() >= before.len(),
        prev.subrange(0, before.len() as int) == before,
        forall|j: int| before.len() <= j < prev.len() ==> #[trigger] ps[prev[j] as int] == Some(v) && prev[j] > v,
    ensures
        ps[prev[k] as int] matches Some(p) ==> before.contains(p),
{
    if k < before.len() {
        assert(prev[k] == prev.subrange(0, before.len() as int)[k]);
        assert(prev[k] == before[k]);
        if k >= roots {
            assert(parent_placed(ps, before, before[k], head));
        }
    } else {
        assert(ps[prev[k] as int] == Some(v) && prev[k] > v);
    }
}

/// Two listed nodes keep their order when the list grows, as long as the
/// parents that decide it were listed already.
proof fn lemma_before_grows(ps: Seq<Option<usize>>, before: Seq<usize>, prev: Seq<usize>, now: Seq<usize>, a: usize, b: usize)
    requires
        bfs_before(ps, prev, a, b),
        forall|y: usize| #[trigger] before.contains(y) ==> place(now, y) == place(before, y),
        forall|y: usize| #[trigger] before.contains(y) ==> place(prev, y) == place(before, y),
        ps[a as int] matches Some(pa) ==> before.contains(pa),
        ps[b as int] matches Some(pb) ==> before.contains(pb),
    ensures
        bfs_before(ps, now, a, b),
{
}

/// When roots are listed and every listed node's children are listed, every
/// node is listed.
proof fn lemma_all_reached(ps: Seq<Option<usize>>, out: Seq<usize>, x: int)
    requires
        links_ok(ps),
        0 <= x < ps.len(),
        forall|r: int| 0 <= r < ps.len() && ps[r] is None ==> out.contains(r as usize),
        forall|q: int, c: int| #![trigger out[q], ps[c]] 0 <= q < out.len() && 0 <= c < ps.len() && ps[c] == Some(out[q]) ==> out.contains(c as usize),
    ensures
        out.contains(x as usize),
    decreases x,
{
    match ps[x] {
        None => {},
        Some(p) => {
            assert(p < x);
            lemma_all_reached(ps, out, p as int);
            let q = out.index_of(p);
            assert(out[q] == p);
        },
    }
}

/// A list of distinct numbers below `n` that holds each of them is `n` long.
proof fn lemma_covering_len(s: Seq<usize>, n: usize)
    requires
        s.no_duplicates(),
        forall|k: int| 0 <= k < s.len() ==> #[trigger] s[k] < n,
        forall|x: usize| x < n ==> #[trigger] s.contains(x),
    ensures
        s.len() == n,
{
    lemma_distinct_bounded(s, n as nat);
    let idx = Seq::new(n as nat, |x: int| s.index_of(x as usize) as usize);
    assert forall|a: int, b: int| 0 <= a < idx.len() && 0 <= b < idx.len() && a != b implies idx[a] != idx[b] by {
        assert(s.contains(a as usize));
        assert(s.contains(b as usize));
        assert(s[s.index_of(a as usize)] == a as usize);
        assert(s[s.index_of(b as usize)] == b as usize);
    }
    assert forall|k: int| 0 <= k < idx.len() implies #[trigger] idx[k] < s.len() by {
        assert(s.contains(k as usize));
    }
    lemma_distinct_bounded(idx, s.len());
}


/// `n` dashes.
pub open spec fn dashes(n: nat) -> Seq<char> {
    Seq::new(n, |i: int| '-')
}

/// The line of a component at `depth`: a dash per level, its name and the
/// mark of its state.
pub open spec fn node_line(c: ComponentView, depth: nat) -> Seq<char> {
    dashes(depth) + c.0 + state_icon(c.6) + seq!['\n']
}

/// The lines of the subtree under node `v` at `depth`: its own line, then
/// the subtrees of its children, newest child first.
pub open spec fn subtree_text(nodes: Seq<ComponentView>, parents: Seq<Option<usize>>, v: int, depth: nat) -> Seq<char>
    decreases nodes.len() - v, 1int, 0int,
{
    if 0 <= v < nodes.len() {
        node_line(nodes[v], depth) + kids_text(nodes, parents, v, nodes.len() - 1, depth + 1)
    } else {
        Seq::empty()
    }
}

/// The subtrees, one level down, of the children of `v` numbered from `k`
/// down to just above `v`.
pub open spec fn kids_text(nodes: Seq<ComponentView>, parents: Seq<Option<usize>>, v: int, k: int, depth: nat) -> Seq<char>
    decreases nodes.len() - v, 0int, k,
{
    if v < 0 || k <= v || k >= nodes.len() || k >= parents.len() {
        Seq::empty()
    } else {
        (if parents[k] == Some(v as usize) { subtree_text(nodes, parents, k, depth) } else { Seq::empty() })
            + kids_text(nodes, parents, v, k - 1, depth)
    }
}

/// The subtrees of the roots numbered from `k` on, in order.
pub open spec fn roots_text(nodes: Seq<ComponentView>, parents: Seq<Option<usize>>, k: int) -> Seq<char>
    decreases nodes.len() - k,
{
    if k < 0 || k >= nodes.len() || k >= parents.len() {
        Seq::empty()
    } else {
        (if parents[k] is None { subtree_text(nodes, parents, k, 0) } else { Seq::empty() })
            + roots_text(nodes, parents, k + 1)
    }
}

impl BuildOrderTree {
    /// The forest as text: each root's subtree, roots in order; a node's
    /// line is a dash per level, its name and the mark of its state.
    pub open spec fn text(&self) -> Seq<char> {
        roots_text(self.nodes(), self.parent_links(), 0)
    }

    fn write_subtree(&self, out: &mut String, v: usize, depth: usize)
        requires
            self.wf(),
            v < self.nodes().len(),
            depth <= v,
        ensures
            final(out)@ == old(out)@ + subtree_text(self.nodes(), self.parent_links(), v as int, depth as nat),
        decreases self.nodes().len() - v, 1int, 0int,
    {
        let mut i: usize = 0;
        while i < depth
            invariant
                i <= depth,
                out@ == old(out)@ + dashes(i as nat),
            decreases depth - i,
        {
            out.append("-");
            proof {
                reveal_strlit("-");
                assert(old(out)@ + dashes(i as nat + 1) =~= old(out)@ + dashes(i as nat) + "-"@);
            }
            i = i + 1;
        }
        out.append(self.components[v].name.as_str());
        out.append(self.components[v].state.icon());
        out.append("\n");
        proof {
            reveal_strlit("\n");
            assert(self.nodes()[v as int] == self.components@[v as int]@);
            assert(out@ =~= old(out)@ + node_line(self.nodes()[v as int], depth as nat));
        }
        let n = self.components.len();
        self.write_kids(out, v, n - 1, depth + 1);
        proof {
            assert(final(out)@ =~= old(out)@ + subtree_text(self.nodes(), self.parent_links(), v as int, depth as nat));
        }
    }

    fn write_kids(&self, out: &mut String, v: usize, k: usize, depth: usize)
        requires
            self.wf(),
            v < self.nodes().len(),
            k < self.nodes().len(),
            depth <= v + 1,
        ensures
            final(out)@ == old(out)@ + kids_text(self.nodes(), self.parent_links(), v as int, k as int, depth as nat),
        decreases self.nodes().len() - v, 0int, k,
    {
        if k <= v {
            assert(old(out)@ + Seq::<char>::empty() =~= old(out)@);
            return;
        }
        let ghost start = out@;
        if self.parents[k] == Some(v) {
            self.write_subtree(out, k, depth);
        } else {
            assert(out@ =~= start + Seq::<char>::empty());
        }
        let ghost mid = out@;
        self.write_kids(out, v, k - 1, depth);
        proof {
            assert(final(out)@ =~= old(out)@ + kids_text(self.nodes(), self.parent_links(), v as int, k as int, depth as nat));
        }
    }

    /// The forest as text, one line per component.
    pub fn to_text(&self) -> (s: String)
        requires
            self.wf(),
        ensures
            s@ == self.text(),
    {
        let n = self.components.len();
        let mut out = String::new();
        let mut k: usize = 0;
        while k < n
            invariant
                self.wf(),
                n == self.nodes().len(),
                k <= n,
                out@ + roots_text(self.nodes(), self.parent_links(), k as int) == self.text(),
            decreases n - k,
        {
            let ghost before = out@;
            if self.parents[k].is_none() {
                self.write_subtree(&mut out, k, 0);
            }
            proof {
                assert(before + roots_text(self.nodes(), self.parent_links(), k as int)
                    =~= out@ + roots_text(self.nodes(), self.parent_links(), k as int + 1));
            }
            k = k + 1;
        }
        proof {
            assert(out@ + roots_text(self.nodes(), self.parent_links(), k as int) =~= out@);
        }
        out
    }
}


/// The component with its state replaced.
pub open spec fn with_state(c: ComponentView, state: ComponentState) -> ComponentView {
    (c.0, c.1, c.2, c.3, c.4, c.5, state)
}

/// Whether node `i` lies below node `of`: its parent is `of` or lies below it.
pub open spec fn is_descendant(parents: Seq<Option<usize>>, i: int, of: int) -> bool
    decreases i,
{
    if 0 <= i < parents.len() {
        match parents[i] {
            Some(p) => p == of || (p < i && is_descendant(parents, p as int, of)),
            None => false,
        }
    } else {
        false
    }
}

impl BuildOrderTree {
    /// Marks every component below `of_node` restricted.
    pub fn restrict_descendants(&mut self, of_node: usize)
        requires
            old(self).wf(),
        ensures
            final(self).wf(),
            final(self).parent_links() == old(self).parent_links(),
            final(self).nodes().len() == old(self).nodes().len(),
            forall|i: int| 0 <= i < old(self).nodes().len() ==> #[trigger] final(self).nodes()[i] == if is_descendant(old(self).parent_links(), i, of_node as int) {
                with_state(old(self).nodes()[i], ComponentState::Restricted)
            } else {
                old(self).nodes()[i]
            },
    {
        let n = self.parents.len();
        let ghost ps = self.parents@;
        let mut below: Vec<bool> = Vec::new();
        let mut i: usize = 0;
        while i < n
            invariant
                n == ps.len(),
                ps == self.parents@,
                links_ok(ps),
                i <= n,
                below@.len() == i,
                forall|j: int| 0 <= j < i ==> #[trigger] below@[j] == is_descendant(ps, j, of_node as int),
            decreases n - i,
        {
            let b = match self.parents[i] {
                Some(p) => p == of_node || below[p],
                None => false,
            };
            below.push(b);
            i = i + 1;
        }
        let mut k: usize = 0;
        while k < n
            invariant
                n == ps.len(),
                ps == self.parents@,
                self.wf(),
                self.nodes().len() == old(self).nodes().len(),
                ps == old(self).parent_links(),
                below@.len() == n,
                forall|j: int| 0 <= j < n ==> #[trigger] below@[j] == is_descendant(ps, j, of_node as int),
                k <= n,
                forall|j: int| 0 <= j < n ==> #[trigger] self.nodes()[j] == if j < k && is_descendant(ps, j, of_node as int) {
                    with_state(old(self).nodes()[j], ComponentState::Restricted)
                } else {
                    old(self).nodes()[j]
                },
            decreases n - k,
        {
            if below[k] {
                let _ = self.set_state(k, ComponentState::Restricted);
            }
            k = k + 1;
        }
    }

    /// Moves component `index` on: completed when its completing groups all
    /// hold, active otherwise; hands back the component. `None` when there
    /// is no such component.
    pub fn update_component(&mut self, index: usize, f: &GameFacts) -> (r: Option<&BuildComponent>)
        requires
            old(self).wf(),
        ensures
            final(self).wf(),
            final(self).parent_links() == old(self).parent_links(),
            index >= old(self).nodes().len() ==> r is None && *final(self) == *old(self),
            index < old(self).nodes().len() ==> final(self).nodes() == old(self).nodes().update(
                index as int,
                with_state(
                    old(self).nodes()[index as int],
                    if groups_hold(old(self).nodes()[index as int].2, *f) { ComponentState::Completed } else { ComponentState::Active },
                ),
            ) && (r matches Some(c) && c@ == final(self).nodes()[index as int]),
    {
        if index >= self.components.len() {
            return None;
        }
        let end = evaluate_build_component(&self.components[index], f);
        proof { assert(self.nodes()[index as int] == self.components@[index as int]@); }
        let should_activate = !end;
        if should_activate {
            let _ = self.set_state(index, ComponentState::Active);
        } else if end {
            let _ = self.set_state(index, ComponentState::Completed);
        }
        self.get(index)
    }
}

impl Default for BuildOrderTree {
    /// A tree with one root, "ROOT": no conditions to start, an empty
    /// all-of group to complete, no action, not shown.
    fn default() -> (t: Self)
        ensures
            t.wf(),
            t.nodes().len() == 1,
            t.nodes()[0] == (
                "ROOT"@,
                Seq::<GroupView>::empty(),
                seq![(Seq::<BuildCondition>::empty(), ConditionOperator::All)],
                false,
                None::<BuildOrderAction>,
                false,
                ComponentState::NotYetStarted,
            ),
            t.parent_links() == seq![None::<usize>],
    {
        let empty: [BuildCondition; 0] = [];
        let groups = [ConditionGroup::new(&empty, ConditionOperator::All)];
        let none: [ConditionGroup; 0] = [];
        let root = BuildComponent::new("ROOT", &none, &groups, false, None, false);
        let mut t = BuildOrderTree::new();
        let _ = t.add_node(root, None);
        proof {
            assert(none@.map_values(|g: ConditionGroup| g@) =~= Seq::<GroupView>::empty());
            assert(empty@ =~= Seq::<BuildCondition>::empty());
            assert(groups@[0]@ == (Seq::<BuildCondition>::empty(), ConditionOperator::All));
            assert(groups@.map_values(|g: ConditionGroup| g@) =~= seq![(Seq::<BuildCondition>::empty(), ConditionOperator::All)]);
            assert(t.parent_links() =~= seq![None::<usize>]);
        }
        t
    }
}


/// Node `d` lies below node `a`, and `a`'s parent, if any, lies above `d` too.
proof fn lemma_descendant_up(ps: Seq<Option<usize>>, d: int, a: int)
    requires
        links_ok(ps),
        is_descendant(ps, d, a),
    ensures
        a < d,
        ps[d] is Some,
        ps[d]->0 == a || is_descendant(ps, ps[d]->0 as int, a),
        (0 <= a < ps.len() && ps[a] is Some) ==> is_descendant(ps, d, ps[a]->0 as int),
    decreases d,
{
    let pd = ps[d]->0 as int;
    assert(pd < d);
    if pd == a {
        if 0 <= a < ps.len() && ps[a] is Some {
            assert(is_descendant(ps, a, ps[a]->0 as int));
        }
    } else {
        lemma_descendant_up(ps, pd, a);
    }
}

/// In a breadth-first order every node comes after the nodes above it.
proof fn lemma_ancestor_first(ps: Seq<Option<usize>>, o: Seq<usize>, d: usize, a: usize)
    requires
        links_ok(ps),
        is_bfs_order(ps, o),
        d < ps.len(),
        is_descendant(ps, d as int, a as int),
    ensures
        place(o, a) < place(o, d),
    decreases a,
{
    lemma_descendant_up(ps, d as int, a as int);
    lemma_listed(ps, o, d);
    lemma_listed(ps, o, a);
    let i = place(o, d);
    let j = place(o, a);
    if j > i {
        assert(bfs_before(ps, o, o[i], o[j]));
        let pd = ps[d as int]->0;
        match ps[a as int] {
            None => {},
            Some(pa) => {
                if pd == a {
                    assert(is_descendant(ps, a as int, pa as int));
                } else {
                    lemma_descendant_up(ps, pd as int, a as int);
                }
                assert(is_descendant(ps, pd as int, pa as int));
                assert(pa < a);
                lemma_ancestor_first(ps, o, pd, pa);
            },
        }
    }
}

/// Every node of the forest is listed in a breadth-first order, at its place.
proof fn lemma_listed(ps: Seq<Option<usize>>, o: Seq<usize>, x: usize)
    requires
        is_bfs_order(ps, o),
        x < ps.len(),
    ensures
        o.contains(x),
        0 <= place(o, x) < o.len(),
        o[place(o, x)] == x,
{
    if !o.contains(x) {
        assert forall|k: int| 0 <= k < o.len() implies #[trigger] o[k] != x by {}
        let others = o;
        assert(forall|k: int| 0 <= k < others.len() ==> #[trigger] others[k] < ps.len());
        lemma_missing_shortens(o, ps.len(), x);
    }
    let k = o.index_of(x);
    assert(o[k] == x);
}

/// A list of distinct numbers below `n` that misses one of them is shorter
/// than `n`.
proof fn lemma_missing_shortens(o: Seq<usize>, n: nat, x: usize)
    requires
        o.no_duplicates(),
        forall|k: int| 0 <= k < o.len() ==> #[trigger] o[k] < n,
        x < n,
        !o.contains(x),
    ensures
        o.len() < n,
{
    let mapped = Seq::new(o.len(), |k: int| if o[k] == (n - 1) as usize { x } else { o[k] });
    assert forall|a: int, b: int| 0 <= a < mapped.len() && 0 <= b < mapped.len() && a != b implies mapped[a] != mapped[b] by {
        if o[a] == (n - 1) as usize {
            assert(o[b] != o[a]);
            assert(o[b] != x) by { if o[b] == x { assert(o.contains(x)); } }
        } else if o[b] == (n - 1) as usize {
            assert(o[a] != x) by { if o[a] == x { assert(o.contains(x)); } }
        }
    }
    assert forall|k: int| 0 <= k < mapped.len() implies #[trigger] mapped[k] < n - 1 by {
        if o[k] != (n - 1) as usize {
            assert(o[k] < n);
        } else if x == (n - 1) as usize {
            assert(o.contains(x));
        }
    }
    lemma_distinct_bounded(mapped, (n - 1) as nat);
}

/// A forest has one breadth-first order.
pub proof fn lemma_bfs_unique(ps: Seq<Option<usize>>, o1: Seq<usize>, o2: Seq<usize>)
    requires
        links_ok(ps),
        is_bfs_order(ps, o1),
        is_bfs_order(ps, o2),
    ensures
        o1 == o2,
{
    assert forall|k: int| 0 <= k < o1.len() implies o1[k] == o2[k] by {
        lemma_bfs_prefix(ps, o1, o2, k);
    }
    assert(o1 =~= o2);
}

/// Two breadth-first orders of a forest agree position by position.
proof fn lemma_bfs_prefix(ps: Seq<Option<usize>>, o1: Seq<usize>, o2: Seq<usize>, k: int)
    requires
        links_ok(ps),
        is_bfs_order(ps, o1),
        is_bfs_order(ps, o2),
        0 <= k < o1.len(),
    ensures
        forall|j: int| 0 <= j <= k ==> #[trigger] o1[j] == o2[j],
    decreases k,
{
    if k > 0 {
        lemma_bfs_prefix(ps, o1, o2, k - 1);
    }
    let x = o1[k];
    let y = o2[k];
    if x != y {
        lemma_listed(ps, o1, y);
        lemma_listed(ps, o2, x);
        let j = place(o1, y);
        let i = place(o2, x);
        if j < k {
            assert(o2[j] == o1[j]);
            assert(o2[j] == y);
        }
        if i < k {
            assert(o1[i] == o2[i]);
        }
        assert(j > k && i > k);
        assert(bfs_before(ps, o1, o1[k], o1[j]));
        assert(bfs_before(ps, o2, o2[k], o2[i]));
        match (ps[x as int], ps[y as int]) {
            (Some(px), Some(py)) => {
                assert(is_descendant(ps, x as int, px as int));
                assert(is_descendant(ps, y as int, py as int));
                lemma_ancestor_first(ps, o1, x, px);
                lemma_ancestor_first(ps, o2, y, py);
                lemma_listed(ps, o1, px);
                lemma_listed(ps, o2, py);
                let qx = place(o1, px);
                let qy = place(o2, py);
                assert(o2[qx] == px);
                assert(o1[qy] == py);
                lemma_place_of(o2, qx);
                lemma_place_of(o1, qy);
            },
            _ => {},
        }
    }
}

/// In a list without repeats, the entry at position `k` stands at `k`.
proof fn lemma_place_of(q: Seq<usize>, k: int)
    requires
        q.no_duplicates(),
        0 <= k < q.len(),
    ensures
        place(q, q[k]) == k,
{
    lemma_place(q, k);
}

/// The breadth-first order of a forest.
pub open spec fn bfs_order(ps: Seq<Option<usize>>) -> Seq<usize> {
    choose|o: Seq<usize>| is_bfs_order(ps, o)
}

/// A breadth-first order is the breadth-first order.
pub proof fn lemma_is_the_bfs_order(ps: Seq<Option<usize>>, o: Seq<usize>)
    requires
        links_ok(ps),
        is_bfs_order(ps, o),
    ensures
        bfs_order(ps) == o,
{
    let c = bfs_order(ps);
    assert(is_bfs_order(ps, c));
    lemma_bfs_unique(ps, c, o);
}


/// A node added to the tree is read back at the index it was given, and the
/// nodes already there keep theirs.
pub proof fn law_added_node_read_back(nodes: Seq<ComponentView>, c: ComponentView)
    ensures
        nodes.push(c)[nodes.len() as int] == c,
        forall|i: int| 0 <= i < nodes.len() ==> #[trigger] nodes.push(c)[i] == nodes[i],
{
}


/// A structure counts as complete exactly when one of its type is among the
/// finished structures; how many are ordered or on the way does not matter.
pub proof fn law_structure_complete_means_finished(u: UnitType, f: GameFacts, g: GameFacts)
    ensures
        condition_holds(BuildCondition::StructureComplete(u), f) <==> f.ready_structures@.contains(u),
        f.ready_structures@ == g.ready_structures@ ==> condition_holds(BuildCondition::StructureComplete(u), f)
            == condition_holds(BuildCondition::StructureComplete(u), g),
{
}

} // verus!
