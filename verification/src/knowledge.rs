//! What the bot remembers of the game: every unit it has seen, when each
//! unit type was first seen, which units died, and the enemy's race.
use crate::geometry::Point;
use crate::ids::UnitType;
use crate::keyed::{as_map, keys_distinct, lemma_as_map_index, lemma_as_map_push, lemma_as_map_remove, lemma_as_map_set, position};
use vstd::prelude::*;

verus! {

/// A player's race.
#[derive(Debug, Clone, Copy, PartialEq, Eq, Structural)]
pub enum Race {
    Terran,
    Zerg,
    Protoss,
    Random,
}

/// Whose a unit is.
#[derive(Debug, Clone, Copy, PartialEq, Eq, Structural)]
pub enum Alliance {
    Own,
    Ally,
    Neutral,
    Enemy,
}

/// What the bot reads of a unit it sees.
#[derive(Debug, Clone, Copy, PartialEq, Eq, Structural)]
pub struct SeenUnit {
    pub tag: u64,
    pub type_id: UnitType,
    pub position: Point,
    pub alliance: Alliance,
    pub is_structure: bool,
}

/// What the bot remembers of a unit.
#[derive(Debug, Clone, Copy, PartialEq, Eq, Structural)]
pub struct UnitKnowledge {
    pub type_id: UnitType,
    pub last_seen: usize,
    pub last_position: Point,
    pub alliance: Alliance,
    pub is_structure: bool,
}

/// What is remembered of a unit seen on frame `frame_no`.
pub open spec fn knowledge_of(unit: SeenUnit, frame_no: usize) -> UnitKnowledge {
    UnitKnowledge {
        type_id: unit.type_id,
        last_seen: frame_no,
        last_position: unit.position,
        alliance: unit.alliance,
        is_structure: unit.is_structure,
    }
}

impl UnitKnowledge {
    /// What to remember of a unit seen on frame `frame_no`.
    pub fn from_unit(unit: &SeenUnit, frame_no: usize) -> (k: UnitKnowledge)
        ensures
            k == knowledge_of(*unit, frame_no),
    {
        UnitKnowledge {
            type_id: unit.type_id,
            last_seen: frame_no,
            last_position: unit.position,
            alliance: unit.alliance,
            is_structure: unit.is_structure,
        }
    }
}

/// Why a request to the knowledge was refused.
#[derive(Debug, Clone, Copy, PartialEq, Eq, Structural)]
pub enum KnowledgeError {
    /// A unit died that was never seen.
    UnknownUnitDestroyed,
}

/// The memory after seeing `units` in order on frame `frame_no`: each one's
/// latest sighting by tag.
pub open spec fn sighted(m: Map<u64, UnitKnowledge>, units: Seq<SeenUnit>, frame_no: usize) -> Map<u64, UnitKnowledge>
    decreases units.len(),
{
    if units.len() == 0 {
        m
    } else {
        sighted(m, units.drop_last(), frame_no).insert(units.last().tag, knowledge_of(units.last(), frame_no))
    }
}

/// The first-sighting times after seeing `units` in order on frame
/// `frame_no`: a type not yet known gets this frame.
pub open spec fn first_sightings(m: Map<UnitType, usize>, units: Seq<SeenUnit>, frame_no: usize) -> Map<UnitType, usize>
    decreases units.len(),
{
    if units.len() == 0 {
        m
    } else {
        let before = first_sightings(m, units.drop_last(), frame_no);
        if before.dom().contains(units.last().type_id) {
            before
        } else {
            before.insert(units.last().type_id, frame_no)
        }
    }
}

/// The types among `units`, in order of first appearance, not yet in `m`.
pub open spec fn new_types(m: Map<UnitType, usize>, units: Seq<SeenUnit>) -> Seq<UnitType>
    decreases units.len(),
{
    if units.len() == 0 {
        Seq::empty()
    } else {
        let before = new_types(m, units.drop_last());
        if first_sightings(m, units.drop_last(), 0).dom().contains(units.last().type_id) {
            before
        } else {
            before.push(units.last().type_id)
        }
    }
}

/// The remembered enemy structures, in order.
pub open spec fn enemy_buildings(s: Seq<(u64, UnitKnowledge)>) -> Seq<UnitKnowledge>
    decreases s.len(),
{
    if s.len() == 0 {
        Seq::empty()
    } else {
        let rest = enemy_buildings(s.drop_last());
        if s.last().1.is_structure && s.last().1.alliance == Alliance::Enemy {
            rest.push(s.last().1)
        } else {
            rest
        }
    }
}

/// The domain of the first sightings does not depend on the frame.
proof fn lemma_first_sightings_dom(m: Map<UnitType, usize>, units: Seq<SeenUnit>, a: usize, b: usize)
    ensures
        first_sightings(m, units, a).dom() == first_sightings(m, units, b).dom(),
    decreases units.len(),
{
    if units.len() > 0 {
        lemma_first_sightings_dom(m, units.drop_last(), a, b);
    }
}

/// What the bot knows about the game.
pub struct Knowledge {
    confirmed_dead: Vec<(u64, UnitKnowledge)>,
    first_seen_unit_times: Vec<(UnitType, usize)>,
    first_seen_friendly_times: Vec<(UnitType, usize)>,
    seen_units: Vec<(u64, UnitKnowledge)>,
    confirmed_enemy_race: Option<Race>,
    total_spend: (u32, u32),
    total_reimbursed: (u32, u32),
    expansions_need_detectors: bool,
    expansions_need_clearing: bool,
}

impl Knowledge {
    /// The units that died, by tag.
    pub closed spec fn dead(&self) -> Map<u64, UnitKnowledge> {
        as_map(self.confirmed_dead@)
    }

    /// When each unit type was first seen.
    pub closed spec fn first_seen(&self) -> Map<UnitType, usize> {
        as_map(self.first_seen_unit_times@)
    }

    /// When each of the bot's own unit types was first seen.
    pub closed spec fn first_seen_friendly(&self) -> Map<UnitType, usize> {
        as_map(self.first_seen_friendly_times@)
    }

    /// The latest sighting of each unit, by tag.
    pub closed spec fn seen(&self) -> Map<u64, UnitKnowledge> {
        as_map(self.seen_units@)
    }

    /// The sightings in the order they were first filed.
    pub closed spec fn seen_table(&self) -> Seq<(u64, UnitKnowledge)> {
        self.seen_units@
    }

    /// The enemy's race, once known.
    pub closed spec fn enemy_race(&self) -> Option<Race> {
        self.confirmed_enemy_race
    }

    /// Whether new bases need a detector, and whether they need clearing.
    pub closed spec fn expansion_needs(&self) -> (bool, bool) {
        (self.expansions_need_detectors, self.expansions_need_clearing)
    }

    /// Minerals and gas spent, and minerals and gas refunded.
    pub closed spec fn spending(&self) -> ((u32, u32), (u32, u32)) {
        (self.total_spend, self.total_reimbursed)
    }

    /// The enemy's race, once known.
    pub fn confirmed_enemy_race(&self) -> (r: Option<Race>)
        ensures
            r == self.enemy_race(),
    {
        self.confirmed_enemy_race
    }

    /// Whether new bases need a detector.
    pub fn expansions_need_detectors(&self) -> (b: bool)
        ensures
            b == self.expansion_needs().0,
    {
        self.expansions_need_detectors
    }

    /// Whether new bases need clearing.
    pub fn expansions_need_clearing(&self) -> (b: bool)
        ensures
            b == self.expansion_needs().1,
    {
        self.expansions_need_clearing
    }

    /// Records whether new bases need a detector and whether they need
    /// clearing.
    pub fn set_expansion_needs(&mut self, detectors: bool, clearing: bool)
        requires
            old(self).wf(),
        ensures
            final(self).wf(),
            final(self).expansion_needs() == (detectors, clearing),
            final(self).seen() == old(self).seen(),
            final(self).dead() == old(self).dead(),
            final(self).first_seen() == old(self).first_seen(),
            final(self).enemy_race() == old(self).enemy_race(),
    {
        self.expansions_need_detectors = detectors;
        self.expansions_need_clearing = clearing;
    }

    /// Each table files an entry once.
    pub closed spec fn wf(&self) -> bool {
        &&& keys_distinct(self.confirmed_dead@)
        &&& keys_distinct(self.first_seen_unit_times@)
        &&& keys_distinct(self.first_seen_friendly_times@)
        &&& keys_distinct(self.seen_units@)
    }

    /// Remembers the enemy's race.
    pub fn confirm_race(&mut self, race: Race)
        ensures
            final(self).enemy_race() == Some(race),
            final(self).seen() == old(self).seen(),
            final(self).dead() == old(self).dead(),
            final(self).first_seen() == old(self).first_seen(),
    {
        self.confirmed_enemy_race = Some(race);
    }

    /// Notes the frame each unit type is first seen on; hands back the
    /// types seen for the first time, in order.
    pub fn add_newly_seen_units(&mut self, units: &Vec<SeenUnit>, frame_no: usize) -> (fresh: Vec<UnitType>)
        requires
            old(self).wf(),
        ensures
            final(self).wf(),
            final(self).first_seen() == first_sightings(old(self).first_seen(), units@, frame_no),
            fresh@ == new_types(old(self).first_seen(), units@),
            final(self).seen() == old(self).seen(),
            final(self).dead() == old(self).dead(),
            final(self).first_seen_friendly() == old(self).first_seen_friendly(),
            final(self).enemy_race() == old(self).enemy_race(),
            final(self).expansion_needs() == old(self).expansion_needs(),
            final(self).spending() == old(self).spending(),
    {
        let ghost m0 = self.first_seen();
        let mut fresh: Vec<UnitType> = Vec::new();
        let mut i: usize = 0;
        while i < units.len()
            invariant
                i <= units@.len(),
                self.wf(),
                m0 == old(self).first_seen(),
                self.first_seen() == first_sightings(m0, units@.subrange(0, i as int), frame_no),
                fresh@ == new_types(m0, units@.subrange(0, i as int)),
                self.seen_units == old(self).seen_units,
                self.confirmed_dead == old(self).confirmed_dead,
                self.first_seen_friendly_times == old(self).first_seen_friendly_times,
                self.confirmed_enemy_race == old(self).confirmed_enemy_race,
                self.expansions_need_detectors == old(self).expansions_need_detectors,
                self.expansions_need_clearing == old(self).expansions_need_clearing,
                self.total_spend == old(self).total_spend,
                self.total_reimbursed == old(self).total_reimbursed,
            decreases units@.len() - i,
        {
            let t = units[i].type_id;
            proof {
                assert(units@.subrange(0, i as int + 1).drop_last() =~= units@.subrange(0, i as int));
                lemma_first_sightings_dom(m0, units@.subrange(0, i as int), 0, frame_no);
            }
            match position(&self.first_seen_unit_times, &t) {
                Some(k) => {
                    proof { lemma_as_map_index(self.first_seen_unit_times@, k as int); }
                },
                None => {
                    proof { lemma_as_map_push(self.first_seen_unit_times@, t, frame_no); }
                    self.first_seen_unit_times.push((t, frame_no));
                    fresh.push(t);
                },
            }
            i = i + 1;
        }
        proof { assert(units@.subrange(0, i as int) =~= units@); }
        fresh
    }

    /// Files what is seen of each unit on frame `frame_no` under its tag.
    pub fn update_seen_units(&mut self, seen_units: &Vec<SeenUnit>, frame_no: usize)
        requires
            old(self).wf(),
        ensures
            final(self).wf(),
            final(self).seen() == sighted(old(self).seen(), seen_units@, frame_no),
            final(self).dead() == old(self).dead(),
            final(self).first_seen() == old(self).first_seen(),
    {
        let ghost m0 = self.seen();
        let mut i: usize = 0;
        while i < seen_units.len()
            invariant
                i <= seen_units@.len(),
                self.wf(),
                m0 == old(self).seen(),
                self.seen() == sighted(m0, seen_units@.subrange(0, i as int), frame_no),
                self.confirmed_dead == old(self).confirmed_dead,
                self.first_seen_unit_times == old(self).first_seen_unit_times,
            decreases seen_units@.len() - i,
        {
            let unit = &seen_units[i];
            let k = UnitKnowledge::from_unit(unit, frame_no);
            proof {
                assert(seen_units@.subrange(0, i as int + 1).drop_last() =~= seen_units@.subrange(0, i as int));
            }
            match position(&self.seen_units, &unit.tag) {
                Some(j) => {
                    proof { lemma_as_map_set(self.seen_units@, j as int, k); }
                    self.seen_units.set(j, (unit.tag, k));
                },
                None => {
                    proof { lemma_as_map_push(self.seen_units@, unit.tag, k); }
                    self.seen_units.push((unit.tag, k));
                },
            }
            i = i + 1;
        }
        proof { assert(seen_units@.subrange(0, i as int) =~= seen_units@); }
    }

    /// Moves a unit that died from the seen units to the dead ones and hands
    /// back what was known of it; refused for a unit never seen.
    pub fn unit_destroyed(&mut self, unit_tag: u64) -> (r: Result<UnitKnowledge, KnowledgeError>)
        requires
            old(self).wf(),
        ensures
            final(self).wf(),
            final(self).first_seen() == old(self).first_seen(),
            final(self).first_seen_friendly() == old(self).first_seen_friendly(),
            final(self).enemy_race() == old(self).enemy_race(),
            final(self).expansion_needs() == old(self).expansion_needs(),
            final(self).spending() == old(self).spending(),
            old(self).seen().dom().contains(unit_tag) ==> r == Ok::<UnitKnowledge, KnowledgeError>(old(self).seen()[unit_tag])
                && final(self).seen() == old(self).seen().remove(unit_tag)
                && final(self).dead() == old(self).dead().insert(unit_tag, old(self).seen()[unit_tag]),
            !old(self).seen().dom().contains(unit_tag) ==> r == Err::<UnitKnowledge, KnowledgeError>(KnowledgeError::UnknownUnitDestroyed)
                && *final(self) == *old(self),
    {
        let j = match position(&self.seen_units, &unit_tag) {
            Some(j) => j,
            None => { return Err(KnowledgeError::UnknownUnitDestroyed); },
        };
        proof {
            lemma_as_map_index(self.seen_units@, j as int);
            lemma_as_map_remove(self.seen_units@, j as int);
        }
        let (_, unit) = self.seen_units.remove(j);
        match position(&self.confirmed_dead, &unit_tag) {
            Some(d) => {
                proof { lemma_as_map_set(self.confirmed_dead@, d as int, unit); }
                self.confirmed_dead.set(d, (unit_tag, unit));
            },
            None => {
                proof { lemma_as_map_push(self.confirmed_dead@, unit_tag, unit); }
                self.confirmed_dead.push((unit_tag, unit));
            },
        }
        Ok(unit)
    }

    /// The remembered enemy structures, in the order they were filed.
    pub fn get_enemy_buildings(&self) -> (r: Vec<UnitKnowledge>)
        ensures
            r@ == enemy_buildings(self.seen_table()),
    {
        let mut r: Vec<UnitKnowledge> = Vec::new();
        let mut i: usize = 0;
        while i < self.seen_units.len()
            invariant
                i <= self.seen_units@.len(),
                r@ == enemy_buildings(self.seen_units@.subrange(0, i as int)),
            decreases self.seen_units@.len() - i,
        {
            proof {
                assert(self.seen_units@.subrange(0, i as int + 1).drop_last() =~= self.seen_units@.subrange(0, i as int));
            }
            let k = self.seen_units[i].1;
            if k.is_structure && k.alliance == Alliance::Enemy {
                r.push(k);
            }
            i = i + 1;
        }
        proof { assert(self.seen_units@.subrange(0, i as int) =~= self.seen_units@); }
        r
    }
}

impl Default for Knowledge {
    /// Nothing known yet.
    fn default() -> (k: Self)
        ensures
            k.wf(),
            k.seen() == Map::<u64, UnitKnowledge>::empty(),
            k.dead() == Map::<u64, UnitKnowledge>::empty(),
            k.first_seen() == Map::<UnitType, usize>::empty(),
            k.first_seen_friendly() == Map::<UnitType, usize>::empty(),
            k.enemy_race() is None,
            k.expansion_needs() == (false, false),
            k.spending() == ((0u32, 0u32), (0u32, 0u32)),
    {
        let k = Knowledge {
            confirmed_dead: Vec::new(),
            first_seen_unit_times: Vec::new(),
            first_seen_friendly_times: Vec::new(),
            seen_units: Vec::new(),
            confirmed_enemy_race: None,
            total_spend: (0, 0),
            total_reimbursed: (0, 0),
            expansions_need_detectors: false,
            expansions_need_clearing: false,
        };
        proof {
            assert(k.seen() =~= Map::<u64, UnitKnowledge>::empty());
            assert(k.dead() =~= Map::<u64, UnitKnowledge>::empty());
            assert(k.first_seen() =~= Map::<UnitType, usize>::empty());
            assert(k.first_seen_friendly() =~= Map::<UnitType, usize>::empty());
        }
        k
    }
}

/// A unit that is seen and then dies is remembered as dead with what was
/// last seen of it, and is no longer among the seen units.
pub proof fn law_death_moves_sighting(seen: Map<u64, UnitKnowledge>, dead: Map<u64, UnitKnowledge>, unit: SeenUnit, frame_no: usize)
    ensures
        ({
            let after_sighting = sighted(seen, seq![unit], frame_no);
            &&& after_sighting.dom().contains(unit.tag)
            &&& after_sighting.remove(unit.tag).dom().contains(unit.tag) == false
            &&& dead.insert(unit.tag, after_sighting[unit.tag])[unit.tag] == knowledge_of(unit, frame_no)
        }),
{
    let s = seq![unit];
    assert(s.drop_last() =~= Seq::<SeenUnit>::empty());
}

} // verus!
