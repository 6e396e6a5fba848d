//! Army missions: what a mission needs, what it orders its units to do, and
//! how its status moves on.
use crate::abilities as ab;
use crate::geometry::Point;
use crate::ids::Ability;
use crate::units::{Target, UnitSnapshot};
use vstd::prelude::*;

verus! {

/// An order for a unit: its tag, the ability, the target, and whether the
/// order is queued behind the unit's current ones.
pub type Command = (u64, Ability, Target, bool);

/// Something went wrong with the army.
#[derive(Debug, Clone, Copy, PartialEq, Eq, Structural)]
pub struct ArmyIssue;

/// What the army knows of one of its units.
#[derive(Debug, Clone, Copy, PartialEq, Eq, Structural)]
pub struct UnitState {
    pub is_detector: bool,
    pub tag: u64,
}

impl UnitState {
    /// The state of an observed unit. No reading of the unit is done yet:
    /// every unit comes out as the same placeholder, tag 10 and no detector.
    pub fn from_unit(_unit: &UnitSnapshot) -> (s: UnitState)
        ensures
            s == (UnitState { is_detector: false, tag: 10 }),
    {
        UnitState { is_detector: false, tag: 10 }
    }
}

/// What a mission is for, and where.
#[derive(Debug, Clone, Copy, PartialEq, Eq, Structural)]
pub enum MissionType {
    /// Guard a construction site.
    BabysitConstruction(Point),
    /// Bring detection over an area.
    DetectArea(Point),
    /// Attack the enemy at a point.
    AttackEnemy(Point),
}

/// How far a mission has come.
#[derive(Debug, Clone, Copy, PartialEq, Eq, Structural)]
pub enum MissionStatus {
    /// Waiting for its units.
    PendingForces,
    /// Under way.
    InProgress,
    /// Done.
    Complete,
}

/// The order of the statuses: pending, then in progress, then complete.
pub open spec fn status_rank(s: MissionStatus) -> int {
    match s {
        MissionStatus::PendingForces => 0,
        MissionStatus::InProgress => 1,
        MissionStatus::Complete => 2,
    }
}

/// A pending mission gets under way; any other stays as it is.
pub open spec fn begun(s: MissionStatus) -> MissionStatus {
    match s {
        MissionStatus::PendingForces => MissionStatus::InProgress,
        other => other,
    }
}

/// A mission under way is done; any other stays as it is.
pub open spec fn finished(s: MissionStatus) -> MissionStatus {
    match s {
        MissionStatus::InProgress => MissionStatus::Complete,
        other => other,
    }
}

impl MissionStatus {
    /// Starts a pending mission.
    pub fn begin(self) -> (s: MissionStatus)
        ensures
            s == begun(self),
    {
        match self {
            MissionStatus::PendingForces => MissionStatus::InProgress,
            otherwise => otherwise,
        }
    }

    /// Completes a mission under way.
    pub fn finish(self) -> (s: MissionStatus)
        ensures
            s == finished(self),
    {
        match self {
            MissionStatus::InProgress => MissionStatus::Complete,
            otherwise => otherwise,
        }
    }
}

/// A mission: its number, what it is for, how far it has come, and where
/// its units gather.
#[derive(Debug, Clone, Copy, PartialEq, Eq, Structural)]
pub struct Mission {
    pub id: usize,
    pub mission_type: MissionType,
    pub status: MissionStatus,
    pub rally_point: Point,
}

/// The order a mission gives a unit: attack towards the guarded or
/// watched point; for an attack, towards the enemy once under way and
/// towards the rally point before.
pub open spec fn command_of(m: Mission, unit: UnitState) -> Command {
    match m.mission_type {
        MissionType::BabysitConstruction(p) => (unit.tag, ab::ATTACK_ATTACK_TOWARDS, Target::Pos(p), false),
        MissionType::AttackEnemy(p) => if m.status == MissionStatus::InProgress {
            (unit.tag, ab::ATTACK_ATTACK_TOWARDS, Target::Pos(p), false)
        } else {
            (unit.tag, ab::ATTACK_ATTACK_TOWARDS, Target::Pos(m.rally_point), false)
        },
        MissionType::DetectArea(p) => (unit.tag, ab::ATTACK_ATTACK_TOWARDS, Target::Pos(p), false),
    }
}

impl Mission {
    /// A new mission, waiting for its units.
    pub fn new(id: usize, mission_type: MissionType, rally: Point) -> (m: Mission)
        ensures
            m == (Mission { id, mission_type, status: MissionStatus::PendingForces, rally_point: rally }),
    {
        Mission { id, mission_type, status: MissionStatus::PendingForces, rally_point: rally }
    }

    /// The order this mission gives `unit`.
    pub fn command(&self, unit: &UnitState) -> (c: Command)
        ensures
            c == command_of(*self, *unit),
    {
        match self.mission_type {
            MissionType::BabysitConstruction(point) => (unit.tag, ab::ATTACK_ATTACK_TOWARDS, Target::Pos(point), false),
            MissionType::AttackEnemy(point) => {
                if matches!(self.status, MissionStatus::InProgress) {
                    (unit.tag, ab::ATTACK_ATTACK_TOWARDS, Target::Pos(point), false)
                } else {
                    (unit.tag, ab::ATTACK_ATTACK_TOWARDS, Target::Pos(self.rally_point), false)
                }
            },
            MissionType::DetectArea(point) => (unit.tag, ab::ATTACK_ATTACK_TOWARDS, Target::Pos(point), false),
        }
    }

    /// Whether the mission wants `unit`: a detection mission wants detectors
    /// and every other mission wants non-detectors.
    pub fn needs(&self, unit: &UnitState) -> (b: bool)
        ensures
            b == ((self.mission_type is DetectArea) == unit.is_detector),
    {
        let needs_detector = matches!(self.mission_type, MissionType::DetectArea(_));
        match (needs_detector, unit.is_detector) {
            (true, true) | (false, false) => true,
            (false, true) | (true, false) => false,
        }
    }
}

/// The controller of the army's units and missions.
#[derive(Debug, Clone, Copy, PartialEq, Eq, Structural)]
pub struct ArmyController;

impl Default for ArmyController {
    /// The controller.
    fn default() -> (c: Self)
        ensures
            c == ArmyController,
    {
        ArmyController
    }
}

/// A mission's status never goes back: starting and completing move it
/// forward or leave it, each does its work once, and a pending mission that
/// is started and then completed is done.
pub proof fn law_status_moves_forward(s: MissionStatus)
    ensures
        status_rank(begun(s)) >= status_rank(s),
        status_rank(finished(s)) >= status_rank(s),
        begun(begun(s)) == begun(s),
        finished(finished(s)) == finished(s),
        s == MissionStatus::PendingForces ==> finished(begun(s)) == MissionStatus::Complete,
        s == MissionStatus::Complete ==> begun(s) == s && finished(s) == s,
{
}

} // verus!
