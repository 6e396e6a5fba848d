//! The error types that the bot's managers report.
use crate::geometry::Point;
use crate::ids::{Ability, UnitType, Upgrade};
use crate::siting::{BuildingStatus, BuildingTransition};
use crate::units::Tag;
use vstd::prelude::*;

verus! {

/// A unit could not be taken on by a manager; the text says why.
#[derive(Debug, Clone, PartialEq, Eq)]
pub struct UnitEmploymentError(pub String);

/// A unit was not of a kind the caller can handle; the text says why.
#[derive(Debug, Clone, PartialEq, Eq)]
pub struct InvalidUnitError(pub String);

/// Why a building could not be placed, started or finished.
#[derive(Debug, Clone, PartialEq, Eq)]
pub enum BuildError {
    CantPlace(Point, UnitType),
    CantTransitionBuildingLocation(BuildingTransitionError),
    NoConstructionSiteHere(Point),
    NoConstructionSiteForFinishedBuilding(UnitType),
    NoBuildingLocationHere(Point),
    NoPlacementLocations,
    CantAfford,
    InvalidUnit(String),
    NoTrainer,
    NoResearcher(Upgrade),
    AllBusy(Ability),
    AllChronoed(Ability),
    AlreadyResearching,
    NoBuildItemsLeft,
    WarpGateNotResearched,
    NoPower(Point),
}

/// A construction site was asked for a change that its status does not allow.
#[derive(Debug, Clone, Copy, PartialEq, Eq, Structural)]
pub enum BuildingTransitionError {
    InvalidTransition { from: BuildingStatus, change: BuildingTransition },
    InvalidUnit,
}

/// One of two kinds of report.
#[derive(Debug, Clone, PartialEq, Eq)]
pub enum Either<L, R> {
    Left(L),
    Right(R),
}

/// A unit that a micro manager was asked about but never took on.
#[derive(Debug, Clone, Copy, PartialEq, Eq, Structural)]
pub enum MicroError {
    UnitNotRegistered(Tag),
}

/// Why a unit could not be given a role.
#[derive(Debug, Clone, Copy, PartialEq, Eq, Structural)]
pub enum AssignmentIssue {
    InvalidUnit,
    UnitAlreadyAssigned,
    UnitNotAssigned,
    DifferentUnitAssignedInRole,
    InvalidProject,
    NoUnits,
}

/// A refused assignment: who, to what, and why.
#[derive(Debug, Clone, PartialEq, Eq)]
pub struct AssignmentError {
    pub assignee: Tag,
    pub manager: String,
    pub reason: AssignmentIssue,
}

impl AssignmentError {
    pub fn new(assignee: Tag, manager: String, reason: AssignmentIssue) -> (e: AssignmentError)
        ensures
            e.assignee == assignee,
            e.manager@ == manager@,
            e.reason == reason,
    {
        AssignmentError { assignee, manager, reason }
    }
}

} // verus!
