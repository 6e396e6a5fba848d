//! Construction projects: what each building under way still needs
//! (a builder sent, a build order given, an escort, a detector), and
//! whether more supply is due.
use crate::errors::{AssignmentError, AssignmentIssue};
use crate::geometry::Point;
use crate::ids::UnitType;
use crate::keyed::{as_map, keys_distinct, lemma_as_map_index, lemma_as_map_push, lemma_as_map_remove, lemma_as_map_set, position};
use crate::siting::{location_point, ConstructionSite};
use crate::text::push_decimal;
use crate::unit_types as ut;
use crate::units::Tag;
use vstd::prelude::*;

verus! {

/// How many game steps a project may stay open before it is cancelled.
pub const PROJECT_MAX_LIFETIME: u32 = 23 * 120;

/// What a construction project needs next.
#[derive(Debug, Clone, Copy, PartialEq, Eq, Structural)]
pub enum ProjectNeeds {
    /// A worker sent to the site.
    BuilderRallied,
    /// The build order given to this worker.
    BuilderOrdered(u64),
    /// A detector over the site.
    Detector,
    /// An escort to clear the site.
    Cleaners,
    /// Nothing.
    Nothing,
    /// To be given up: it took too long.
    Cancelling,
}

/// A building the bot means to put up at a site.
#[derive(Debug, Clone, Copy, PartialEq, Eq, Structural)]
pub struct ConstructionProject {
    pub building: UnitType,
    pub site: ConstructionSite,
    pub builder: Option<u64>,
    pub builder_ordered: bool,
    pub needs_detector: bool,
    pub detector: Option<usize>,
    pub needs_clearing: bool,
    pub clearing_crew: Option<usize>,
    pub created_step: u32,
}

/// A new project, opened on step `current_step`, with nobody on it yet.
pub open spec fn fresh_project(building: UnitType, site: ConstructionSite, current_step: u32) -> ConstructionProject {
    ConstructionProject {
        building,
        site,
        builder: None,
        builder_ordered: false,
        needs_detector: false,
        detector: None,
        needs_clearing: false,
        clearing_crew: None,
        created_step: current_step,
    }
}

/// What a project needs next: an escort if bases need clearing and it has
/// none, a detector if bases need one and it has none, a builder if it has
/// none, the build order if the builder has not had it, cancelling once it
/// has been open past its lifetime, and otherwise nothing.
pub open spec fn needs_of(project: ConstructionProject, need_clearing: bool, need_detectors: bool, game_step: u32) -> ProjectNeeds {
    if project.clearing_crew is None && need_clearing {
        ProjectNeeds::Cleaners
    } else if project.detector is None && need_detectors {
        ProjectNeeds::Detector
    } else if project.builder is None {
        ProjectNeeds::BuilderRallied
    } else if !project.builder_ordered {
        ProjectNeeds::BuilderOrdered(project.builder->0)
    } else if project.created_step + PROJECT_MAX_LIFETIME < game_step {
        ProjectNeeds::Cancelling
    } else {
        ProjectNeeds::Nothing
    }
}

impl ConstructionProject {
    /// A new project, opened on step `current_step`.
    pub fn new(building: UnitType, site: ConstructionSite, current_step: u32) -> (p: ConstructionProject)
        ensures
            p == fresh_project(building, site, current_step),
    {
        ConstructionProject {
            building,
            site,
            builder: None,
            builder_ordered: false,
            needs_detector: false,
            detector: None,
            needs_clearing: false,
            clearing_crew: None,
            created_step: current_step,
        }
    }

    /// The project's name in reports: `Construction[` and the building's
    /// type number, then `]`.
    pub fn to_text(&self) -> (s: String)
        ensures
            s@ == "Construction["@ + crate::text::decimal_chars(self.building as nat) + "]"@,
    {
        let mut s = String::from_str("Construction[");
        push_decimal(&mut s, self.building as usize);
        s.append("]");
        s
    }

    /// Takes a probe on as the builder; refuses any other unit, and a probe
    /// when there is a builder already.
    pub fn assign(&mut self, unit: Tag) -> (r: Result<(), AssignmentError>)
        ensures
            unit.unit_type != ut::PROBE ==> (r matches Err(e) && e.reason == AssignmentIssue::InvalidUnit && e.assignee == unit)
                && *final(self) == *old(self),
            unit.unit_type == ut::PROBE && old(self).builder is Some ==> (r matches Err(e)
                && e.reason == AssignmentIssue::DifferentUnitAssignedInRole && e.assignee == unit) && *final(self) == *old(self),
            unit.unit_type == ut::PROBE && old(self).builder is None ==> r is Ok
                && *final(self) == (ConstructionProject { builder: Some(unit.tag), ..*old(self) }),
    {
        let issue = if unit.unit_type == ut::PROBE {
            if self.builder.is_none() {
                self.builder = Some(unit.tag);
                Ok(())
            } else {
                Err(AssignmentIssue::DifferentUnitAssignedInRole)
            }
        } else {
            Err(AssignmentIssue::InvalidUnit)
        };
        match issue {
            Ok(()) => Ok(()),
            Err(i) => Err(AssignmentError::new(unit, self.to_text(), i)),
        }
    }

    /// Lets the builder go; refuses any unit but a probe, a probe when there
    /// is no builder, and a probe that is not the builder.
    pub fn remove(&mut self, unit: Tag) -> (r: Result<(), AssignmentError>)
        ensures
            unit.unit_type != ut::PROBE ==> (r matches Err(e) && e.reason == AssignmentIssue::InvalidUnit && e.assignee == unit)
                && *final(self) == *old(self),
            unit.unit_type == ut::PROBE && old(self).builder is None ==> (r matches Err(e)
                && e.reason == AssignmentIssue::UnitNotAssigned && e.assignee == unit) && *final(self) == *old(self),
            (unit.unit_type == ut::PROBE && old(self).builder is Some && old(self).builder->0 != unit.tag) ==> (r matches Err(e)
                && e.reason == AssignmentIssue::DifferentUnitAssignedInRole && e.assignee == unit) && *final(self) == *old(self),
            unit.unit_type == ut::PROBE && old(self).builder == Some(unit.tag) ==> r is Ok
                && *final(self) == (ConstructionProject { builder: None, ..*old(self) }),
    {
        let issue = if unit.unit_type == ut::PROBE {
            match self.builder {
                Some(builder) => {
                    if builder == unit.tag {
                        self.builder = None;
                        Ok(())
                    } else {
                        Err(AssignmentIssue::DifferentUnitAssignedInRole)
                    }
                },
                None => Err(AssignmentIssue::UnitNotAssigned),
            }
        } else {
            Err(AssignmentIssue::InvalidUnit)
        };
        match issue {
            Ok(()) => Ok(()),
            Err(i) => Err(AssignmentError::new(unit, self.to_text(), i)),
        }
    }
}

/// What a project needs next (see `needs_of`), on step `game_step`.
pub fn evaluate_construction_project(project: &ConstructionProject, need_clearing: bool, need_detectors: bool, game_step: u32) -> (n: ProjectNeeds)
    ensures
        n == needs_of(*project, need_clearing, need_detectors, game_step),
{
    if project.clearing_crew.is_none() && need_clearing {
        return ProjectNeeds::Cleaners;
    }
    if project.detector.is_none() && need_detectors {
        return ProjectNeeds::Detector;
    }
    match project.builder {
        Some(builder) => {
            if !project.builder_ordered {
                return ProjectNeeds::BuilderOrdered(builder);
            }
        },
        None => {
            return ProjectNeeds::BuilderRallied;
        },
    }
    if (project.created_step as u64) + (PROJECT_MAX_LIFETIME as u64) < (game_step as u64) {
        return ProjectNeeds::Cancelling;
    }
    ProjectNeeds::Nothing
}

/// The open construction projects, by site position.
pub struct ConstructionManager {
    active_projects: Vec<(Point, ConstructionProject)>,
}

impl ConstructionManager {
    /// The projects by site position.
    pub closed spec fn projects(&self) -> Map<Point, ConstructionProject> {
        as_map(self.active_projects@)
    }

    /// The projects in the order they were opened.
    pub closed spec fn project_table(&self) -> Seq<(Point, ConstructionProject)> {
        self.active_projects@
    }

    /// Each site has at most one project.
    pub closed spec fn wf(&self) -> bool {
        keys_distinct(self.active_projects@)
    }

    /// No projects.
    pub fn new() -> (m: ConstructionManager)
        ensures
            m.wf(),
            m.projects() == Map::<Point, ConstructionProject>::empty(),
            m.project_table() == Seq::<(Point, ConstructionProject)>::empty(),
    {
        let m = ConstructionManager { active_projects: Vec::new() };
        assert(m.projects() =~= Map::<Point, ConstructionProject>::empty());
        m
    }

    /// Opens a project for `building` at `site`, replacing any there.
    pub fn new_project(&mut self, building: UnitType, site: ConstructionSite, current_step: u32)
        requires
            old(self).wf(),
        ensures
            final(self).wf(),
            final(self).projects() == old(self).projects().insert(location_point(site.location), fresh_project(building, site, current_step)),
    {
        let loc = site.location();
        let project = ConstructionProject::new(building, site, current_step);
        match position(&self.active_projects, &loc) {
            Some(i) => {
                proof { lemma_as_map_set(self.active_projects@, i as int, project); }
                self.active_projects.set(i, (loc, project));
            },
            None => {
                proof { lemma_as_map_push(self.active_projects@, loc, project); }
                self.active_projects.push((loc, project));
            },
        }
    }

    /// Closes the project at `site`, if any.
    pub fn remove_project(&mut self, site: ConstructionSite)
        requires
            old(self).wf(),
        ensures
            final(self).wf(),
            final(self).projects() == old(self).projects().remove(location_point(site.location)),
    {
        let loc = site.location();
        match position(&self.active_projects, &loc) {
            Some(i) => {
                proof { lemma_as_map_remove(self.active_projects@, i as int); }
                self.active_projects.remove(i);
            },
            None => {
                assert(old(self).projects().remove(loc) =~= old(self).projects());
            },
        }
    }

    /// The project at `location`, if any.
    pub fn get(&self, location: Point) -> (r: Option<&ConstructionProject>)
        requires
            self.wf(),
        ensures
            self.projects().dom().contains(location) ==> (r matches Some(p) && *p == self.projects()[location]),
            !self.projects().dom().contains(location) ==> r is None,
    {
        match position(&self.active_projects, &location) {
            Some(i) => {
                proof { lemma_as_map_index(self.active_projects@, i as int); }
                Some(&self.active_projects[i].1)
            },
            None => None,
        }
    }

    /// Applies `change` to the project at `location`; refused when there is
    /// none.
    fn update_project(&mut self, location: Point, change: ProjectChange) -> (r: Result<(), AssignmentIssue>)
        requires
            old(self).wf(),
        ensures
            final(self).wf(),
            old(self).projects().dom().contains(location) ==> r is Ok
                && final(self).projects() == old(self).projects().insert(location, changed(old(self).projects()[location], change)),
            !old(self).projects().dom().contains(location) ==> r == Err::<(), AssignmentIssue>(AssignmentIssue::InvalidProject)
                && final(self).projects() == old(self).projects(),
    {
        match position(&self.active_projects, &location) {
            Some(i) => {
                let mut p = self.active_projects[i].1;
                proof { lemma_as_map_index(self.active_projects@, i as int); }
                match change {
                    ProjectChange::Babysitters(m) => { p.clearing_crew = Some(m); },
                    ProjectChange::Detector(m) => { p.detector = Some(m); },
                    ProjectChange::Queued(q) => { p.builder_ordered = q; },
                    ProjectChange::Builder(b) => { p.builder = Some(b); },
                }
                proof { lemma_as_map_set(self.active_projects@, i as int, p); }
                self.active_projects.set(i, (location, p));
                Ok(())
            },
            None => Err(AssignmentIssue::InvalidProject),
        }
    }

    /// Records the escort mission of the project at `location`.
    pub fn add_babysitters(&mut self, location: Point, babysitter_mission: usize) -> (r: Result<(), AssignmentIssue>)
        requires
            old(self).wf(),
        ensures
            final(self).wf(),
            old(self).projects().dom().contains(location) ==> r is Ok
                && final(self).projects() == old(self).projects().insert(location,
                    ConstructionProject { clearing_crew: Some(babysitter_mission), ..old(self).projects()[location] }),
            !old(self).projects().dom().contains(location) ==> r == Err::<(), AssignmentIssue>(AssignmentIssue::InvalidProject)
                && final(self).projects() == old(self).projects(),
    {
        self.update_project(location, ProjectChange::Babysitters(babysitter_mission))
    }

    /// Records the detector mission of the project at `location`.
    pub fn add_detector_mission(&mut self, location: Point, detector_mission: usize) -> (r: Result<(), AssignmentIssue>)
        requires
            old(self).wf(),
        ensures
            final(self).wf(),
            old(self).projects().dom().contains(location) ==> r is Ok
                && final(self).projects() == old(self).projects().insert(location,
                    ConstructionProject { detector: Some(detector_mission), ..old(self).projects()[location] }),
            !old(self).projects().dom().contains(location) ==> r == Err::<(), AssignmentIssue>(AssignmentIssue::InvalidProject)
                && final(self).projects() == old(self).projects(),
    {
        self.update_project(location, ProjectChange::Detector(detector_mission))
    }

    /// Records whether the builder of the project at `location` has its
    /// build order.
    pub fn log_construction_queued(&mut self, location: Point, queued_state: bool) -> (r: Result<(), AssignmentIssue>)
        requires
            old(self).wf(),
        ensures
            final(self).wf(),
            old(self).projects().dom().contains(location) ==> r is Ok
                && final(self).projects() == old(self).projects().insert(location,
                    ConstructionProject { builder_ordered: queued_state, ..old(self).projects()[location] }),
            !old(self).projects().dom().contains(location) ==> r == Err::<(), AssignmentIssue>(AssignmentIssue::InvalidProject)
                && final(self).projects() == old(self).projects(),
    {
        self.update_project(location, ProjectChange::Queued(queued_state))
    }

    /// Records the builder of the project at `location`.
    pub fn add_builder(&mut self, location: Point, builder: u64) -> (r: Result<(), AssignmentIssue>)
        requires
            old(self).wf(),
        ensures
            final(self).wf(),
            old(self).projects().dom().contains(location) ==> r is Ok
                && final(self).projects() == old(self).projects().insert(location,
                    ConstructionProject { builder: Some(builder), ..old(self).projects()[location] }),
            !old(self).projects().dom().contains(location) ==> r == Err::<(), AssignmentIssue>(AssignmentIssue::InvalidProject)
                && final(self).projects() == old(self).projects(),
    {
        self.update_project(location, ProjectChange::Builder(builder))
    }

    /// What each project needs next, in the order they were opened.
    pub fn check_construction_projects(&self, need_clearing: bool, need_detectors: bool, game_step: u32) -> (r: Vec<(Point, ProjectNeeds)>)
        ensures
            r@.len() == self.project_table().len(),
            forall|k: int| 0 <= k < r@.len() ==> #[trigger] r@[k] == (self.project_table()[k].0,
                needs_of(self.project_table()[k].1, need_clearing, need_detectors, game_step)),
    {
        let mut r: Vec<(Point, ProjectNeeds)> = Vec::new();
        let mut i: usize = 0;
        while i < self.active_projects.len()
            invariant
                i <= self.active_projects@.len(),
                r@.len() == i,
                forall|k: int| 0 <= k < i ==> #[trigger] r@[k] == (self.active_projects@[k].0,
                    needs_of(self.active_projects@[k].1, need_clearing, need_detectors, game_step)),
            decreases self.active_projects@.len() - i,
        {
            let n = evaluate_construction_project(&self.active_projects[i].1, need_clearing, need_detectors, game_step);
            r.push((self.active_projects[i].0, n));
            i = i + 1;
        }
        r
    }
}

/// A change to one field of a project.
enum ProjectChange {
    Babysitters(usize),
    Detector(usize),
    Queued(bool),
    Builder(u64),
}

/// The project with the change made.
spec fn changed(p: ConstructionProject, c: ProjectChange) -> ConstructionProject {
    match c {
        ProjectChange::Babysitters(m) => ConstructionProject { clearing_crew: Some(m), ..p },
        ProjectChange::Detector(m) => ConstructionProject { detector: Some(m), ..p },
        ProjectChange::Queued(q) => ConstructionProject { builder_ordered: q, ..p },
        ProjectChange::Builder(b) => ConstructionProject { builder: Some(b), ..p },
    }
}

impl Default for ConstructionManager {
    /// No projects.
    fn default() -> (m: Self)
        ensures
            m.wf(),
            m.projects() == Map::<Point, ConstructionProject>::empty(),
    {
        ConstructionManager::new()
    }
}

/// Whether another pylon is due: not at the supply cap of 200, and the free
/// supply (two per production structure, two more while workers are
/// ordered) is neither there already nor on the way (eight per ordered
/// pylon, fifteen per nexus about to finish) together with the supply used
/// over the cap.
pub open spec fn supply_wanted(
    supply_cap: u32,
    supply_used: u32,
    supply_left: u32,
    production_structures: usize,
    producing_workers: bool,
    ordered_pylons: usize,
    almost_done_nexi: usize,
) -> bool {
    let over_supply: int = if supply_used > supply_cap { supply_used - supply_cap } else { 0 };
    let wanted_free_supply: int = production_structures * 2 + if producing_workers { 2int } else { 0int };
    let pending_new_supply: int = 8 * ordered_pylons + 15 * almost_done_nexi;
    &&& supply_cap != 200
    &&& supply_left < (wanted_free_supply as u32)
    &&& pending_new_supply < wanted_free_supply + over_supply
}

/// Whether another pylon is due (see `supply_wanted`).
pub fn needs_more_supply(
    supply_cap: u32,
    supply_used: u32,
    supply_left: u32,
    production_structures: usize,
    producing_workers: bool,
    ordered_pylons: usize,
    almost_done_nexi: usize,
) -> (b: bool)
    requires
        production_structures * 2 + 2 + supply_used <= usize::MAX,
        8 * ordered_pylons + 15 * almost_done_nexi <= usize::MAX,
    ensures
        b == supply_wanted(supply_cap, supply_used, supply_left, production_structures, producing_workers, ordered_pylons, almost_done_nexi),
{
    if supply_cap == 200 {
        return false;
    }
    let over_supply: u32 = if supply_used > supply_cap { supply_used - supply_cap } else { 0 };
    let wanted_free_supply: usize = production_structures * 2 + if producing_workers { 2 } else { 0 };
    if supply_left >= #[verifier::truncate] (wanted_free_supply as u32) {
        return false;
    }
    let pending_new_supply: usize = 8 * ordered_pylons + 15 * almost_done_nexi;
    if pending_new_supply >= wanted_free_supply + over_supply as usize {
        return false;
    }
    true
}


/// A project filed at a site is what the site gives back, and once it is
/// removed the site has none; projects at other sites are untouched.
pub proof fn law_project_filed_then_removed(projects: Map<Point, ConstructionProject>, at: Point, project: ConstructionProject)
    ensures
        projects.insert(at, project).dom().contains(at),
        projects.insert(at, project)[at] == project,
        !projects.insert(at, project).remove(at).dom().contains(at),
        forall|p: Point| p != at ==> (#[trigger] projects.insert(at, project).remove(at).dom().contains(p)
            <==> projects.dom().contains(p)),
{
}


/// What the bot does about a project's need.
#[derive(Debug, Clone, Copy, PartialEq, Eq, Structural)]
pub enum ProjectAction {
    /// Nothing to do.
    Wait,
    /// Open a mission to guard the site.
    OpenGuardMission,
    /// Open a mission to bring detection over the site.
    OpenDetectionMission,
    /// Send the nearest mining worker to the site.
    RallyBuilder,
    /// Give the builder the order to build, if the building is affordable.
    OrderBuilder(u64),
}

/// What came of a project's action.
#[derive(Debug, Clone, Copy, PartialEq, Eq)]
pub enum ProjectOutcome {
    /// Nothing was done.
    Waited,
    /// A guard mission was opened with this number.
    GuardMission(usize),
    /// A detection mission was opened with this number.
    DetectionMission(usize),
    /// This worker was sent to the site, or none could be.
    BuilderRallied(Result<u64, AssignmentIssue>),
    /// The builder was given the order (or not, when the building was not
    /// affordable), or it could not be.
    BuilderOrdered(Result<bool, AssignmentIssue>),
}

/// The action for a need.
pub open spec fn action_for(need: ProjectNeeds) -> ProjectAction {
    match need {
        ProjectNeeds::Cancelling => ProjectAction::Wait,
        ProjectNeeds::Nothing => ProjectAction::Wait,
        ProjectNeeds::Cleaners => ProjectAction::OpenGuardMission,
        ProjectNeeds::Detector => ProjectAction::OpenDetectionMission,
        ProjectNeeds::BuilderRallied => ProjectAction::RallyBuilder,
        ProjectNeeds::BuilderOrdered(builder) => ProjectAction::OrderBuilder(builder),
    }
}

/// The action for a need: wait when the project needs nothing or is being
/// given up, open a mission for an escort or a detector, rally a builder,
/// or order the builder to build.
pub fn project_action(need: ProjectNeeds) -> (a: ProjectAction)
    ensures
        a == action_for(need),
{
    match need {
        ProjectNeeds::Cancelling | ProjectNeeds::Nothing => ProjectAction::Wait,
        ProjectNeeds::Cleaners => ProjectAction::OpenGuardMission,
        ProjectNeeds::Detector => ProjectAction::OpenDetectionMission,
        ProjectNeeds::BuilderRallied => ProjectAction::RallyBuilder,
        ProjectNeeds::BuilderOrdered(builder) => ProjectAction::OrderBuilder(builder),
    }
}

impl ConstructionManager {
    /// Files what came of a project's action: a mission as its escort or its
    /// detector, a rallied worker as its builder, whether the builder has
    /// its order. A failed action is handed back as it came.
    pub fn record_outcome(&mut self, location: Point, outcome: ProjectOutcome) -> (r: Result<(), AssignmentIssue>)
        requires
            old(self).wf(),
        ensures
            final(self).wf(),
            ({
                let before = old(self).projects();
                let on_file = before.dom().contains(location);
                match outcome {
                    ProjectOutcome::Waited => r is Ok && final(self).projects() == before,
                    ProjectOutcome::GuardMission(m) => if on_file {
                        r is Ok && final(self).projects() == before.insert(location, ConstructionProject { clearing_crew: Some(m), ..before[location] })
                    } else {
                        r == Err::<(), AssignmentIssue>(AssignmentIssue::InvalidProject) && final(self).projects() == before
                    },
                    ProjectOutcome::DetectionMission(m) => if on_file {
                        r is Ok && final(self).projects() == before.insert(location, ConstructionProject { detector: Some(m), ..before[location] })
                    } else {
                        r == Err::<(), AssignmentIssue>(AssignmentIssue::InvalidProject) && final(self).projects() == before
                    },
                    ProjectOutcome::BuilderRallied(Err(issue)) => r == Err::<(), AssignmentIssue>(issue) && final(self).projects() == before,
                    ProjectOutcome::BuilderRallied(Ok(builder)) => if on_file {
                        r is Ok && final(self).projects() == before.insert(location, ConstructionProject { builder: Some(builder), ..before[location] })
                    } else {
                        r == Err::<(), AssignmentIssue>(AssignmentIssue::InvalidProject) && final(self).projects() == before
                    },
                    ProjectOutcome::BuilderOrdered(Err(issue)) => r == Err::<(), AssignmentIssue>(issue) && final(self).projects() == before,
                    ProjectOutcome::BuilderOrdered(Ok(queued)) => if on_file {
                        r is Ok && final(self).projects() == before.insert(location, ConstructionProject { builder_ordered: queued, ..before[location] })
                    } else {
                        r == Err::<(), AssignmentIssue>(AssignmentIssue::InvalidProject) && final(self).projects() == before
                    },
                }
            }),
    {
        match outcome {
            ProjectOutcome::Waited => Ok(()),
            ProjectOutcome::GuardMission(mission) => self.add_babysitters(location, mission),
            ProjectOutcome::DetectionMission(mission) => self.add_detector_mission(location, mission),
            ProjectOutcome::BuilderRallied(found) => match found {
                Ok(builder) => self.add_builder(location, builder),
                Err(issue) => Err(issue),
            },
            ProjectOutcome::BuilderOrdered(tried) => match tried {
                Ok(queued) => self.log_construction_queued(location, queued),
                Err(issue) => Err(issue),
            },
        }
    }
}


/// Supply on the way counts against the need: when the pylons ordered (8
/// each) and the nexuses about to finish (15 each) bring at least the free
/// supply wanted (2 per production structure, 2 more while workers are
/// made) plus whatever is used beyond the cap, no pylon is wanted.
pub proof fn law_pending_supply_counts(
    supply_cap: u32,
    supply_used: u32,
    supply_left: u32,
    production_structures: usize,
    producing_workers: bool,
    ordered_pylons: usize,
    almost_done_nexi: usize,
)
    requires
        8 * ordered_pylons + 15 * almost_done_nexi >= production_structures * 2 + (if producing_workers { 2int } else { 0int })
            + (if supply_used > supply_cap { supply_used - supply_cap } else { 0int }),
    ensures
        !supply_wanted(supply_cap, supply_used, supply_left, production_structures, producing_workers, ordered_pylons, almost_done_nexi),
{
}

/// More supply on the way never makes a pylon due: one more pylon ordered,
/// or one more nexus about to finish, never turns "no pylon" into "pylon".
pub proof fn law_more_pending_supply_never_wants_more(
    supply_cap: u32,
    supply_used: u32,
    supply_left: u32,
    production_structures: usize,
    producing_workers: bool,
    ordered_pylons: usize,
    almost_done_nexi: usize,
)
    requires
        !supply_wanted(supply_cap, supply_used, supply_left, production_structures, producing_workers, ordered_pylons, almost_done_nexi),
        ordered_pylons < usize::MAX,
        almost_done_nexi < usize::MAX,
    ensures
        !supply_wanted(supply_cap, supply_used, supply_left, production_structures, producing_workers, ordered_pylons, (almost_done_nexi + 1) as usize),
        !supply_wanted(supply_cap, supply_used, supply_left, production_structures, producing_workers, (ordered_pylons + 1) as usize, almost_done_nexi),
{
}

/// A pylon is due only below the cap of 200 and when less free supply is
/// left than wanted.
pub proof fn law_supply_wanted_only_when_short(
    supply_cap: u32,
    supply_used: u32,
    supply_left: u32,
    production_structures: usize,
    producing_workers: bool,
    ordered_pylons: usize,
    almost_done_nexi: usize,
)
    requires
        supply_wanted(supply_cap, supply_used, supply_left, production_structures, producing_workers, ordered_pylons, almost_done_nexi),
    ensures
        supply_cap != 200,
        supply_left < production_structures * 2 + (if producing_workers { 2int } else { 0int }),
{
}

} // verus!
