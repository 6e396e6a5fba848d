use rebicycler::construction::{
    evaluate_construction_project, needs_more_supply, project_action, ConstructionManager, ConstructionProject, ProjectAction,
    ProjectNeeds, ProjectOutcome, PROJECT_MAX_LIFETIME,
};
use rebicycler::errors::AssignmentIssue;
use rebicycler::geometry::Point;
use rebicycler::knowledge::{Alliance, Knowledge, KnowledgeError, Race, SeenUnit, UnitKnowledge};
use rebicycler::monitor::{existing_workers, format_production, get_protoss_ability_upgrades, get_protoss_standard_upgrades};
use rebicycler::siting::ConstructionSite;
use rebicycler::unit_types as ut;
use rebicycler::upgrades as up;
use rebicycler::Tag;

fn seen(tag: u64, type_id: u32, alliance: Alliance, is_structure: bool) -> SeenUnit {
    SeenUnit { tag, type_id, position: Point::new(tag as i32, 0), alliance, is_structure }
}

#[test]
fn first_sightings_are_kept() {
    let mut k = Knowledge::default();
    let first = vec![seen(1, ut::PROBE, Alliance::Own, false), seen(2, ut::PROBE, Alliance::Own, false), seen(3, ut::NEXUS, Alliance::Own, true)];
    assert_eq!(k.add_newly_seen_units(&first, 5), vec![ut::PROBE, ut::NEXUS]);
    let second = vec![seen(4, ut::PROBE, Alliance::Own, false), seen(9, ut::PYLON, Alliance::Enemy, true)];
    assert_eq!(k.add_newly_seen_units(&second, 8), vec![ut::PYLON]);
}

#[test]
fn a_seen_unit_that_dies_is_remembered_dead() {
    let mut k = Knowledge::default();
    k.update_seen_units(&vec![seen(1, ut::ZEALOT, Alliance::Enemy, false)], 3);
    k.update_seen_units(&vec![seen(1, ut::ZEALOT, Alliance::Enemy, false)], 7);
    let known = k.unit_destroyed(1).unwrap();
    assert_eq!(known, UnitKnowledge::from_unit(&seen(1, ut::ZEALOT, Alliance::Enemy, false), 7));
    assert_eq!(k.unit_destroyed(1), Err(KnowledgeError::UnknownUnitDestroyed));
    assert_eq!(k.unit_destroyed(42), Err(KnowledgeError::UnknownUnitDestroyed));
}

#[test]
fn enemy_buildings_are_the_enemy_structures_seen() {
    let mut k = Knowledge::default();
    let units = vec![
        seen(1, ut::PYLON, Alliance::Enemy, true),
        seen(2, ut::ZEALOT, Alliance::Enemy, false),
        seen(3, ut::PYLON, Alliance::Own, true),
        seen(4, ut::NEXUS, Alliance::Enemy, true),
    ];
    k.update_seen_units(&units, 1);
    let buildings: Vec<u32> = k.get_enemy_buildings().iter().map(|b| b.type_id).collect();
    assert_eq!(buildings, vec![ut::PYLON, ut::NEXUS]);
    k.unit_destroyed(1).unwrap();
    assert_eq!(k.get_enemy_buildings().len(), 1);
}

#[test]
fn race_and_expansion_needs_are_recorded() {
    let mut k = Knowledge::default();
    assert_eq!(k.confirmed_enemy_race(), None);
    k.confirm_race(Race::Zerg);
    assert_eq!(k.confirmed_enemy_race(), Some(Race::Zerg));
    assert!(!k.expansions_need_detectors() && !k.expansions_need_clearing());
    k.set_expansion_needs(true, false);
    assert!(k.expansions_need_detectors() && !k.expansions_need_clearing());
}

fn probe(tag: u64) -> Tag {
    Tag { tag, unit_type: ut::PROBE }
}

#[test]
fn a_project_takes_one_probe_as_builder() {
    let mut p = ConstructionProject::new(ut::GATEWAY, ConstructionSite::standard(Point::new(0, 0)), 0);
    assert_eq!(p.to_text(), format!("Construction[{}]", ut::GATEWAY));
    let err = p.assign(Tag { tag: 1, unit_type: ut::ZEALOT }).unwrap_err();
    assert_eq!(err.reason, AssignmentIssue::InvalidUnit);
    assert_eq!(err.manager, format!("Construction[{}]", ut::GATEWAY));
    assert!(p.assign(probe(1)).is_ok());
    assert_eq!(p.builder, Some(1));
    assert_eq!(p.assign(probe(2)).unwrap_err().reason, AssignmentIssue::DifferentUnitAssignedInRole);
    assert_eq!(p.remove(probe(2)).unwrap_err().reason, AssignmentIssue::DifferentUnitAssignedInRole);
    assert!(p.remove(probe(1)).is_ok());
    assert_eq!(p.remove(probe(1)).unwrap_err().reason, AssignmentIssue::UnitNotAssigned);
}

#[test]
fn project_needs_come_in_order() {
    let mut p = ConstructionProject::new(ut::GATEWAY, ConstructionSite::standard(Point::new(0, 0)), 10);
    assert_eq!(evaluate_construction_project(&p, true, true, 11), ProjectNeeds::Cleaners);
    assert_eq!(evaluate_construction_project(&p, false, true, 11), ProjectNeeds::Detector);
    assert_eq!(evaluate_construction_project(&p, false, false, 11), ProjectNeeds::BuilderRallied);
    p.builder = Some(4);
    assert_eq!(evaluate_construction_project(&p, false, false, 11), ProjectNeeds::BuilderOrdered(4));
    p.builder_ordered = true;
    assert_eq!(evaluate_construction_project(&p, false, false, 10 + PROJECT_MAX_LIFETIME), ProjectNeeds::Nothing);
    assert_eq!(evaluate_construction_project(&p, false, false, 11 + PROJECT_MAX_LIFETIME), ProjectNeeds::Cancelling);
}

#[test]
fn the_manager_files_projects_by_site() {
    let mut m = ConstructionManager::new();
    let at = Point::new(256, 512);
    let site = ConstructionSite::standard(at);
    assert!(m.get(at).is_none());
    assert_eq!(m.add_builder(at, 3), Err(AssignmentIssue::InvalidProject));
    m.new_project(ut::GATEWAY, site, 0);
    assert_eq!(m.get(at).unwrap().building, ut::GATEWAY);
    assert_eq!(m.add_builder(at, 3), Ok(()));
    assert_eq!(m.log_construction_queued(at, true), Ok(()));
    assert_eq!(m.add_babysitters(at, 8), Ok(()));
    assert_eq!(m.add_detector_mission(at, 9), Ok(()));
    let p = m.get(at).unwrap();
    assert_eq!((p.builder, p.builder_ordered, p.clearing_crew, p.detector), (Some(3), true, Some(8), Some(9)));
    assert_eq!(m.check_construction_projects(true, true, 5), vec![(at, ProjectNeeds::Nothing)]);
    m.remove_project(site);
    assert!(m.get(at).is_none());
    assert!(m.check_construction_projects(false, false, 0).is_empty());
}

#[test]
fn supply_is_wanted_when_short() {
    assert!(!needs_more_supply(200, 190, 10, 5, true, 0, 0));
    assert!(needs_more_supply(23, 20, 3, 2, true, 0, 0));
    assert!(!needs_more_supply(23, 20, 6, 2, true, 0, 0));
    assert!(!needs_more_supply(23, 20, 3, 2, true, 1, 0));
    assert!(needs_more_supply(23, 25, 0, 5, false, 1, 0));
}

#[test]
fn upgrade_lines_mark_what_is_done() {
    let none = get_protoss_standard_upgrades(&vec![]);
    assert_eq!(none, vec!["Ground: ", "Air: ", "Shields: "]);
    let done = vec![up::PROTOSS_GROUND_WEAPONS_LEVEL_1, up::PROTOSS_GROUND_ARMORS_LEVEL_1, up::PROTOSS_SHIELDS_LEVEL_2];
    let lines = get_protoss_standard_upgrades(&done);
    assert_eq!(lines[0], "Ground: \u{1f6e1}\u{fe0f}\u{1f52a}");
    assert_eq!(lines[2], "Shields: \u{1f535}");
    let abilities = get_protoss_ability_upgrades(&vec![up::CHARGE]);
    assert_eq!(abilities.len(), 4);
    assert_eq!(abilities[0], "        ");
    assert_eq!(abilities[1], "\u{1f45f}      ");
}

#[test]
fn existing_workers_never_go_negative() {
    assert_eq!(existing_workers(20, 3), 17);
    assert_eq!(existing_workers(2, 3), 0);
}

#[test]
fn each_need_has_its_action() {
    assert_eq!(project_action(ProjectNeeds::Nothing), ProjectAction::Wait);
    assert_eq!(project_action(ProjectNeeds::Cancelling), ProjectAction::Wait);
    assert_eq!(project_action(ProjectNeeds::Cleaners), ProjectAction::OpenGuardMission);
    assert_eq!(project_action(ProjectNeeds::Detector), ProjectAction::OpenDetectionMission);
    assert_eq!(project_action(ProjectNeeds::BuilderRallied), ProjectAction::RallyBuilder);
    assert_eq!(project_action(ProjectNeeds::BuilderOrdered(7)), ProjectAction::OrderBuilder(7));
}

#[test]
fn outcomes_are_filed_with_the_project() {
    let mut m = ConstructionManager::new();
    let at = Point::new(512, 512);
    assert_eq!(m.record_outcome(at, ProjectOutcome::GuardMission(1)), Err(AssignmentIssue::InvalidProject));
    m.new_project(ut::PYLON, ConstructionSite::pylon(at), 0);
    assert_eq!(m.record_outcome(at, ProjectOutcome::Waited), Ok(()));
    assert_eq!(m.record_outcome(at, ProjectOutcome::BuilderRallied(Err(AssignmentIssue::NoUnits))), Err(AssignmentIssue::NoUnits));
    assert_eq!(m.record_outcome(at, ProjectOutcome::BuilderRallied(Ok(12))), Ok(()));
    assert_eq!(m.record_outcome(at, ProjectOutcome::BuilderOrdered(Ok(false))), Ok(()));
    assert_eq!(m.record_outcome(at, ProjectOutcome::DetectionMission(4)), Ok(()));
    let p = m.get(at).unwrap();
    assert_eq!((p.builder, p.builder_ordered, p.detector, p.clearing_crew), (Some(12), false, Some(4), None));
}

#[test]
fn production_lines_group_rows_by_structure() {
    let row = |a: &str, b: &str, c: &str, d: &str| (a.to_string(), b.to_string(), c.to_string(), d.to_string());
    let mut rows = vec![row("Gateway", "Zealot", "2", ": 0.5"), row("Nexus", "Probe", "1", ": 0.3"), row("Gateway", "", "1", "")];
    let lines = format_production(&mut rows);
    assert_eq!(lines, vec!["Nexus", " - Probe[1]: 0.3", "Gateway", " - Zealot[2]: 0.5", " - [1]"]);
    assert!(rows.is_empty());
    assert!(format_production(&mut vec![]).is_empty());
}
