use rebicycler::bot::{closest_worker, research_decision, BotCore, BotIssue};
use rebicycler::errors::{BuildError, Either};
use rebicycler::geometry::Point;
use rebicycler::knowledge::{Alliance, Knowledge, SeenUnit};
use rebicycler::micro::MinerManager;
use rebicycler::siting::{ExpansionSpots, SitingDirector};
use rebicycler::unit_types as ut;

fn fresh_bot() -> BotCore {
    BotCore {
        knowledge: Knowledge::default(),
        siting_director: SitingDirector::default(),
        mining_manager: MinerManager::default(),
        issues: Vec::new(),
    }
}

#[test]
fn the_nearest_worker_is_picked_first_come() {
    let workers = vec![(1, Point::new(10, 0)), (2, Point::new(3, 0)), (3, Point::new(0, 3))];
    assert_eq!(closest_worker(&workers, Point::new(0, 0)), Some(1));
    assert_eq!(closest_worker(&vec![], Point::new(0, 0)), None);
}

#[test]
fn an_unseen_death_changes_nothing() {
    let mut bot = fresh_bot();
    bot.unit_destroyed(77);
    assert!(bot.issues.is_empty());
}

#[test]
fn a_seen_probe_that_dies_is_remembered_dead() {
    let mut bot = fresh_bot();
    let probe = SeenUnit { tag: 5, type_id: ut::PROBE, position: Point::new(0, 0), alliance: Alliance::Own, is_structure: false };
    bot.knowledge.update_seen_units(&vec![probe], 1);
    bot.unit_destroyed(5);
    assert!(bot.knowledge.unit_destroyed(5).is_err());
    assert!(bot.issues.is_empty());
}

#[test]
fn a_worker_without_jobs_is_reported() {
    let mut bot = fresh_bot();
    bot.back_to_work(9);
    assert_eq!(bot.issues.len(), 1);
    assert!(matches!(bot.issues[0], BotIssue::CantEmployWorker(_, _)));
}

#[test]
fn failed_placements_block_the_site() {
    let mut bot = fresh_bot();
    let base = Point::new(40 * 256, 40 * 256);
    bot.siting_director.initialize_global_placement(&vec![ExpansionSpots { base, pylon_spots: vec![] }], &vec![]);
    assert!(bot.siting_director.iter().iter().any(|s| s.location() == base && s.is_free()));
    assert_eq!(bot.build_failed(BuildError::CantPlace(base, ut::NEXUS)), None);
    assert!(bot.siting_director.iter().iter().all(|s| !(s.location() == base && s.is_free())));
}

#[test]
fn other_build_failures_are_reported() {
    let mut bot = fresh_bot();
    let nowhere = Point::new(256, 256);
    assert_eq!(
        bot.build_failed(BuildError::CantPlace(nowhere, ut::GATEWAY)),
        Some(Either::Left(BuildError::NoConstructionSiteHere(nowhere)))
    );
    assert_eq!(bot.build_failed(BuildError::NoTrainer), Some(Either::Left(BuildError::NoTrainer)));
}

#[test]
fn a_first_frame_without_a_nexus_is_reported() {
    let mut bot = fresh_bot();
    bot.first_frame(&vec![], &vec![], None);
    assert!(bot.issues.iter().any(|i| matches!(i, BotIssue::NoInitialNexus(_))));
}

#[test]
fn building_needs_a_site_and_a_worker() {
    let mut bot = fresh_bot();
    let workers = vec![(1, Point::new(0, 0))];
    assert_eq!(bot.plan_build(ut::GATEWAY, Point::new(0, 0), &workers), Err(BuildError::NoPlacementLocations));
    assert!(bot.take_gas(Point::new(0, 0), &workers).is_err());
}

fn snap(tag: u64, unit_type: u32, x: i32, is_mineral: bool, is_townhall: bool) -> rebicycler::units::UnitSnapshot {
    rebicycler::units::UnitSnapshot {
        tag,
        unit_type,
        position: Point::new(x, 0),
        is_mineral,
        is_geyser: false,
        is_townhall,
        is_carrying_resource: false,
    }
}

#[test]
fn the_first_frame_mines_the_start_and_marks_the_nexus() {
    let mut bot = fresh_bot();
    let base = Point::new(40 * 256, 0);
    bot.siting_director.initialize_global_placement(&vec![ExpansionSpots { base, pylon_spots: vec![] }], &vec![]);
    bot.mining_manager.add_townhall(&snap(100, ut::NEXUS, 40 * 256, false, true)).unwrap();
    let minerals = vec![snap(1, ut::MINERAL_FIELD, 45 * 256, true, false), snap(2, ut::MINERAL_FIELD, 46 * 256, true, false)];
    let nexus = snap(100, ut::NEXUS, 40 * 256, false, true);
    bot.first_frame(&minerals, &vec![7, 8, 9], Some(&nexus));
    assert_eq!(bot.mining_manager.saturation(), (4, 3, 0, 0));
    assert!(bot.issues.is_empty());
    assert!(bot.siting_director.iter().iter().all(|s| !s.is_free()));
}

#[test]
fn a_finished_assimilator_is_mined_and_other_buildings_are_not() {
    let mut bot = fresh_bot();
    let mut gas = snap(50, ut::ASSIMILATOR, 10 * 256, false, false);
    gas.is_geyser = true;
    bot.complete_construction(&gas, &vec![]);
    assert_eq!(bot.mining_manager.saturation(), (0, 0, 3, 0));
    assert!(matches!(bot.issues[0], BotIssue::FinishingBuilding(_)));
    let gateway = snap(51, ut::GATEWAY, 20 * 256, false, false);
    bot.complete_construction(&gateway, &vec![]);
    assert_eq!(bot.mining_manager.saturation(), (0, 0, 3, 0));
}

#[test]
fn a_started_building_takes_its_site() {
    let mut bot = fresh_bot();
    let base = Point::new(40 * 256, 0);
    bot.siting_director.initialize_global_placement(&vec![ExpansionSpots { base, pylon_spots: vec![] }], &vec![]);
    let nexus = snap(100, ut::NEXUS, 40 * 256, false, true);
    bot.start_construction(&nexus, &vec![]);
    assert!(bot.issues.is_empty());
    assert!(bot.siting_director.iter().iter().all(|s| !s.is_free()));
    bot.start_construction(&snap(101, ut::GATEWAY, 3 * 256, false, false), &vec![]);
    assert!(matches!(bot.issues[0], BotIssue::NoSlotForBuilding(_)));
}

#[test]
fn a_worker_without_a_townhall_is_refused_with_the_tally() {
    let mut bot = fresh_bot();
    bot.back_to_work(9);
    assert_eq!(bot.issues, vec![BotIssue::CantEmployWorker(rebicycler::micro::MiningError::NoTownhalls, (0, 0, 0, 0))]);
}

#[test]
fn idle_workers_are_each_reported_back_to_work_in_order() {
    let mut bot = fresh_bot();
    let base = Point::new(40 * 256, 0);
    bot.siting_director.initialize_global_placement(&vec![ExpansionSpots { base, pylon_spots: vec![] }], &vec![]);
    let nexus = snap(100, ut::NEXUS, 40 * 256, false, true);
    bot.start_construction(&nexus, &vec![7, 8]);
    assert_eq!(
        bot.issues,
        vec![
            BotIssue::CantEmployWorker(rebicycler::micro::MiningError::NoTownhalls, (0, 0, 0, 0)),
            BotIssue::BackToWork(7),
            BotIssue::CantEmployWorker(rebicycler::micro::MiningError::NoTownhalls, (0, 0, 0, 0)),
            BotIssue::BackToWork(8),
        ]
    );
}

#[test]
fn a_finished_nexus_reports_what_cannot_be_mined_by_it() {
    let mut bot = fresh_bot();
    let nexus = snap(100, ut::NEXUS, 40 * 256, false, true);
    let rock = snap(3, ut::PROBE, 41 * 256, false, false);
    let field = snap(4, ut::MINERAL_FIELD, 42 * 256, true, false);
    bot.complete_construction(&nexus, &vec![rock, field]);
    assert_eq!(bot.issues.len(), 3);
    assert!(matches!(bot.issues[0], BotIssue::FinishingBuilding(_)));
    assert_eq!(bot.issues[1], BotIssue::NexusNotMined(BuildError::NoBuildingLocationHere(Point::new(40 * 256, 0))));
    assert_eq!(
        bot.issues[2],
        BotIssue::MineralNotMined(rebicycler::micro::MiningError::NotHarvestable(rebicycler::units::Tag { tag: 3, unit_type: ut::PROBE }))
    );
    assert_eq!(bot.mining_manager.report(), (1, 0, 0, 0));
}

#[test]
fn a_lost_assimilator_off_every_site_is_reported() {
    let mut bot = fresh_bot();
    let gas = SeenUnit { tag: 60, type_id: ut::ASSIMILATOR, position: Point::new(0, 0), alliance: Alliance::Own, is_structure: true };
    bot.knowledge.update_seen_units(&vec![gas], 1);
    bot.unit_destroyed(60);
    assert_eq!(bot.issues, vec![BotIssue::AssimilatorNotFound]);
}

#[test]
fn gas_is_taken_only_at_an_expansion_location() {
    let mut bot = fresh_bot();
    let base = Point::new(40 * 256, 0);
    bot.siting_director.initialize_global_placement(&vec![ExpansionSpots { base, pylon_spots: vec![] }], &vec![]);
    let workers = vec![(1, Point::new(0, 0))];
    let elsewhere = Point::new(10 * 256, 0);
    assert_eq!(bot.take_gas(elsewhere, &workers), Err(BuildError::NoBuildingLocationHere(elsewhere)));
    assert_eq!(bot.take_gas(base, &workers), Err(BuildError::NoPlacementLocations));
}

#[test]
fn a_new_base_is_mined_only_at_an_expansion_location() {
    let mut bot = fresh_bot();
    let base = Point::new(40 * 256, 0);
    bot.siting_director.initialize_global_placement(&vec![ExpansionSpots { base, pylon_spots: vec![] }], &vec![]);
    let stray = snap(101, ut::NEXUS, 10 * 256, false, true);
    assert_eq!(bot.new_base_finished(&stray), Err(BuildError::NoBuildingLocationHere(Point::new(10 * 256, 0))));
    assert_eq!(bot.mining_manager.report(), (0, 0, 0, 0));
    assert_eq!(bot.new_base_finished(&snap(100, ut::NEXUS, 40 * 256, false, true)), Ok(()));
    bot.back_to_work(7);
    assert_eq!(bot.issues, vec![BotIssue::CantEmployWorker(rebicycler::micro::MiningError::NoResources, (0, 0, 0, 0))]);
}

#[test]
fn research_is_refused_in_order() {
    assert_eq!(research_decision(true, false, true, true), Err(BuildError::AlreadyResearching));
    assert_eq!(research_decision(false, true, true, true), Err(BuildError::AlreadyResearching));
    assert_eq!(research_decision(false, false, false, true), Err(BuildError::NoTrainer));
    assert_eq!(research_decision(false, false, true, false), Err(BuildError::CantAfford));
    assert_eq!(research_decision(false, false, true, true), Ok(()));
}

#[test]
fn gas_is_sought_at_each_townhall() {
    let mut bot = fresh_bot();
    let base = Point::new(40 * 256, 0);
    bot.siting_director.initialize_global_placement(&vec![ExpansionSpots { base, pylon_spots: vec![] }], &vec![]);
    let workers = vec![(1, Point::new(0, 0))];
    assert_eq!(bot.build_gas(&vec![], &workers), Err(BuildError::NoPlacementLocations));
    assert_eq!(bot.build_gas(&vec![Point::new(3 * 256, 0), base], &workers), Err(BuildError::NoPlacementLocations));
}

#[test]
fn gas_is_taken_at_the_first_townhall_that_has_one() {
    let mut bot = fresh_bot();
    let a = Point::new(40 * 256, 0);
    let b = Point::new(80 * 256, 0);
    let mut g1 = snap(70, ut::NOT_A_UNIT, 44 * 256, false, false);
    g1.is_geyser = true;
    let mut g2 = snap(71, ut::NOT_A_UNIT, 84 * 256, false, false);
    g2.is_geyser = true;
    bot.siting_director.initialize_global_placement(
        &vec![ExpansionSpots { base: a, pylon_spots: vec![] }, ExpansionSpots { base: b, pylon_spots: vec![] }],
        &vec![g1, g2],
    );
    let workers = vec![(1, Point::new(0, 0))];
    assert_eq!(bot.build_gas(&vec![b, a], &workers), Ok((1, 71)));
    assert_eq!(bot.build_gas(&vec![a, b], &workers), Ok((1, 70)));
}
