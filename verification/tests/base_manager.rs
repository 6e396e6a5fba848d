use rebicycler::base_manager::{get_closest_base_manager, new_base_finished, reassign_worker_to_nearest_base, take_gas_at_base, BaseManager, Expansion, GasLocation};
use rebicycler::errors::BuildError;
use rebicycler::geometry::Point;
use rebicycler::nearest::{closeratest, closest_index, closest_point};
use rebicycler::siting::{BuildingStatus, ExpansionSpots, PylonPower, SitingDirector, SlotSize};
use rebicycler::unit_types as ut;
use rebicycler::units::{building_names, UnitSnapshot};
use rebicycler::Tag;
use std::cmp::Ordering;

fn unit(tag: u64, unit_type: u32, x: i32) -> UnitSnapshot {
    UnitSnapshot {
        tag,
        unit_type,
        position: Point::new(x, 0),
        is_mineral: false,
        is_geyser: false,
        is_townhall: unit_type == ut::NEXUS,
        is_carrying_resource: false,
    }
}

fn base(x: i32) -> BaseManager {
    let minerals = vec![unit(1, ut::MINERAL_FIELD, x + 5)];
    let geysers = vec![unit(2, ut::NOT_A_UNIT, x + 7), unit(3, ut::NOT_A_UNIT, x + 9)];
    BaseManager::new(&unit(100 + x as u64, ut::NEXUS, x), Point::new(x, 0), &minerals, &geysers, format!("Expansion {x}"))
}

#[test]
fn a_new_base_has_free_geysers() {
    let b = base(0);
    assert_eq!(b.nexus, BuildingStatus::Built(Tag { tag: 100, unit_type: ut::NEXUS }, PylonPower::Depowered));
    assert_eq!(b.name, "Expansion 0");
    let g = b.get_free_geyser().unwrap();
    assert_eq!(g.geyser_tag, 2);
    assert!(g.is_here(&Tag { tag: 2, unit_type: ut::ASSIMILATOR }) == false);
}

#[test]
fn only_probes_work_at_a_base() {
    let mut b = base(0);
    assert!(b.assign_unit(&unit(7, ut::PROBE, 0)).is_ok());
    let e = b.assign_unit(&unit(8, ut::ZEALOT, 0)).unwrap_err();
    assert_eq!(e.0, "Unable to employ unit_tag at BaseManager");
    assert!(b.unassign_unit(&Tag { tag: 7, unit_type: ut::PROBE }).is_ok());
    assert!(b.unassign_unit(&Tag { tag: 8, unit_type: ut::ZEALOT }).is_err());
}

#[test]
fn assimilators_take_and_free_their_geyser() {
    let mut b = base(0);
    let gas = unit(50, ut::ASSIMILATOR, 7);
    assert!(b.add_building(&gas).is_ok());
    assert_eq!(b.get_free_geyser().unwrap().geyser_tag, 3);
    let nowhere = unit(51, ut::ASSIMILATOR, 99);
    assert_eq!(b.add_building(&nowhere), Err(BuildError::NoBuildingLocationHere(Point::new(99, 0))));
    assert!(b.unassign_unit(&Tag { tag: 50, unit_type: ut::ASSIMILATOR }).is_ok());
    assert_eq!(b.get_free_geyser().unwrap().geyser_tag, 2);
    let e = b.unassign_unit(&Tag { tag: 50, unit_type: ut::ASSIMILATOR }).unwrap_err();
    assert_eq!(e.0, "We didn't have a built geyser with this tag: 50");
}

#[test]
fn other_buildings_are_refused_with_their_type() {
    let mut b = base(0);
    assert_eq!(
        b.add_building(&unit(9, ut::GATEWAY, 0)),
        Err(BuildError::InvalidUnit(format!("Not a unit that can be assigned to a BaseManager: {}", ut::GATEWAY)))
    );
    assert!(b.unassign_unit(&Tag { tag: 100, unit_type: ut::NEXUS }).is_ok());
    assert_eq!(b.nexus, BuildingStatus::Free(Some(ut::NEXUS), PylonPower::Depowered));
    assert!(b.add_building(&unit(101, ut::NEXUS, 0)).is_ok());
    assert_eq!(b.nexus, BuildingStatus::Built(Tag { tag: 101, unit_type: ut::NEXUS }, PylonPower::Depowered));
}

#[test]
fn workers_go_to_the_nearest_base_with_a_nexus() {
    let mut bases = vec![base(0), base(3000)];
    assert!(reassign_worker_to_nearest_base(&mut bases, &unit(7, ut::PROBE, 2900)).is_ok());
    assert!(format!("{:?}", bases[1]).contains("workers: [Tag { tag: 7, unit_type: 84 }]"));
    assert!(format!("{:?}", bases[0]).contains("workers: []"));
    assert!(reassign_worker_to_nearest_base(&mut bases, &unit(9, ut::PROBE, 100)).is_ok());
    assert!(format!("{:?}", bases[0]).contains("workers: [Tag { tag: 9, unit_type: 84 }]"));
}

#[test]
fn workers_skip_bases_without_our_nexus() {
    let mut bases: Vec<BaseManager> = vec![];
    assert_eq!(reassign_worker_to_nearest_base(&mut bases, &unit(7, ut::PROBE, 0)).unwrap_err().0, "No base managers exist!");
    let mut lost = base(0);
    lost.unassign_unit(&Tag { tag: 100, unit_type: ut::NEXUS }).unwrap();
    bases.push(lost);
    bases.push(base(3000));
    assert!(reassign_worker_to_nearest_base(&mut bases, &unit(7, ut::PROBE, 0)).is_ok());
    assert!(reassign_worker_to_nearest_base(&mut bases, &unit(8, ut::STALKER, 0)).is_err());
    assert_eq!(get_closest_base_manager(&bases, Point::new(2900, 0)), Some(1));
    assert_eq!(get_closest_base_manager(&bases, Point::new(-5, 0)), Some(0));
    assert_eq!(get_closest_base_manager(&vec![], Point::new(0, 0)), None);
}

#[test]
fn nearest_points_first_come() {
    let pts = vec![Point::new(10, 0), Point::new(0, 4), Point::new(4, 0)];
    assert_eq!(closest_index(Point::new(0, 0), &pts), Some(1));
    assert_eq!(closest_point(Point::new(0, 0), &pts), Some(Point::new(0, 4)));
    assert_eq!(closest_index(Point::new(0, 0), &vec![]), None);
    assert_eq!(closeratest(Point::new(0, 0), Point::new(1, 0), Point::new(0, 2)), Ordering::Less);
    assert_eq!(closeratest(Point::new(0, 0), Point::new(3, 0), Point::new(0, 3)), Ordering::Equal);
    assert_eq!(closeratest(Point::new(0, 0), Point::new(3, 0), Point::new(0, 2)), Ordering::Greater);
}

#[test]
fn building_names_name_protoss_buildings() {
    assert_eq!(building_names(ut::NEXUS), "Nexus");
    assert_eq!(building_names(ut::SHIELD_BATTERY), "ShieldBattery");
    assert_eq!(building_names(ut::PROBE), "not implemented");
}

#[test]
fn sites_are_counted_by_size() {
    let mut d = SitingDirector::default();
    assert_eq!(d.to_text(), "Sites: S:0 M:0 L:0 G:0");
    d.initialize_global_placement(&vec![ExpansionSpots { base: Point::new(40 * 256, 40 * 256), pylon_spots: vec![] }], &vec![]);
    assert_eq!(d.to_text(), "Sites: S:0 M:0 L:1 G:0");
    assert_eq!(SlotSize::Small.to_text(), "2x2");
    assert_eq!(SlotSize::Townhall.to_text(), "5x5");
}

#[test]
fn gas_locations_start_free() {
    let g = GasLocation::from_unit(&unit(4, ut::NOT_A_UNIT, 3));
    assert_eq!(g.status, BuildingStatus::Free(Some(ut::ASSIMILATOR), PylonPower::Depowered));
    assert_eq!(g.location, Point::new(3, 0));
}

#[test]
fn scouts_go_to_the_expansions_out_of_sight_in_order() {
    let e = vec![(Point::new(1, 0), false), (Point::new(2, 0), true), (Point::new(3, 0), false)];
    assert_eq!(rebicycler::scouting::scouting_targets(&e), vec![Point::new(1, 0), Point::new(3, 0)]);
    assert!(rebicycler::scouting::scouting_targets(&vec![]).is_empty());
}

#[test]
fn a_finished_nexus_on_an_expansion_gets_a_base() {
    let mut bases: Vec<BaseManager> = vec![];
    let expansions = vec![Expansion {
        loc: Point::new(500, 0),
        minerals: vec![unit(1, ut::MINERAL_FIELD, 505)],
        geysers: vec![unit(2, ut::NOT_A_UNIT, 507), unit(3, ut::NOT_A_UNIT, 509)],
    }];
    let stray = unit(40, ut::NEXUS, 100);
    assert_eq!(new_base_finished(&mut bases, &stray, &expansions, &vec![], 1), Err(BuildError::NoBuildingLocationHere(Point::new(100, 0))));
    assert!(bases.is_empty());
    let nexus = unit(41, ut::NEXUS, 500);
    let gas = unit(50, ut::ASSIMILATOR, 507);
    assert_eq!(new_base_finished(&mut bases, &nexus, &expansions, &vec![gas, unit(51, ut::GATEWAY, 520)], 2), Ok(()));
    assert_eq!(bases.len(), 1);
    assert_eq!(bases[0].name, "Expansion 2");
    assert_eq!(bases[0].location, Point::new(500, 0));
    assert_eq!(bases[0].nexus, BuildingStatus::Built(Tag { tag: 41, unit_type: ut::NEXUS }, PylonPower::Depowered));
    assert_eq!(bases[0].get_free_geyser().unwrap().geyser_tag, 3);
}

#[test]
fn gas_at_a_base_goes_to_its_first_free_geyser() {
    let bases = vec![base(0), base(3000)];
    let workers = vec![(5, Point::new(2990, 0)), (6, Point::new(3010, 0))];
    assert_eq!(take_gas_at_base(&bases, Point::new(1, 0), &workers), Err(BuildError::NoBuildingLocationHere(Point::new(1, 0))));
    assert_eq!(take_gas_at_base(&bases, Point::new(3000, 0), &vec![]), Err(BuildError::NoTrainer));
    assert_eq!(take_gas_at_base(&bases, Point::new(3000, 0), &workers), Ok((6, 2)));
}
