use rebicycler::geometry::Point;
use rebicycler::micro::{MinerAsset, MinerManager, MiningError, ResourceSite};

fn init_miner() -> MinerManager {
    let mut mm = MinerManager::default();
    mm.add_resource_site(ResourceSite {
        location: Point::new(0, 0),
        resource: MinerAsset::Townhall,
        tag: 999_999,
    });
    mm
}

fn site(resource: MinerAsset, tag: u64) -> ResourceSite {
    ResourceSite { location: Point::new(0, 0), resource, tag }
}

#[test]
fn add_worker_to_empty_manager() {
    let mut mm = init_miner();
    assert!(mm.employ_miner(1).is_err());
}

#[test]
fn add_three_to_patch() {
    let mut mm = init_miner();
    mm.add_resource_site(site(MinerAsset::Minerals, 999));
    assert!(mm.assign_miner(1).is_ok());
    assert!(mm.assign_miner(2).is_ok());
    assert!(mm.assign_miner(3).is_err());
}

#[test]
fn add_to_patch_twice() {
    let mut mm = init_miner();
    mm.add_resource_site(site(MinerAsset::Minerals, 999));
    assert!(mm.assign_miner(1).is_ok());
    assert!(mm.assign_miner(1).is_err());
}

#[test]
fn add_four_to_gas() {
    let mut mm = init_miner();
    mm.add_resource_site(site(MinerAsset::Gas, 999));
    assert!(mm.assign_miner(1).is_ok());
    assert!(mm.assign_miner(2).is_ok());
    assert!(mm.assign_miner(3).is_ok());

    assert_eq!(mm.saturation(), (0, 0, 3, 3));
    assert!(mm.assign_miner(4).is_err());
}

#[test]
fn add_and_remove_resource() {
    let mut mm = init_miner();
    mm.add_resource_site(site(MinerAsset::Minerals, 999));
    assert!(mm.assign_miner(1).is_ok());
    assert_eq!(mm.remove_resource(999, true).len(), 1);
    assert_eq!(mm.employed_miners().len(), 0);
    assert_eq!(mm.saturation(), (0, 0, 0, 0));
}

#[test]
fn add_two_townhalls() {
    let mut mm = MinerManager::default();
    mm.add_resource_site(site(MinerAsset::Townhall, 999_999));
    mm.add_resource_site(site(MinerAsset::Townhall, 999_998));
    mm.add_resource_site(site(MinerAsset::Minerals, 999));
    assert!(mm.assign_miner(1).is_ok());
    assert!(mm.assign_miner(2).is_ok());
    assert!(mm.assign_miner(3).is_err());

    assert_eq!(format!("Patches: {}:{} | Gasses: {}:{}", 1, 2, 0, 0), mm.to_text());
}

#[test]
fn add_remove_addback() {
    let mut mm = init_miner();
    mm.add_resource_site(site(MinerAsset::Minerals, 999));
    for i in 0..2 {
        mm.add_resource_site(site(MinerAsset::Gas, 10_000 + i));
    }
    assert!(mm.assign_miner(1).is_ok());
    for _ in 0..10 {
        assert!(mm.remove_miner(1));
        assert!(mm.assign_miner(1).is_ok());
    }
    assert_eq!(mm.saturation(), (2, 1, 6, 0));
    assert_eq!(mm.assignment_counts().iter().map(|(_, c)| *c).sum::<usize>(), 1);
}

#[test]
fn simulate_game() {
    let mut mm = init_miner();
    for i in 0..8 {
        mm.add_resource_site(site(MinerAsset::Minerals, 1_000 + i));
    }
    assert_eq!(mm.saturation(), (16, 0, 0, 0));

    for i in 0..12 {
        assert!(mm.assign_miner(i).is_ok());
    }
    assert_eq!(mm.saturation(), (16, 12, 0, 0));

    for i in 0..4 {
        assert!(mm.assign_miner(12 + i).is_ok());
    }
    assert_eq!(mm.saturation(), (16, 16, 0, 0));

    assert!(matches!(mm.assign_miner(16), Err(MiningError::NoResources)));

    assert!(mm.remove_miner(15));
    assert!(mm.assign_miner(15).is_ok());
    assert!(mm.assign_miner(16).is_err());

    assert_eq!(format!("Patches: {}:{} | Gasses: {}:{}", 8, 16, 0, 0), mm.to_text());
    assert_eq!(mm.saturation(), (16, 16, 0, 0));

    for i in 0..2 {
        mm.add_resource_site(site(MinerAsset::Gas, 10_000 + i));
    }
    assert_eq!(mm.saturation(), (16, 16, 6, 0));

    for i in 0..6 {
        assert!(mm.assign_miner(16 + i).is_ok());
    }
    assert_eq!(mm.saturation(), (16, 16, 6, 6));
    assert_eq!(format!("Patches: {}:{} | Gasses: {}:{}", 8, 16, 2, 6), mm.to_text());

    assert!(mm.assign_miner(22).is_err());

    mm.add_resource_site(ResourceSite {
        location: Point::new(10 * 256, 0),
        resource: MinerAsset::Townhall,
        tag: 999_999 + 1,
    });
    for i in 0..8 {
        mm.add_resource_site(site(MinerAsset::Minerals, 1_008 + i));
    }

    for i in 0..16 {
        assert!(mm.assign_miner(22 + i).is_ok());
    }
    assert_eq!(mm.saturation(), (32, 32, 6, 6));
    assert_eq!(format!("Patches: {}:{} | Gasses: {}:{}", 16, 32, 2, 6), mm.to_text());
}

fn worker_unit(tag: u64) -> rebicycler::units::UnitSnapshot {
    rebicycler::units::UnitSnapshot {
        tag,
        unit_type: rebicycler::unit_types::PROBE,
        position: Point::new(0, 0),
        is_mineral: false,
        is_geyser: false,
        is_townhall: false,
        is_carrying_resource: false,
    }
}

#[test]
fn a_micro_step_employs_new_workers_and_orders_the_employed() {
    let mut mm = init_miner();
    mm.add_resource_site(site(MinerAsset::Minerals, 999));
    let units = vec![worker_unit(1), worker_unit(2), worker_unit(3)];
    let (orders, refused) = mm.micro(&units);
    assert_eq!(orders.len(), 2);
    assert_eq!(refused, vec![MiningError::NoResources]);
    assert_eq!(mm.saturation(), (2, 2, 0, 0));
    let (again, refused_again) = mm.micro(&units);
    assert_eq!(again.len(), 2);
    assert_eq!(refused_again.len(), 1);
}
