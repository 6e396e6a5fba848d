use rebicycler::abilities as ab;
use rebicycler::assignment_manager::Commands;
use rebicycler::geometry::Point;
use rebicycler::micro::MinerMicroState;
use rebicycler::mining::{worker_micro, worker_update, AssetType, Miner, MinerAsset, MinerController, ResourcePairing, Townhall};
use rebicycler::unit_types as ut;
use rebicycler::units::{Target, UnitSnapshot};

fn unit(tag: u64, x: i32, is_mineral: bool, is_geyser: bool, is_townhall: bool) -> UnitSnapshot {
    UnitSnapshot {
        tag,
        unit_type: if is_townhall { ut::NEXUS } else { ut::PROBE },
        position: Point::new(x * 256, 0),
        is_mineral,
        is_geyser,
        is_townhall,
        is_carrying_resource: false,
    }
}

fn worker(tag: u64) -> Miner {
    Miner::new(&unit(tag, 1, false, false, false))
}

/// A nexus (tag 100) with two mineral fields (1, 2) and an assimilator (3).
fn one_base() -> MinerController {
    let mut mc = MinerController::default();
    let nexus = unit(100, 0, false, false, true);
    let resources = vec![unit(1, 5, true, false, false), unit(2, 6, true, false, false), unit(3, 7, false, true, false)];
    mc.add_townhall(&nexus, &resources);
    mc
}

#[test]
fn empty_controller_reports_nothing() {
    let mc = MinerController::default();
    assert_eq!(mc.to_text(), "M:0:0 G:0:0");
    assert!(mc.saturation().is_empty());
    assert!(mc.employed_miners().is_empty());
}

#[test]
fn no_role_no_job() {
    let mut mc = MinerController::default();
    assert_eq!(mc.add_worker(worker(7)), Err(2));
}

#[test]
fn townhall_files_a_role_per_resource() {
    let mc = one_base();
    assert_eq!(mc.saturation().len(), 3);
    assert_eq!(mc.to_text(), "M:0:2 G:0:1");
}

#[test]
fn adding_a_townhall_twice_keeps_one_role_each() {
    let mut mc = one_base();
    let nexus = unit(100, 0, false, false, true);
    let resources = vec![unit(1, 5, true, false, false)];
    mc.add_townhall(&nexus, &resources);
    assert_eq!(mc.saturation().len(), 3);
}

#[test]
fn workers_fill_roles_in_order_up_to_capacity() {
    let mut mc = one_base();
    for tag in 10..17 {
        assert_eq!(mc.add_worker(worker(tag)), Ok(()));
    }
    assert_eq!(mc.to_text(), "M:4:2 G:3:1");
    let counts: Vec<(u64, usize)> = mc.saturation().iter().map(|(p, n)| (p.tag, *n)).collect();
    assert_eq!(counts, vec![(1, 2), (2, 2), (3, 3)]);
    assert_eq!(mc.add_worker(worker(17)), Err(2));
    assert_eq!(mc.to_text(), "M:4:2 G:3:1");
}

#[test]
fn a_worker_keeps_its_role() {
    let mut mc = one_base();
    assert_eq!(mc.add_worker(worker(10)), Ok(()));
    assert_eq!(mc.add_worker(worker(10)), Ok(()));
    assert_eq!(mc.to_text(), "M:1:2 G:0:1");
}

#[test]
fn removing_a_worker_frees_its_place() {
    let mut mc = one_base();
    mc.add_worker(worker(10)).unwrap();
    assert!(mc.remove_worker(10));
    assert!(!mc.remove_worker(10));
    assert_eq!(mc.to_text(), "M:0:2 G:0:1");
}

#[test]
fn removing_a_resource_frees_its_workers() {
    let mut mc = one_base();
    for tag in 10..13 {
        mc.add_worker(worker(tag)).unwrap();
    }
    let mut freed = mc.remove_resource(1);
    freed.sort();
    assert_eq!(freed, vec![10, 11]);
    assert_eq!(mc.to_text(), "M:1:1 G:0:1");
    assert!(mc.remove_resource(1).is_empty());
}

#[test]
fn removing_a_townhall_frees_every_worker() {
    let mut mc = one_base();
    for tag in 10..15 {
        mc.add_worker(worker(tag)).unwrap();
    }
    let mut freed = mc.remove_townhall(100);
    freed.sort();
    assert_eq!(freed, vec![10, 11, 12, 13, 14]);
    assert_eq!(mc.to_text(), "M:0:0 G:0:0");
    assert!(mc.remove_townhall(100).is_empty());
}

#[test]
fn a_resource_moves_to_a_nearer_townhall() {
    let mut mc = one_base();
    mc.add_worker(worker(10)).unwrap();
    let other = unit(200, 9, false, false, true);
    mc.add_resource(&unit(1, 5, true, false, false), &other);
    assert_eq!(mc.to_text(), "M:0:2 G:0:1");
    let moved: Vec<u64> = mc.saturation().iter().filter(|(p, _)| p.tag == 1).map(|(p, _)| p.townhall.tag).collect();
    assert_eq!(moved, vec![200]);
}

#[test]
fn assignments_of_unfiled_workers_give_no_commands() {
    let mut mc = one_base();
    mc.add_worker(worker(10)).unwrap();
    assert!(mc.issue_commands().is_empty());
    let seen = vec![unit(10, 4, false, false, false)];
    assert!(mc.get_peon_updates(&seen).is_empty());
    mc.apply_peon_updates(vec![worker(10)]);
    assert!(mc.issue_commands().is_empty());
    assert!(mc.employed_miners().is_empty());
}

fn pairing() -> ResourcePairing {
    ResourcePairing {
        resource: MinerAsset { location: Point::new(0, 0), asset_type: AssetType::Minerals },
        townhall: Townhall { tag: 100, location: Point::new(10 * 256, 0) },
        location: Point::new(0, 0),
        tag: 5,
    }
}

#[test]
fn commands_follow_the_gathering_state() {
    let mut m = worker(10);
    m.state = MinerMicroState::Gather;
    assert_eq!(worker_micro(&m, &pairing()), (ab::SMART, Target::Tag(5), false));
    m.state = MinerMicroState::Idle;
    assert_eq!(worker_micro(&m, &pairing()), (ab::STOP, Target::NoTarget, false));
    m.state = MinerMicroState::ReturnCargo;
    assert_eq!(worker_micro(&m, &pairing()), (ab::HARVEST_RETURN, Target::NoTarget, false));
    m.state = MinerMicroState::GatherMove(Point::new(3, 4));
    assert_eq!(worker_micro(&m, &pairing()), (ab::MOVE, Target::Pos(Point::new(3, 4)), false));
}

#[test]
fn a_loaded_gatherer_walks_back() {
    let mut m = worker(10);
    m.position = Point::new(0, 0);
    m.holding_resource = true;
    m.state = MinerMicroState::Gather;
    match worker_update(&m, &pairing()) {
        MinerMicroState::ReturnMove(p) => {
            assert!(p.x > 0 && p.x < 10 * 256);
            assert_eq!(p.y, 0);
        }
        other => panic!("unexpected state {other:?}"),
    }
    m.holding_resource = false;
    assert_eq!(worker_update(&m, &pairing()), MinerMicroState::Gather);
}
