use rebicycler::assignment_manager::{AssignmentError, AssignmentManager};
use rebicycler::geometry::Point;
use rebicycler::micro::MinerMicroState;
use rebicycler::mining::{AssetType, JobId, Miner, MinerAsset, ResourcePairing, Townhall};

type Table = AssignmentManager<Miner, ResourcePairing, u64, JobId>;

fn miner(tag: u64) -> Miner {
    Miner { worker_tag: tag, state: MinerMicroState::Idle, holding_resource: false, position: Point::new(0, 0) }
}

fn role(tag: u64, townhall: u64) -> ResourcePairing {
    ResourcePairing {
        resource: MinerAsset { location: Point::new(0, 0), asset_type: AssetType::Minerals },
        townhall: Townhall { tag: townhall, location: Point::new(0, 0) },
        location: Point::new(0, 0),
        tag,
    }
}

fn job(tag: u64, townhall: u64) -> JobId {
    JobId { resource_tag: tag, townhall_tag: townhall }
}

#[test]
fn assigning_to_a_missing_role_is_refused() {
    let mut t = Table::default();
    match t.assign(miner(1), &role(5, 9)) {
        Err(AssignmentError::RoleDoesntExist(j)) => assert_eq!(j, job(5, 9)),
        _ => panic!("expected RoleDoesntExist"),
    }
}

#[test]
fn a_role_is_filed_once() {
    let mut t = Table::default();
    assert!(t.add_role(role(5, 9)).is_ok());
    match t.add_role(role(5, 9)) {
        Err(AssignmentError::RoleAlreadyExists(r)) => assert_eq!(r, role(5, 9)),
        _ => panic!("expected RoleAlreadyExists"),
    }
    assert_eq!(t.get_role_ids(), vec![job(5, 9)]);
}

#[test]
fn an_assignee_holds_one_role() {
    let mut t = Table::default();
    t.add_role(role(5, 9)).unwrap();
    t.add_role(role(6, 9)).unwrap();
    assert!(t.assign(miner(1), &role(5, 9)).is_ok());
    match t.assign(miner(1), &role(6, 9)) {
        Err(AssignmentError::AlreadyAssigned(a, held)) => {
            assert_eq!(a, miner(1));
            assert_eq!(held.assignee(), 1);
            assert_eq!(held.assigned_role(), job(5, 9));
        }
        _ => panic!("expected AlreadyAssigned"),
    }
    assert_eq!(*t.get_assignment(1).ok().unwrap(), role(5, 9));
}

#[test]
fn unassign_undoes_assign() {
    let mut t = Table::default();
    t.add_role(role(5, 9)).unwrap();
    t.assign(miner(2), &role(5, 9)).unwrap();
    t.assign(miner(1), &role(5, 9)).unwrap();
    let held = t.unassign(1).ok().unwrap();
    assert_eq!(held.assignee(), 1);
    assert_eq!(held.assigned_role(), job(5, 9));
    assert!(matches!(t.get_assignment(1), Err(AssignmentError::NotAssignedHere(1))));
    assert_eq!(*t.get_assignment(2).ok().unwrap(), role(5, 9));
    assert!(matches!(t.unassign(1), Err(AssignmentError::NotAssignedHere(1))));
}

#[test]
fn assignees_are_not_filed_by_assigning() {
    let mut t = Table::default();
    t.add_role(role(5, 9)).unwrap();
    t.assign(miner(1), &role(5, 9)).unwrap();
    assert!(matches!(t.get_assignee(1), Err(AssignmentError::NotAssignedHere(1))));
    assert!(matches!(t.update_assignee(1, miner(1)), Err(AssignmentError::NotAssignedHere(1))));
    assert!(t.iter().is_empty());
    assert!(t.iter_assignees().is_empty());
}

#[test]
fn changing_to_a_missing_role_leaves_no_role() {
    let mut t = Table::default();
    t.add_role(role(5, 9)).unwrap();
    t.add_role(role(6, 9)).unwrap();
    t.assign(miner(1), &role(5, 9)).unwrap();
    assert!(t.change_assignment(1, role(6, 9)).is_ok());
    assert_eq!(*t.get_assignment(1).ok().unwrap(), role(6, 9));
    match t.change_assignment(1, role(7, 9)) {
        Err(AssignmentError::RoleDoesntExist(j)) => assert_eq!(j, job(7, 9)),
        _ => panic!("expected RoleDoesntExist"),
    }
    assert!(matches!(t.get_assignment(1), Err(AssignmentError::NotAssignedHere(1))));
    assert!(matches!(t.change_assignment(1, role(5, 9)), Err(AssignmentError::NotAssignedHere(1))));
}

#[test]
fn removing_a_role_hands_back_its_holders() {
    let mut t = Table::default();
    t.add_role(role(5, 9)).unwrap();
    t.add_role(role(6, 9)).unwrap();
    t.assign(miner(1), &role(5, 9)).unwrap();
    t.assign(miner(2), &role(6, 9)).unwrap();
    t.assign(miner(3), &role(5, 9)).unwrap();
    let mut had = t.remove_role(job(5, 9)).ok().unwrap();
    had.sort();
    assert_eq!(had, vec![1, 3]);
    assert!(matches!(t.get_assignment(1), Err(AssignmentError::NotAssignedHere(1))));
    assert_eq!(*t.get_assignment(2).ok().unwrap(), role(6, 9));
    assert!(matches!(t.remove_role(job(5, 9)), Err(AssignmentError::RoleDoesntExist(_))));
    let ids = t.get_role_ids();
    assert_eq!(ids, vec![job(6, 9)]);
}

#[test]
fn counts_follow_the_role_table() {
    let mut t = Table::default();
    t.add_role(role(5, 9)).unwrap();
    t.add_role(role(6, 9)).unwrap();
    t.assign(miner(1), &role(6, 9)).unwrap();
    t.assign(miner(2), &role(6, 9)).unwrap();
    let counts: Vec<(u64, usize)> = t.count_assignments().iter().map(|(r, n)| (r.tag, *n)).collect();
    assert_eq!(counts, vec![(5, 0), (6, 2)]);
    let roles: Vec<u64> = t.iter_roles().iter().map(|r| r.tag).collect();
    assert_eq!(roles, vec![5, 6]);
}
