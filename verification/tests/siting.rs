use rebicycler::geometry::Point;
use rebicycler::siting::{BuildingTransition, ConstructionSite, SitingDirector};
use rebicycler::unit_types as ut;
use rebicycler::Tag;
use std::collections::HashMap;

const ORIGIN: Point = Point { x: 0, y: 0 };

#[test]
fn pylon_flower_makes_five() {
    assert_eq!(SitingDirector::pylon_flower(Point { x: 0, y: 0 }).len(), 5);
}

#[test]
fn pylon_transitions_ok() {
    let mut pylon = ConstructionSite::pylon(Point::new(0, 0));

    assert!(!pylon.needs_power());
    assert!(pylon.is_free());
    assert!(pylon.status.can_build(ut::PYLON));

    let _ = pylon.transition(BuildingTransition::Construct(Tag { tag: 1, unit_type: ut::PYLON }));

    assert!(pylon.is_mine());

    assert!(pylon.transition(BuildingTransition::Finish).is_ok());

    assert!(pylon.transition(BuildingTransition::Destroy).is_ok());

    assert!(pylon.is_free());
}

#[test]
fn cant_build_unpowered_gateway() {
    let mut gate_location = ConstructionSite::standard(ORIGIN);

    assert!(gate_location
        .transition(BuildingTransition::Construct(Tag { tag: 2, unit_type: ut::GATEWAY }))
        .is_err());

    assert!(gate_location.transition(BuildingTransition::RePower).is_ok());

    assert!(gate_location.could_build());
}

#[test]
fn point_containers_ok() {
    let pylon_location = ConstructionSite::pylon(ORIGIN);
    let points: Vec<(u32, u32)> = pylon_location.size().contained_points(ORIGIN);
    assert_eq!(points, vec![(0, 0), (0, 1), (1, 0), (1, 1)]);

    let gate_location = ConstructionSite::standard(Point::new(384, 384));
    let gate_points: Vec<(u32, u32)> = gate_location.size().contained_points(gate_location.location());
    assert_eq!(
        gate_points,
        vec![(0, 0), (0, 1), (0, 2), (1, 0), (1, 1), (1, 2), (2, 0), (2, 1), (2, 2)]
    );
}

#[test]
fn pylon_interceptor_points_ok() {
    let pattern = SitingDirector::pylon_interceptor(Point::new(20 * 256, 20 * 256));
    let mut touch_counts: HashMap<(u32, u32), usize> = HashMap::new();

    for bl in pattern {
        let contained_points = bl.size().contained_points(bl.location());
        for (x, y) in contained_points {
            touch_counts.entry((x, y)).and_modify(|count| *count += 1).or_insert(1);
        }
    }
    touch_counts.retain(|_, v| *v > 1);
    assert!(touch_counts.is_empty(), "{touch_counts:?}");
}
