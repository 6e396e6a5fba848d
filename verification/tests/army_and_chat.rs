use rebicycler::abilities as ab;
use rebicycler::army::{ArmyController, Mission, MissionStatus, MissionType, UnitState};
use rebicycler::chatter::{admit_defeat, anticipate, greeting, taunt, ChatAction, ChatController};
use rebicycler::geometry::Point;
use rebicycler::unit_types as ut;
use rebicycler::units::{Target, UnitSnapshot};

fn soldier(tag: u64, is_detector: bool) -> UnitState {
    UnitState { is_detector, tag }
}

#[test]
fn mission_status_only_moves_forward() {
    assert_eq!(MissionStatus::PendingForces.begin(), MissionStatus::InProgress);
    assert_eq!(MissionStatus::InProgress.begin(), MissionStatus::InProgress);
    assert_eq!(MissionStatus::Complete.begin(), MissionStatus::Complete);
    assert_eq!(MissionStatus::InProgress.finish(), MissionStatus::Complete);
    assert_eq!(MissionStatus::PendingForces.finish(), MissionStatus::PendingForces);
    assert_eq!(MissionStatus::PendingForces.begin().finish(), MissionStatus::Complete);
}

#[test]
fn attack_rallies_until_under_way() {
    let target = Point::new(100, 200);
    let rally = Point::new(5, 6);
    let mut m = Mission::new(3, MissionType::AttackEnemy(target), rally);
    assert_eq!(m.status, MissionStatus::PendingForces);
    assert_eq!(m.command(&soldier(7, false)), (7, ab::ATTACK_ATTACK_TOWARDS, Target::Pos(rally), false));
    m.status = m.status.begin();
    assert_eq!(m.command(&soldier(7, false)), (7, ab::ATTACK_ATTACK_TOWARDS, Target::Pos(target), false));
}

#[test]
fn guard_and_detect_go_to_their_point() {
    let p = Point::new(1, 2);
    let guard = Mission::new(1, MissionType::BabysitConstruction(p), Point::new(0, 0));
    let detect = Mission::new(2, MissionType::DetectArea(p), Point::new(0, 0));
    assert_eq!(guard.command(&soldier(4, false)), (4, ab::ATTACK_ATTACK_TOWARDS, Target::Pos(p), false));
    assert_eq!(detect.command(&soldier(4, true)), (4, ab::ATTACK_ATTACK_TOWARDS, Target::Pos(p), false));
}

#[test]
fn detection_missions_want_detectors_only() {
    let p = Point::new(1, 2);
    let detect = Mission::new(2, MissionType::DetectArea(p), p);
    let attack = Mission::new(3, MissionType::AttackEnemy(p), p);
    assert!(detect.needs(&soldier(1, true)));
    assert!(!detect.needs(&soldier(1, false)));
    assert!(attack.needs(&soldier(1, false)));
    assert!(!attack.needs(&soldier(1, true)));
}

#[test]
fn unit_state_is_a_placeholder() {
    let u = UnitSnapshot {
        tag: 55,
        unit_type: ut::OBSERVER,
        position: Point::new(0, 0),
        is_mineral: false,
        is_geyser: false,
        is_townhall: false,
        is_carrying_resource: false,
    };
    assert_eq!(UnitState::from_unit(&u), UnitState { is_detector: false, tag: 10 });
    assert_eq!(ArmyController::default(), ArmyController);
}

#[test]
fn each_line_is_said_once() {
    let mut chat = ChatController::default();
    assert!(!chat.has_sent(ChatAction::Greeting));
    assert_eq!(chat.do_chat(ChatAction::Greeting, ""), Some(greeting()));
    assert!(chat.has_sent(ChatAction::Greeting));
    assert_eq!(chat.do_chat(ChatAction::Greeting, ""), None);
    assert_eq!(chat.do_chat(ChatAction::AdmitDefeat, ""), Some(admit_defeat()));
}

#[test]
fn taunts_name_the_unit_and_count_per_type() {
    let mut chat = ChatController::default();
    assert_eq!(
        chat.do_chat(ChatAction::Taunt(ut::PROBE), "Probe"),
        Some("Initiating purification protocol: Probe detected.".to_string())
    );
    assert_eq!(chat.do_chat(ChatAction::Taunt(ut::PROBE), "Probe"), None);
    assert_eq!(taunt("Zealot"), "Initiating purification protocol: Zealot detected.");
    assert!(chat.do_chat(ChatAction::Taunt(ut::NEXUS), "Nexus").is_some());
}

#[test]
fn anticipation_lines_by_level() {
    assert_eq!(anticipate(0), "Sentience has failed to self-eradicate. Force Authorization incremented: [Low]");
    assert_eq!(anticipate(2), "Force Authorization incremented: [Moderate]");
    assert_eq!(anticipate(4), "Force Authorization incremented: [Maximum] | Our cannons shall SING!");
    assert_eq!(anticipate(9), "");
    let mut chat = ChatController::default();
    chat.add_sent(ChatAction::Anticipate(1));
    assert_eq!(chat.do_chat(ChatAction::Anticipate(1), ""), None);
    assert_eq!(chat.do_chat(ChatAction::Anticipate(3), ""), Some("Enhancing sanctifiers, 69%.".to_string()));
}
