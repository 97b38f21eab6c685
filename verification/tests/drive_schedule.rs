use motor::motor_thread::{DriveAction, DriveSchedule, MotorComand, SWITCH_AFTER_NANOS};

#[test]
fn first_switch_goes_to_far_target() {
    let mut s = DriveSchedule::new();
    assert_eq!(s.decide(None, 100_000_000_000), DriveAction::Retarget { far: true });
    assert!(s.far);
}

#[test]
fn targets_alternate_after_ten_seconds() {
    let mut s = DriveSchedule::new();
    assert_eq!(s.decide(None, SWITCH_AFTER_NANOS + 1), DriveAction::Retarget { far: true });
    assert_eq!(s.decide(None, 5_000_000_000), DriveAction::Drive);
    assert_eq!(s.decide(None, SWITCH_AFTER_NANOS), DriveAction::Drive);
    assert_eq!(s.decide(None, SWITCH_AFTER_NANOS + 1), DriveAction::Retarget { far: false });
    assert!(!s.far);
}

#[test]
fn kill_command_releases_and_keeps_target() {
    let mut s = DriveSchedule { far: true };
    assert_eq!(s.decide(Some(MotorComand::KillThread), SWITCH_AFTER_NANOS + 1), DriveAction::Release);
    assert!(s.far);
}
