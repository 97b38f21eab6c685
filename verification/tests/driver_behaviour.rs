use motor::protocol::checksum_of;
use motor::serial_test::SerialTest;
use motor::serialtrait::SerialError;
use motor::servo42::{MotorError, Protection};
use motor::standard::Servo42C;

fn servo() -> Servo42C<SerialTest> {
    Servo42C::empty_new(SerialTest::default())
}

#[test]
fn checksum_is_wrapping_sum() {
    assert_eq!(checksum_of(&[0xe0, 0x30]), 0x10);
    assert_eq!(checksum_of(&[0xe0, 0xA1, 0x01, 0x20]), 0xA2);
    assert_eq!(checksum_of(&[]), 0);
    assert_eq!(checksum_of(&[0xff, 0xff, 0x02]), 0x00);
}

#[test]
fn empty_new_has_factory_settings() {
    let s = servo();
    assert_eq!(s.address, 0xe0);
    assert_eq!(s.kp, 1616);
    assert_eq!(s.ki, 288);
    assert_eq!(s.kd, 1616);
    assert_eq!(s.acc, 286);
    assert_eq!(s.microstep, 16);
    assert_eq!(s.get_microstep(), 16);
}

#[test]
fn reply_with_bad_checksum_is_refused() {
    let mut s = servo();
    s.s.add_response(vec![0xe0, 0x83, 0x06, 0x69], vec![0xe0, 0x01, 0xe2]);
    assert_eq!(s.set_current(6), Err(MotorError::SerialError(SerialError::Undefined)));
}

#[test]
fn reply_from_other_address_is_refused() {
    let mut s = servo();
    s.s.add_response(vec![0xe0, 0x83, 0x06, 0x69], vec![0xe1, 0x01, 0xe2]);
    assert_eq!(s.set_current(6), Err(MotorError::SerialError(SerialError::Undefined)));
}

#[test]
fn refused_command_is_negative_response() {
    let mut s = servo();
    s.s.add_response(vec![0xe0, 0x83, 0x06, 0x69], vec![0xe0, 0x00, 0xe0]);
    assert_eq!(s.set_current(6), Err(MotorError::NegativeResponse));
}

#[test]
fn unanswered_command_is_link_failure() {
    let mut s = servo();
    assert_eq!(s.set_current(6), Err(MotorError::SerialError(SerialError::Undefined)));
}

#[test]
fn reply_of_wrong_length_is_link_failure() {
    let mut s = servo();
    s.s.add_response(vec![0xe0, 0x83, 0x06, 0x69], vec![0xe0, 0x01, 0x00, 0xe1]);
    assert_eq!(s.set_current(6), Err(MotorError::SerialError(SerialError::Undefined)));
}

#[test]
fn refused_microstep_is_not_kept() {
    let mut s = servo();
    s.s.add_response(vec![0xe0, 0x84, 0x1a, 0x7e], vec![0xe0, 0x00, 0xe0]);
    assert_eq!(s.set_microstep(26), Err(MotorError::NegativeResponse));
    assert_eq!(s.microstep, 16);
}

#[test]
fn accepted_microstep_is_kept() {
    let mut s = servo();
    s.s.add_response(vec![0xe0, 0x84, 0x1a, 0x7e], vec![0xe0, 0x01, 0xe1]);
    assert_eq!(s.set_microstep(26), Ok(()));
    assert_eq!(s.microstep, 26);
}

#[test]
fn gains_are_kept_even_when_refused() {
    let mut s = servo();
    assert!(s.set_kp(0x120).is_err());
    assert_eq!(s.kp, 0x120);
    assert!(s.set_acc(0x80).is_err());
    assert_eq!(s.acc, 0x80);
}

#[test]
fn read_lock_protected() {
    let mut s = servo();
    s.s.add_response(vec![0xe0, 0x3e, 0x1e], vec![0xe0, 0x01, 0xe1]);
    assert_eq!(s.read_lock(), Ok(Protection::Protected));
}

#[test]
fn read_en_pin_disabled() {
    let mut s = servo();
    s.s.add_response(vec![0xe0, 0x3a, 0x1a], vec![0xe0, 0x02, 0xe2]);
    assert_eq!(s.read_en_pin(), Ok(false));
}

#[test]
fn encoder_value_negative_turns() {
    let mut s = servo();
    // turns = -1, phase = 0x8000: half a turn back from zero
    s.s.add_response(
        vec![0xe0, 0x30, 0x10],
        vec![0xe0, 0xff, 0xff, 0xff, 0xff, 0x80, 0x00, 0x5c],
    );
    assert_eq!(s.read_encoder_value(), Ok(-0x8000));
}

#[test]
fn read_error_negative() {
    let mut s = servo();
    s.s.add_response(vec![0xe0, 0x39, 0x19], vec![0xe0, 0xff, 0x49, 0x28]);
    assert_eq!(s.read_error(), Ok(-183));
}

#[test]
fn set_speed_forward_sets_top_bit() {
    let mut s = servo();
    s.s.add_response(vec![0xe0, 0xf6, 0x8a, 0x60], vec![0xe0, 0x01, 0xe1]);
    assert_eq!(s.set_speed(10), Ok(1));
}

#[test]
fn set_speed_backward_clears_top_bit() {
    let mut s = servo();
    s.s.add_response(vec![0xe0, 0xf6, 0x0a, 0xe0], vec![0xe0, 0x01, 0xe1]);
    assert_eq!(s.set_speed(-10), Ok(1));
}

#[test]
fn set_speed_over_limit_is_refused() {
    let mut s = servo();
    s.s.add_response(vec![0xe0, 0x84, 0x01, 0x65], vec![0xe0, 0x01, 0xe1]);
    assert_eq!(s.set_microstep(1), Ok(()));
    // 14 * 30000 / (1 * 200) = 2100 rpm
    s.s.add_response(vec![0xe0, 0xf6, 0x8e, 0x64], vec![0xe0, 0x01, 0xe1]);
    assert_eq!(s.set_speed(14), Err(MotorError::NegativeResponse));
    // 13 * 30000 / 200 = 1950 rpm
    s.s.add_response(vec![0xe0, 0xf6, 0x8d, 0x63], vec![0xe0, 0x01, 0xe1]);
    assert_eq!(s.set_speed(13), Ok(1));
    // the limit holds backwards too
    s.s.add_response(vec![0xe0, 0xf6, 0x0e, 0xe4], vec![0xe0, 0x01, 0xe1]);
    assert_eq!(s.set_speed(-14), Err(MotorError::NegativeResponse));
    s.s.add_response(vec![0xe0, 0xf6, 0x0d, 0xe3], vec![0xe0, 0x01, 0xe1]);
    assert_eq!(s.set_speed(-13), Ok(1));
    // the lowest speed is refused at this microstep instead of overflowing
    assert_eq!(s.set_speed(-128), Err(MotorError::NegativeResponse));
}

#[test]
fn stop_returns_status_byte() {
    let mut s = servo();
    s.s.add_response(vec![0xe0, 0xf7, 0xd7], vec![0xe0, 0x02, 0xe2]);
    assert_eq!(s.stop(), Ok(2));
}

#[test]
fn goto_frame_matches_recorded_trace() {
    let mut s = servo();
    s.s.add_response(
        vec![0xE0, 0xFD, 0x0A, 0x00, 0x04, 0xE2, 0x00, 0xCD],
        vec![0xe0, 0x01, 0xe1],
    );
    assert_eq!(s.goto(10, 200 * 16 * 100), Ok(1));
}

fn frame(body: &[u8]) -> Vec<u8> {
    let mut v = body.to_vec();
    v.push(body.iter().fold(0u8, |a, b| a.wrapping_add(*b)));
    v
}

#[test]
fn new_sends_defaults_and_succeeds() {
    let mut link = SerialTest::default();
    link.add_response(frame(&[0xe0, 0xf7]), frame(&[0xe0, 0x01]));
    link.add_response(frame(&[0xe0, 0xa1, 0x06, 0x50]), frame(&[0xe0, 0x01]));
    link.add_response(frame(&[0xe0, 0xa2, 0x01, 0x20]), frame(&[0xe0, 0x01]));
    link.add_response(frame(&[0xe0, 0xa3, 0x06, 0x50]), frame(&[0xe0, 0x01]));
    link.add_response(frame(&[0xe0, 0xa4, 0x01, 0x1e]), frame(&[0xe0, 0x01]));
    link.add_response(frame(&[0xe0, 0x84, 0x10]), frame(&[0xe0, 0x01]));
    link.add_response(frame(&[0xe0, 0xa5, 0x07, 0xd0]), frame(&[0xe0, 0x01]));
    let s = Servo42C::new(link).unwrap();
    assert_eq!(s.kp, 1616);
    assert_eq!(s.microstep, 16);
}

#[test]
fn new_fails_when_a_setting_is_refused() {
    let mut link = SerialTest::default();
    link.add_response(frame(&[0xe0, 0xf7]), frame(&[0xe0, 0x01]));
    link.add_response(frame(&[0xe0, 0xa1, 0x06, 0x50]), frame(&[0xe0, 0x00]));
    assert_eq!(Servo42C::new(link).err(), Some(MotorError::NegativeResponse));
}

#[test]
fn new_fails_without_answer() {
    assert_eq!(
        Servo42C::new(SerialTest::default()).err(),
        Some(MotorError::SerialError(SerialError::Undefined))
    );
}

#[test]
fn configure_linear_acc_sends_setup() {
    let mut s = servo();
    let ok = frame(&[0xe0, 0x01]);
    for body in [
        vec![0xe0, 0xf7],
        vec![0xe0, 0xa1, 0x00, 0x10],
        vec![0xe0, 0xa2, 0x00, 0x20],
        vec![0xe0, 0xa3, 0x00, 0x30],
        vec![0xe0, 0xa4, 0x01, 0x20],
        vec![0xe0, 0xa5, 0x07, 0xd0],
        vec![0xe0, 0x83, 0x03],
        vec![0xe0, 0x88, 0x00],
        vec![0xe0, 0x90, 0x00],
    ] {
        s.s.add_response(frame(&body), ok.clone());
    }
    // releasing the lock, returning to zero and enabling are left unanswered
    assert_eq!(s.configure_linear_acc(0x10, 0x20, 0x30), Ok(()));
    assert_eq!((s.kp, s.ki, s.kd, s.acc), (0x10, 0x20, 0x30, 288));
}

#[test]
fn configure_linear_acc_stops_at_first_refusal() {
    let mut s = servo();
    s.s.add_response(frame(&[0xe0, 0xf7]), frame(&[0xe0, 0x01]));
    assert_eq!(
        s.configure_linear_acc(1, 2, 3),
        Err(MotorError::SerialError(SerialError::Undefined))
    );
    assert_eq!(s.kp, 1);
    assert_eq!(s.ki, 288);
}

#[test]
fn motor_error_from_serial_error() {
    let e: MotorError = SerialError::Undefined.into();
    assert_eq!(e, MotorError::SerialError(SerialError::Undefined));
}

#[test]
fn every_single_byte_corruption_of_a_reply_is_refused() {
    let good = [0xe0u8, 0x01, 0xe1];
    for i in 0..good.len() {
        for v in 0..=255u8 {
            if v == good[i] {
                continue;
            }
            let mut bad = good.to_vec();
            bad[i] = v;
            let mut s = servo();
            s.s.add_response(vec![0xe0, 0x83, 0x06, 0x69], bad);
            assert_eq!(s.set_current(6), Err(MotorError::SerialError(SerialError::Undefined)));
        }
    }
}
