use motor::serial_test::SerialTest;
use motor::serialtrait::{Serial, SerialError};

#[test]
fn check_serial_test() {
    let mut t = SerialTest::default();
    t.add_response(vec![0xEF], vec![0x01]);
    t.write(vec![0xEF].as_mut_slice()).unwrap();
}

#[test]
fn registered_reply_is_read_back() {
    let mut t = SerialTest::default();
    t.add_response(vec![1, 2], vec![3, 4, 5]);
    assert_eq!(t.write(&[1, 2]), Ok(()));
    let mut buf = [0u8; 3];
    assert_eq!(t.read(&mut buf), Ok(()));
    assert_eq!(buf, [3, 4, 5]);
    // the answer was handed out once
    assert_eq!(t.read(&mut buf), Err(SerialError::Undefined));
}

#[test]
fn unknown_request_fails() {
    let mut t = SerialTest::default();
    t.add_response(vec![1], vec![2]);
    assert_eq!(t.write(&[9]), Err(SerialError::Undefined));
    let mut buf = [7u8; 1];
    assert_eq!(t.read(&mut buf), Err(SerialError::Undefined));
    assert_eq!(buf, [7]);
}

#[test]
fn read_of_wrong_length_drops_answer() {
    let mut t = SerialTest::default();
    t.add_response(vec![1], vec![2, 3]);
    t.write(&[1]).unwrap();
    let mut buf = [0u8; 3];
    assert_eq!(t.read(&mut buf), Err(SerialError::Undefined));
    assert_eq!(buf, [0, 0, 0]);
    let mut buf2 = [0u8; 2];
    assert_eq!(t.read(&mut buf2), Err(SerialError::Undefined));
}

#[test]
fn later_registration_wins() {
    let mut t = SerialTest::default();
    t.add_response(vec![1], vec![2]);
    t.add_response(vec![1], vec![5]);
    t.write(&[1]).unwrap();
    let mut buf = [0u8; 1];
    t.read(&mut buf).unwrap();
    assert_eq!(buf, [5]);
}
