use synacor_vm::snapshot::RecoveryError;
use synacor_vm::vm::State;

fn sample() -> State {
    let mut s = State::new(vec![21, 0, 0, 0, 9, 1]);
    s.register = [1, 2, 3, 4, 5, 6, 7, 32767];
    s.stack = vec![10, 0x1234, 32769];
    s.ip = 4;
    s
}

#[test]
fn save_layout() {
    let bytes = State::save(&sample());
    let mut expected = vec![0x17, 0, 3, 0, 4];
    for r in [1u16, 2, 3, 4, 5, 6, 7, 32767] {
        expected.push((r >> 8) as u8);
        expected.push(r as u8);
    }
    expected.extend_from_slice(&[0, 10, 0x12, 0x34, 0x80, 0x01]);
    expected.extend_from_slice(&[21, 0, 0, 0, 9, 1]);
    assert_eq!(bytes, expected);
}

#[test]
fn save_then_recover() {
    let s = sample();
    let back = State::recover(State::save(&s)).ok().unwrap();
    assert_eq!(back.register, s.register);
    assert_eq!(back.stack, s.stack);
    assert_eq!(back.ip, s.ip);
    assert_eq!(back.program, s.program);
    assert!(!back.debug);
}

#[test]
fn save_then_recover_empty_stack() {
    let s = State::new(vec![0, 0]);
    let back = State::recover(State::save(&s)).ok().unwrap();
    assert!(back.stack.is_empty());
    assert_eq!(back.program, vec![0, 0]);
    assert_eq!(back.register, [0; 8]);
    assert_eq!(back.ip, 0);
}

#[test]
fn plain_program_loads_fresh() {
    let s = State::recover(vec![21, 0, 0, 0]).ok().unwrap();
    assert_eq!(s.program, vec![21, 0, 0, 0]);
    assert_eq!(s.ip, 0);
    assert_eq!(s.register, [0; 8]);
    assert!(s.stack.is_empty());
}

#[test]
fn unrecognized_leading_byte() {
    assert!(matches!(State::recover(vec![0x18, 0]), Err(RecoveryError::UnrecognizedFormat(0x18))));
    assert!(matches!(State::recover(vec![0xff]), Err(RecoveryError::UnrecognizedFormat(0xff))));
}

#[test]
fn empty_and_truncated() {
    assert!(matches!(State::recover(vec![]), Err(RecoveryError::TruncatedSnapshot)));
    assert!(matches!(State::recover(vec![0x17, 0, 0]), Err(RecoveryError::TruncatedSnapshot)));
    // announces two stack words but holds one
    let mut b = vec![0x17, 0, 2, 0, 0];
    b.extend_from_slice(&[0; 16]);
    b.extend_from_slice(&[0, 1]);
    assert!(matches!(State::recover(b), Err(RecoveryError::TruncatedSnapshot)));
    assert!(matches!(State::recover(vec![0x16; 100]), Err(RecoveryError::TruncatedSnapshot)));
}

#[test]
fn odd_ip_refused() {
    let mut b = vec![0x17, 0, 0, 0, 3];
    b.extend_from_slice(&[0; 16]);
    assert!(matches!(State::recover(b), Err(RecoveryError::UnalignedIp(3))));
}

fn legacy(sp: u16, ip: u16) -> Vec<u8> {
    let mut b = vec![0x16];
    for r in 0..7u16 {
        let v = 100 + r;
        b.push(v as u8);
        b.push((v >> 8) as u8);
    }
    for k in 0..99u16 {
        let v = 1000 + k;
        b.push(v as u8);
        b.push((v >> 8) as u8);
    }
    b.push((sp >> 8) as u8);
    b.push(sp as u8);
    b.push((ip >> 8) as u8);
    b.push(ip as u8);
    b.extend_from_slice(&[19, 0, 65, 0, 0, 0]);
    b
}

#[test]
fn legacy_restore_keeps_seven_registers() {
    let s = State::recover(legacy(3, 2)).ok().unwrap();
    assert_eq!(s.register, [100, 101, 102, 103, 104, 105, 106, 0]);
    assert_eq!(s.stack, vec![1000, 1001, 1002]);
    assert_eq!(s.ip, 2);
    assert_eq!(s.program, vec![19, 0, 65, 0, 0, 0]);
}

#[test]
fn legacy_restore_caps_stack() {
    let s = State::recover(legacy(500, 0)).ok().unwrap();
    assert_eq!(s.stack.len(), 99);
    assert_eq!(s.stack[98], 1098);
    let s = State::recover(legacy(0, 0)).ok().unwrap();
    assert!(s.stack.is_empty());
}

#[test]
fn legacy_odd_ip_refused() {
    assert!(matches!(State::recover(legacy(0, 5)), Err(RecoveryError::UnalignedIp(5))));
}
