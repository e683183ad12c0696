//! The daemon's decision core: sequence numbering, the exit report, and
//! control-line dispatch.

use base64::Engine;
use ptycore::daemon::{control_action, ControlAction, Daemon, ProtocolError};

#[test]
fn output_sequence_numbers_start_at_zero_and_step_by_one() {
    let mut d = Daemon::new();
    assert_eq!(d.seq, 0);
    let l0 = d.output_message(b"hi");
    let l1 = d.output_message(b"");
    let l2 = d.output_message(b"\x1b[2J");
    assert_eq!(d.seq, 3);
    assert_eq!(l0, br#"{"t":"o","data":"aGk=","seq":0}"#.to_vec());
    assert_eq!(l1, br#"{"t":"o","data":"","seq":1}"#.to_vec());
    let b64 = base64::engine::general_purpose::STANDARD.encode(b"\x1b[2J");
    assert_eq!(l2, format!("{{\"t\":\"o\",\"data\":\"{}\",\"seq\":2}}", b64).into_bytes());
}

#[test]
fn output_lines_round_trip_through_the_transport_encoding() {
    let mut d = Daemon::new();
    let chunk: Vec<u8> = (0u16..256).map(|b| b as u8).collect();
    let line = d.output_message(&chunk);
    // pull the data field back out of the rendered line
    let text = String::from_utf8(line).unwrap();
    let rest = text.strip_prefix("{\"t\":\"o\",\"data\":\"").unwrap();
    let data = &rest[..rest.find('"').unwrap()];
    let decoded = base64::engine::general_purpose::STANDARD.decode(data).unwrap();
    assert_eq!(decoded, chunk);
}

#[test]
fn exit_report_carries_code_and_signal() {
    let mut d = Daemon::new();
    let line = d.exit_message(0, None);
    assert_eq!(line, br#"{"t":"x","code":0}"#.to_vec());
    assert!(d.exited);

    let mut d2 = Daemon::new();
    let sig = b"SIGTERM".to_vec();
    let line2 = d2.exit_message(143, Some(&sig));
    assert_eq!(line2, br#"{"t":"x","code":143,"signal":"SIGTERM"}"#.to_vec());
}

#[test]
fn exit_codes_beyond_signed_range_become_one() {
    let mut d = Daemon::new();
    let line = d.exit_message(0x8000_0000, None);
    assert_eq!(line, br#"{"t":"x","code":1}"#.to_vec());
    let mut d2 = Daemon::new();
    let line2 = d2.exit_message(0x7FFF_FFFF, None);
    assert_eq!(line2, br#"{"t":"x","code":2147483647}"#.to_vec());
}

#[test]
fn control_lines_act_in_receipt_order() {
    // a resize received before input takes effect before the write
    let lines: [&[u8]; 2] = [
        br#"{"t":"r","cols":100,"rows":40}"#,
        br#"{"t":"i","data":"bHMK"}"#,
    ];
    let mut actions = Vec::new();
    for line in lines {
        actions.push(control_action(line).unwrap());
    }
    assert_eq!(
        actions,
        vec![ControlAction::Resize(100, 40), ControlAction::Write(b"ls\n".to_vec())]
    );
}

#[test]
fn input_data_is_transport_decoded() {
    let b64 = base64::engine::general_purpose::STANDARD.encode(b"echo hi\n");
    let line = format!("{{\"t\":\"i\",\"data\":\"{}\"}}", b64);
    assert_eq!(
        control_action(line.as_bytes()),
        Ok(ControlAction::Write(b"echo hi\n".to_vec()))
    );
}

#[test]
fn blank_control_lines_do_nothing() {
    assert_eq!(control_action(b""), Ok(ControlAction::Idle));
    assert_eq!(control_action(b" \t"), Ok(ControlAction::Idle));
}

#[test]
fn signal_control_lines_carry_the_name() {
    assert_eq!(
        control_action(br#"{"t":"s","sig":"QUIT"}"#),
        Ok(ControlAction::Signal(b"QUIT".to_vec()))
    );
}

#[test]
fn malformed_control_lines_are_fatal_errors() {
    assert_eq!(control_action(b"not json"), Err(ProtocolError::Malformed));
    assert_eq!(control_action(br#"{"t":"i"}"#), Err(ProtocolError::Malformed));
}

#[test]
fn undecodable_input_payload_is_a_protocol_error() {
    assert_eq!(
        control_action(br#"{"t":"i","data":"!!!"}"#),
        Err(ProtocolError::BadEncoding)
    );
}
