//! The line grammar of the bridge protocol: parsing inbound control lines
//! and rendering outbound messages.

use ptycore::protocol::{is_blank, parse_to_pty, render_exit_line, render_output_line, ToPty};

#[test]
fn parses_canonical_input_line() {
    let m = parse_to_pty(br#"{"t":"i","data":"bHMK"}"#).unwrap();
    assert_eq!(m, ToPty::Input { data: b"bHMK".to_vec() });
}

#[test]
fn parses_canonical_resize_line() {
    let m = parse_to_pty(br#"{"t":"r","cols":100,"rows":40}"#).unwrap();
    assert_eq!(m, ToPty::Resize { cols: 100, rows: 40 });
}

#[test]
fn parses_canonical_signal_line() {
    let m = parse_to_pty(br#"{"t":"s","sig":"INT"}"#).unwrap();
    assert_eq!(m, ToPty::Signal { sig: b"INT".to_vec() });
}

#[test]
fn member_order_and_whitespace_are_free() {
    let m = parse_to_pty(b" { \"rows\" : 40 , \"t\" : \"r\" , \"cols\" : 100 } ").unwrap();
    assert_eq!(m, ToPty::Resize { cols: 100, rows: 40 });
}

#[test]
fn string_escapes_are_decoded() {
    let m = parse_to_pty(br#"{"t":"s","sig":"a\"b\\c\/\n\t\r\b\f"}"#).unwrap();
    assert_eq!(m, ToPty::Signal { sig: b"a\"b\\c/\n\t\r\x08\x0c".to_vec() });
}

#[test]
fn unknown_escape_is_rejected() {
    assert_eq!(parse_to_pty(br#"{"t":"s","sig":"\q"}"#), None);
    assert_eq!(parse_to_pty(br#"{"t":"s","sig":"\u0041"}"#), None);
}

#[test]
fn unknown_or_duplicate_keys_are_rejected() {
    assert_eq!(parse_to_pty(br#"{"t":"i","data":"","x":1}"#), None);
    assert_eq!(parse_to_pty(br#"{"t":"i","data":"a","data":"b"}"#), None);
    assert_eq!(parse_to_pty(br#"{"t":"r","t":"r","cols":1,"rows":1}"#), None);
}

#[test]
fn missing_or_foreign_fields_are_rejected() {
    assert_eq!(parse_to_pty(br#"{"t":"i"}"#), None);
    assert_eq!(parse_to_pty(br#"{"t":"r","cols":1}"#), None);
    assert_eq!(parse_to_pty(br#"{"t":"i","data":"a","cols":1}"#), None);
    assert_eq!(parse_to_pty(br#"{"t":"s"}"#), None);
    assert_eq!(parse_to_pty(br#"{"data":"a"}"#), None);
    assert_eq!(parse_to_pty(br#"{}"#), None);
}

#[test]
fn unknown_tag_is_rejected() {
    assert_eq!(parse_to_pty(br#"{"t":"q"}"#), None);
    assert_eq!(parse_to_pty(br#"{"t":"ii","data":"a"}"#), None);
}

#[test]
fn geometry_must_fit_sixteen_bits() {
    assert_eq!(
        parse_to_pty(br#"{"t":"r","cols":65535,"rows":1}"#),
        Some(ToPty::Resize { cols: 65535, rows: 1 })
    );
    assert_eq!(parse_to_pty(br#"{"t":"r","cols":65536,"rows":1}"#), None);
    assert_eq!(parse_to_pty(br#"{"t":"r","cols":1,"rows":99999999999999999999}"#), None);
}

#[test]
fn numbers_take_no_sign_or_fraction() {
    assert_eq!(parse_to_pty(br#"{"t":"r","cols":-1,"rows":1}"#), None);
    assert_eq!(parse_to_pty(br#"{"t":"r","cols":1.5,"rows":1}"#), None);
    assert_eq!(parse_to_pty(br#"{"t":"r","cols":"1","rows":1}"#), None);
}

#[test]
fn malformed_lines_are_rejected() {
    assert_eq!(parse_to_pty(b""), None);
    assert_eq!(parse_to_pty(b"null"), None);
    assert_eq!(parse_to_pty(br#"{"t":"i","data":"a""#), None);
    assert_eq!(parse_to_pty(br#"{"t":"i","data":"a"} extra"#), None);
    assert_eq!(parse_to_pty(br#"{"t" "i"}"#), None);
    assert_eq!(parse_to_pty(&[b'{', b'"', b't', 0x01, b'"', b'}']), None);
}

#[test]
fn blank_lines_are_recognized() {
    assert!(is_blank(b""));
    assert!(is_blank(b" \t\r"));
    assert!(!is_blank(b" x "));
}

#[test]
fn renders_output_line_exactly() {
    let line = render_output_line(b"bHMK", 7);
    assert_eq!(line, br#"{"t":"o","data":"bHMK","seq":7}"#.to_vec());
    let line0 = render_output_line(b"", 0);
    assert_eq!(line0, br#"{"t":"o","data":"","seq":0}"#.to_vec());
    let big = render_output_line(b"QQ==", u64::MAX);
    assert_eq!(
        big,
        format!("{{\"t\":\"o\",\"data\":\"QQ==\",\"seq\":{}}}", u64::MAX).into_bytes()
    );
}

#[test]
fn renders_exit_line_with_and_without_signal() {
    assert_eq!(render_exit_line(0, None), br#"{"t":"x","code":0}"#.to_vec());
    let sig = b"TERM".to_vec();
    assert_eq!(
        render_exit_line(143, Some(&sig)),
        br#"{"t":"x","code":143,"signal":"TERM"}"#.to_vec()
    );
}

#[test]
fn exit_signal_names_are_escaped() {
    let odd = b"A\"B\\C\nD\x01".to_vec();
    assert_eq!(
        render_exit_line(1, Some(&odd)),
        br#"{"t":"x","code":1,"signal":"A\"B\\C\nD\u0001"}"#.to_vec()
    );
}
