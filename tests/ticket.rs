use hearme::ticket::{decode_ticket_text, encode_ticket_text, trim_ascii_whitespace, TicketError};

const PAYLOAD: &[u8] =
    br#"{"addr":{"id":"ae58ff8833241ac82d6ff7611046ed67b5072d142c588d0063e942d9a75502b6","addrs":[{"Ip":"192.168.1.20:51820"},{"Relay":"https://relay.example/"}]}}"#;

#[test]
fn ticket_text_round_trips_and_is_url_safe() {
    let encoded = encode_ticket_text(PAYLOAD);
    assert!(!encoded.is_empty());
    assert!(!encoded.contains('+'));
    assert!(!encoded.contains('/'));
    assert!(!encoded.contains('='));
    assert_eq!(decode_ticket_text(&encoded).unwrap(), PAYLOAD);
}

#[test]
fn ticket_text_tolerates_surrounding_whitespace() {
    let encoded = encode_ticket_text(PAYLOAD);
    let padded = format!("  {encoded}\n");
    assert_eq!(decode_ticket_text(&padded).unwrap(), PAYLOAD);
    let padded = format!("\t\r\n {encoded} \x0c\r\n");
    assert_eq!(decode_ticket_text(&padded).unwrap(), PAYLOAD);
}

#[test]
fn ticket_from_invalid_base64_fails() {
    let result = decode_ticket_text("not!valid!base64!!!");
    assert!(result.is_err());
    assert_eq!(result, Err(TicketError::BadEncoding));
}

#[test]
fn ticket_text_uses_the_url_safe_alphabet() {
    assert_eq!(encode_ticket_text(b"hello"), "aGVsbG8");
    assert_eq!(encode_ticket_text(&[0xFB, 0xFF]), "-_8");
    assert_eq!(decode_ticket_text("-_8").unwrap(), vec![0xFB, 0xFF]);
    assert_eq!(encode_ticket_text(b""), "");
}

#[test]
fn ticket_text_refuses_padding_and_standard_alphabet() {
    assert_eq!(decode_ticket_text("aGVsbG8="), Err(TicketError::BadEncoding));
    assert_eq!(decode_ticket_text("+/8"), Err(TicketError::BadEncoding));
    assert_eq!(decode_ticket_text("aGVsbG9"), Err(TicketError::BadEncoding));
    assert_eq!(decode_ticket_text("a"), Err(TicketError::BadEncoding));
    assert_eq!(decode_ticket_text("aGV sbG8"), Err(TicketError::BadEncoding));
}

#[test]
fn ticket_from_valid_base64_of_non_json_decodes_to_those_bytes() {
    let encoded = data_encoding::BASE64URL_NOPAD.encode(b"not json");
    assert_eq!(decode_ticket_text(&encoded).unwrap(), b"not json");
}

#[test]
fn trimming_removes_only_ascii_whitespace_at_the_ends() {
    assert_eq!(trim_ascii_whitespace(b"  ab c\t\n"), b"ab c");
    assert_eq!(trim_ascii_whitespace(b" \r\n\x0c\t"), b"");
    assert_eq!(trim_ascii_whitespace(b""), b"");
    assert_eq!(trim_ascii_whitespace(b"\x0bx\x0b"), b"\x0bx\x0b");
}
