use dd_wrt_wol::wol::{InvalidMacFormat, Wol, PACKET_SIZE_BYTES};

#[test]
fn build_packet_has_header_and_sixteen_copies() {
    let mac = [0xAAu8, 0xBB, 0xCC, 0xDD, 0xEE, 0xFF];
    let packet = Wol::build_packet(&mac);
    assert_eq!(packet.len(), 102);
    assert_eq!(&packet[0..6], &[0xFF; 6]);
    for k in 0..16 {
        assert_eq!(&packet[6 + 6 * k..12 + 6 * k], &mac);
    }
}

#[test]
fn from_str_builds_packet_of_parsed_mac() {
    let wol = Wol::from_str("01:23:45:67:89:ab").unwrap();
    let packet = wol.packet();
    assert_eq!(packet.len(), PACKET_SIZE_BYTES);
    assert_eq!(&packet[0..6], &[0xFF; 6]);
    assert_eq!(&packet[6..12], &[0x01, 0x23, 0x45, 0x67, 0x89, 0xAB]);
    assert_eq!(&packet[96..102], &[0x01, 0x23, 0x45, 0x67, 0x89, 0xAB]);
}

#[test]
fn parse_mac_reads_both_cases() {
    assert_eq!(
        Wol::parse_mac("AA:bb:Cc:dD:00:FF").unwrap(),
        vec![0xAA, 0xBB, 0xCC, 0xDD, 0x00, 0xFF]
    );
}

#[test]
fn parse_mac_rejects_too_few_tokens() {
    assert_eq!(Wol::parse_mac("AA:BB"), Err(InvalidMacFormat::WrongSize(5)));
    assert!(Wol::from_str("AA:BB").is_err());
}

#[test]
fn parse_mac_rejects_too_many_tokens() {
    assert_eq!(
        Wol::parse_mac("00:11:22:33:44:55:66"),
        Err(InvalidMacFormat::WrongSize(20))
    );
}

#[test]
fn parse_mac_rejects_non_hex_token() {
    assert_eq!(
        Wol::parse_mac("GG:00:00:00:00:00"),
        Err(InvalidMacFormat::InvalidToken("GG".to_string()))
    );
}

#[test]
fn parse_mac_reports_bad_token_before_count() {
    assert_eq!(
        Wol::parse_mac("00:ZZ"),
        Err(InvalidMacFormat::InvalidToken("ZZ".to_string()))
    );
}

#[test]
fn parse_mac_requires_two_digits() {
    assert_eq!(
        Wol::parse_mac("A:BB:CC:DD:EE:FF"),
        Err(InvalidMacFormat::InvalidToken("A".to_string()))
    );
    assert_eq!(
        Wol::parse_mac("AAA:BB:CC:DD:EE:FF"),
        Err(InvalidMacFormat::InvalidToken("AAA".to_string()))
    );
}

#[test]
fn parse_mac_rejects_empty_text() {
    assert_eq!(
        Wol::parse_mac(""),
        Err(InvalidMacFormat::InvalidToken(String::new()))
    );
}

#[test]
fn parse_mac_rejects_other_separators() {
    assert_eq!(
        Wol::parse_mac("AA-BB-CC-DD-EE-FF"),
        Err(InvalidMacFormat::InvalidToken("AA-BB-CC-DD-EE-FF".to_string()))
    );
}
