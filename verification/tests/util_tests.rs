use lobby_server::framing::{decode_frame, encode_frame};
use lobby_server::ports::parse_port_range;
use lobby_server::textnum::{champ_catalog_vec, dec_string, default_lobby_name_string, is_blank, team_label_string};
use lobby_server::types::{LobbyId, PlayerId};

#[test]
fn port_range_grammar() {
    assert_eq!(parse_port_range("8080"), Some((8080, 8080)));
    assert_eq!(parse_port_range("4000-4010"), Some((4000, 4010)));
    assert_eq!(parse_port_range("0-65535"), Some((0, 65535)));
    assert_eq!(parse_port_range("65535"), Some((65535, 65535)));
    assert_eq!(parse_port_range(""), None);
    assert_eq!(parse_port_range("-"), None);
    assert_eq!(parse_port_range("12-"), None);
    assert_eq!(parse_port_range("-12"), None);
    assert_eq!(parse_port_range("1-2-3"), None);
    assert_eq!(parse_port_range("port"), None);
    assert_eq!(parse_port_range("12a"), None);
    assert_eq!(parse_port_range("65536"), None);
    assert_eq!(parse_port_range("99999999999999999999"), None);
    assert_eq!(parse_port_range("1-65536"), None);
}

#[test]
fn framing_round_trip() {
    let body: Vec<u8> = vec![7, 0, 255, 42, 1];
    let framed = encode_frame(&body);
    assert_eq!(framed.len(), 9);
    assert_eq!(&framed[0..4], &[0, 0, 0, 5]);
    assert_eq!(decode_frame(&framed), Some(body));

    let empty: Vec<u8> = Vec::new();
    let framed = encode_frame(&empty);
    assert_eq!(framed, vec![0, 0, 0, 0]);
    assert_eq!(decode_frame(&framed), Some(empty));
}

#[test]
fn framing_rejects_bad_buffers() {
    assert_eq!(decode_frame(&vec![0, 0, 1]), None);
    // length prefix does not match the body length
    assert_eq!(decode_frame(&vec![0, 0, 0, 2, 9]), None);
    assert_eq!(decode_frame(&vec![0, 0, 0, 0, 9]), None);
}

#[test]
fn big_endian_prefix_of_large_frame() {
    let body: Vec<u8> = vec![0; 0x01020304];
    let framed = encode_frame(&body);
    assert_eq!(&framed[0..4], &[1, 2, 3, 4]);
}

#[test]
fn decimal_rendering() {
    assert_eq!(dec_string(0), "0");
    assert_eq!(dec_string(7), "7");
    assert_eq!(dec_string(10), "10");
    assert_eq!(dec_string(65535), "65535");
    assert_eq!(dec_string(1002003), "1002003");
}

#[test]
fn team_labels() {
    assert_eq!(team_label_string(0), "Red Team");
    assert_eq!(team_label_string(1), "Blue Team");
    assert_eq!(team_label_string(2), "Team 2");
    assert_eq!(team_label_string(17), "Team 17");
}

#[test]
fn champion_catalog_is_stable() {
    let catalog = champ_catalog_vec();
    assert_eq!(catalog.len(), 100);
    assert_eq!(catalog[0], "Champ 1");
    assert_eq!(catalog[4], "Champ 5");
    assert_eq!(catalog[99], "Champ 100");
}

#[test]
fn blank_names() {
    assert!(is_blank(""));
    assert!(is_blank(" \t\n"));
    assert!(!is_blank(" x "));
}

#[test]
fn default_lobby_names() {
    assert_eq!(default_lobby_name_string(&"A".to_string()), "A's Lobby");
    assert_eq!(default_lobby_name_string(&"".to_string()), "'s Lobby");
}

#[test]
fn minted_ids_are_128_bit() {
    // the random constructors only promise a value; the wrapper result is
    // wrapped unchanged
    let a = PlayerId::new();
    let b = LobbyId::new();
    let _ = a.0;
    let _ = b.0;
}
