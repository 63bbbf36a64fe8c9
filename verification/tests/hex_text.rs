use mac_nfc_tool::hex::{ascii_text, hex_bytes_no_space, hex_bytes_spaced, parse_fixed_hex, parse_key_type};

#[test]
fn parses_factory_key() {
    assert_eq!(parse_fixed_hex("FFFFFFFFFFFF", 6, "keyHex"), Ok(vec![0xFF; 6]));
}

#[test]
fn parses_key_with_separators_and_lower_case() {
    assert_eq!(
        parse_fixed_hex("a0 A1:a2-A3 a4a5", 6, "keyHex"),
        Ok(vec![0xA0, 0xA1, 0xA2, 0xA3, 0xA4, 0xA5])
    );
}

#[test]
fn skips_non_hex_characters() {
    assert_eq!(parse_fixed_hex("zzD3F7xxD3F7D3F7gg", 6, "keyHex"), Ok(vec![0xD3, 0xF7, 0xD3, 0xF7, 0xD3, 0xF7]));
}

#[test]
fn refuses_short_key() {
    assert_eq!(
        parse_fixed_hex("FFFF", 6, "keyHex"),
        Err("keyHex must be exactly 12 hex chars".to_string())
    );
}

#[test]
fn refuses_long_data() {
    let input = "00".repeat(17);
    assert_eq!(
        parse_fixed_hex(&input, 16, "dataHex"),
        Err("dataHex must be exactly 32 hex chars".to_string())
    );
}

#[test]
fn parses_block_of_sixteen_bytes() {
    let input = "000102030405060708090A0B0C0D0E0F";
    assert_eq!(parse_fixed_hex(input, 16, "dump block"), Ok((0u8..16).collect::<Vec<u8>>()));
}

#[test]
fn parses_empty_field_for_zero_bytes() {
    assert_eq!(parse_fixed_hex("  ", 0, "x"), Ok(vec![]));
}

#[test]
fn key_type_accepts_either_case() {
    assert_eq!(parse_key_type("A"), Ok(0));
    assert_eq!(parse_key_type("a"), Ok(0));
    assert_eq!(parse_key_type("B"), Ok(1));
    assert_eq!(parse_key_type("b"), Ok(1));
}

#[test]
fn key_type_refuses_others() {
    let msg = Err("keyType must be 'A' or 'B'".to_string());
    assert_eq!(parse_key_type("C"), msg);
    assert_eq!(parse_key_type("AB"), msg);
    assert_eq!(parse_key_type(""), msg);
    assert_eq!(parse_key_type(" A"), msg);
}

#[test]
fn compact_hex_is_upper_case() {
    assert_eq!(hex_bytes_no_space(&[0x00, 0xAB, 0x7F, 0x0c]), "00AB7F0C");
    assert_eq!(hex_bytes_no_space(&[]), "");
}

#[test]
fn spaced_hex_separates_bytes() {
    assert_eq!(hex_bytes_spaced(&[0x00, 0xAB, 0x7F]), "00 AB 7F");
    assert_eq!(hex_bytes_spaced(&[0x5A]), "5A");
    assert_eq!(hex_bytes_spaced(&[]), "");
}

#[test]
fn ascii_preview_masks_unprintable() {
    assert_eq!(ascii_text(&[0x41, 0x20, 0x7E, 0x7F, 0x00, 0x1F, 0x80, 0xFF]), "A ~.....");
}

#[test]
fn compact_hex_reads_back() {
    let bytes: Vec<u8> = (0u8..=255).step_by(17).collect();
    let text = hex_bytes_no_space(&bytes);
    assert_eq!(parse_fixed_hex(&text, bytes.len(), "dump block"), Ok(bytes));
}

#[test]
fn spaced_hex_reads_back() {
    let bytes: Vec<u8> = vec![0xDE, 0xAD, 0xBE, 0xEF, 0x01, 0x23];
    let text = hex_bytes_spaced(&bytes);
    assert_eq!(parse_fixed_hex(&text, 6, "keyHex"), Ok(bytes));
}
