use mac_nfc_tool::sector::{sector_preview, validate_read_request, validate_write_request};

const RANGE: &str = "only Mifare Classic 1K sectors (0-15) are supported";

#[test]
fn read_request_checks_sector_first() {
    assert_eq!(validate_read_request(16, "bad", "bad").err(), Some(RANGE.to_string()));
}

#[test]
fn read_request_then_key_then_type() {
    assert_eq!(
        validate_read_request(15, "FF", "Z").err(),
        Some("keyHex must be exactly 12 hex chars".to_string())
    );
    assert_eq!(
        validate_read_request(0, "FFFFFFFFFFFF", "Z").err(),
        Some("keyType must be 'A' or 'B'".to_string())
    );
}

#[test]
fn read_request_accepted() {
    let k = validate_read_request(3, "A0A1A2A3A4A5", "b").unwrap();
    assert_eq!(k.key, vec![0xA0, 0xA1, 0xA2, 0xA3, 0xA4, 0xA5]);
    assert_eq!(k.key_type, 1);
}

#[test]
fn write_request_checks_in_order() {
    assert_eq!(validate_write_request(20, 9, "", "", "").err(), Some(RANGE.to_string()));
    assert_eq!(
        validate_write_request(1, 4, "", "", "").err(),
        Some("block must be in range 0..3".to_string())
    );
    assert_eq!(
        validate_write_request(1, 3, "00", "11", "A").err(),
        Some("keyHex must be exactly 12 hex chars".to_string())
    );
    assert_eq!(
        validate_write_request(1, 3, "00", "FFFFFFFFFFFF", "X").err(),
        Some("dataHex must be exactly 32 hex chars".to_string())
    );
    assert_eq!(
        validate_write_request(1, 3, &"00".repeat(16), "FFFFFFFFFFFF", "X").err(),
        Some("keyType must be 'A' or 'B'".to_string())
    );
}

#[test]
fn write_request_accepted() {
    let (k, data) = validate_write_request(2, 1, "00 11 22 33 44 55 66 77 88 99 AA BB CC DD EE FF", "000000000000", "A").unwrap();
    assert_eq!(k.key, vec![0; 6]);
    assert_eq!(k.key_type, 0);
    assert_eq!(data, vec![0x00, 0x11, 0x22, 0x33, 0x44, 0x55, 0x66, 0x77, 0x88, 0x99, 0xAA, 0xBB, 0xCC, 0xDD, 0xEE, 0xFF]);
}

#[test]
fn preview_shows_four_blocks() {
    let mut bytes = [0u8; 64];
    bytes[..5].copy_from_slice(b"Hello");
    bytes[16] = 0xFF;
    for i in 48..64 {
        bytes[i] = i as u8;
    }
    let p = sector_preview(7, &bytes);
    assert_eq!(p.sector, 7);
    assert_eq!(p.blocks.len(), 4);
    assert_eq!(p.blocks[0], "48 65 6C 6C 6F 00 00 00 00 00 00 00 00 00 00 00");
    assert_eq!(p.blocks[1], "FF 00 00 00 00 00 00 00 00 00 00 00 00 00 00 00");
    assert_eq!(p.blocks[3], "30 31 32 33 34 35 36 37 38 39 3A 3B 3C 3D 3E 3F");
    assert_eq!(p.ascii[0], "Hello...........");
    assert_eq!(p.ascii[1], "................");
    assert_eq!(p.ascii[3], "0123456789:;<=>?");
}
