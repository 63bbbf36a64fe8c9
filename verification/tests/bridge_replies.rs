use mac_nfc_tool::bridge::{check_bridge_return, name_reply, probe_reply, read_c_error, read_cstr, scan_reply};

#[test]
fn reads_text_before_nul_and_trims() {
    assert_eq!(read_cstr(b"  PN532 board \n\0garbage"), "PN532 board");
}

#[test]
fn reads_whole_buffer_without_nul() {
    assert_eq!(read_cstr(b"\tabc "), "abc");
}

#[test]
fn trims_unicode_whitespace() {
    assert_eq!(read_cstr("\u{a0}x\u{3000}\0".as_bytes()), "x");
}

#[test]
fn replaces_invalid_utf8() {
    assert_eq!(read_cstr(b"a\xffb\0"), "a\u{FFFD}b");
}

#[test]
fn empty_error_gets_default_message() {
    assert_eq!(read_c_error(b"\0\0\0"), "unknown nfc error");
    assert_eq!(read_c_error(b"   \0"), "unknown nfc error");
}

#[test]
fn error_message_is_kept() {
    assert_eq!(read_c_error(b"no device\0"), "no device");
}

#[test]
fn status_zero_is_success() {
    assert_eq!(check_bridge_return(0, b"ignored\0"), Ok(()));
}

#[test]
fn nonzero_status_is_error() {
    assert_eq!(check_bridge_return(-3, b"Mifare Authentication Failed\0"), Err("Mifare Authentication Failed".to_string()));
}

#[test]
fn probe_reply_gives_count_and_first() {
    assert_eq!(
        probe_reply(0, 2, b"pn532_uart:/dev/tty.usbserial-1\0", b"\0"),
        Ok((2, "pn532_uart:/dev/tty.usbserial-1".to_string()))
    );
    assert_eq!(probe_reply(1, 0, b"\0", b"\0"), Err("unknown nfc error".to_string()));
}

#[test]
fn name_reply_gives_name() {
    assert_eq!(name_reply(0, b"PN532\0", b"\0"), Ok("PN532".to_string()));
    assert_eq!(name_reply(2, b"PN532\0", b"busy\0"), Err("busy".to_string()));
}

#[test]
fn scan_reply_gives_card_fields() {
    assert_eq!(
        scan_reply(0, b"04A1B2C3\0", b"0004\0", b"08\0", b"Mifare Classic 1K\0", b"\0"),
        Ok((
            "04A1B2C3".to_string(),
            "0004".to_string(),
            "08".to_string(),
            "Mifare Classic 1K".to_string()
        ))
    );
    assert_eq!(
        scan_reply(-1, b"\0", b"\0", b"\0", b"\0", b"No card detected\0"),
        Err("No card detected".to_string())
    );
}
