use mac_nfc_tool::presence::{reader_presence, status_from_probe, ReaderStatus};
use mac_nfc_tool::watch::{next_step, should_handle_dev_event, DevEventKind, PresenceWatch, WatchEvent, WatchStep};

fn names(v: &[&str]) -> Vec<String> {
    v.iter().map(|s| s.to_string()).collect()
}

fn status(available: bool, count: usize, first: &str) -> ReaderStatus {
    ReaderStatus { available, count, first_connstring: first.to_string() }
}

fn same(a: &ReaderStatus, b: &ReaderStatus) -> bool {
    a.available == b.available && a.count == b.count && a.first_connstring == b.first_connstring
}

#[test]
fn no_ports_means_unavailable() {
    let s = reader_presence(&names(&["disk0", "null", "tty.Bluetooth"]));
    assert!(same(&s, &status(false, 0, "")));
}

#[test]
fn least_port_gives_connstring() {
    let s = reader_presence(&names(&["tty.usbserial-2", "disk0", "cu.usbserial-1", "cu.usbmodem9", "tty.wchusbserial7"]));
    assert!(same(&s, &status(true, 4, "pn532_uart:/dev/cu.usbmodem9")));
}

#[test]
fn single_port() {
    let s = reader_presence(&names(&["cu.wchusbserial1420"]));
    assert!(same(&s, &status(true, 1, "pn532_uart:/dev/cu.wchusbserial1420")));
}

#[test]
fn probe_status() {
    assert!(same(&status_from_probe(0, String::new()), &status(false, 0, "")));
    assert!(same(&status_from_probe(2, "pn532_uart:/dev/x".to_string()), &status(true, 2, "pn532_uart:/dev/x")));
}

#[test]
fn access_events_are_ignored() {
    assert!(!should_handle_dev_event(&DevEventKind::Access));
    for k in [DevEventKind::Any, DevEventKind::Create, DevEventKind::Modify, DevEventKind::Remove, DevEventKind::Other] {
        assert!(should_handle_dev_event(&k));
    }
}

#[test]
fn watcher_steps() {
    assert_eq!(next_step(&WatchEvent::Changed(DevEventKind::Create)), WatchStep::Rescan);
    assert_eq!(next_step(&WatchEvent::Changed(DevEventKind::Access)), WatchStep::Wait);
    assert_eq!(next_step(&WatchEvent::Failed), WatchStep::Wait);
    assert_eq!(next_step(&WatchEvent::Timeout), WatchStep::Rescan);
    assert_eq!(next_step(&WatchEvent::Closed), WatchStep::Stop);
}

#[test]
fn watcher_reports_only_changes() {
    let mut w = PresenceWatch::new(status(false, 0, ""));
    assert!(w.observe(status(false, 0, "")).is_none());
    let r = w.observe(status(true, 1, "pn532_uart:/dev/cu.usbmodem1")).unwrap();
    assert!(same(&r, &status(true, 1, "pn532_uart:/dev/cu.usbmodem1")));
    assert!(same(w.last(), &r));
    assert!(w.observe(status(true, 1, "pn532_uart:/dev/cu.usbmodem1")).is_none());
    assert!(w.observe(status(false, 0, "")).is_some());
}
