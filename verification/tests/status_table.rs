use sip_monitor::message::SipStatus;
use sip_monitor::table::StatusTable;

fn st(code: i8, text: &str) -> SipStatus {
    SipStatus { status: code, status_text: text.to_owned() }
}

#[test]
fn snapshot_is_sorted_by_name() {
    let mut t = StatusTable::new();
    t.insert("1002".to_owned(), st(0, "Idle"));
    t.insert("1001".to_owned(), st(1, "InUse"));
    t.insert("0900".to_owned(), st(8, "Ringing"));
    assert_eq!(t.len(), 3);
    assert_eq!(t.name_at(0), "0900");
    assert_eq!(t.name_at(1), "1001");
    assert_eq!(t.name_at(2), "1002");
    assert_eq!(t.status_at(1).status, 1);
}

#[test]
fn insert_same_name_replaces() {
    let mut t = StatusTable::new();
    t.insert("1001".to_owned(), st(0, "Idle"));
    t.insert("1001".to_owned(), st(1, "InUse"));
    assert_eq!(t.len(), 1);
    let s = t.get("1001").unwrap();
    assert_eq!(s.status, 1);
    assert_eq!(s.status_text, "InUse");
}

#[test]
fn get_absent_is_none() {
    let mut t = StatusTable::new();
    t.insert("1001".to_owned(), st(0, "Idle"));
    assert!(t.get("1002").is_none());
}

#[test]
fn update_if_present_replaces_only_existing() {
    let mut t = StatusTable::new();
    t.insert("1001".to_owned(), st(0, "Idle"));
    t.update_if_present("1001", st(2, "Busy"));
    t.update_if_present("1002", st(2, "Busy"));
    assert_eq!(t.len(), 1);
    assert_eq!(t.get("1001").unwrap().status, 2);
    assert!(t.get("1002").is_none());
}
