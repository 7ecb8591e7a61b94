use sip_monitor::bootstrap::{apply_live, Action, Bootstrap, Phase};
use sip_monitor::classify::classify;
use sip_monitor::message::{Contact, Message, SipStatus};
use sip_monitor::table::StatusTable;

fn sip(exten: &str, code: i8, text: &str) -> Message {
    Message::Sip(
        exten.to_owned(),
        SipStatus { status: code, status_text: text.to_owned() },
    )
}

fn classified(block: &str) -> Message {
    classify(block).expect("block should classify")
}

#[test]
fn scenario_discovery_then_poll() {
    let mut b = Bootstrap::new();
    assert_eq!(b.phase(), Phase::AwaitStart);

    let start = classified("Response: Success\r\nEventList: start\r\nMessage: A listing follows");
    assert!(matches!(b.on_message(start), Action::Wait));
    assert_eq!(b.phase(), Phase::Collecting);

    let c1 = classified("Event: AorList\nObjectName: 1001\nContacts: sip-1001-contact");
    assert!(matches!(b.on_message(c1), Action::Wait));
    let c2 = classified("Event: AorList\nObjectName: 1002\nContacts: sip-1002-contact");
    assert!(matches!(b.on_message(c2), Action::Wait));

    let complete = classified("Event: AorListComplete\nEventList: Complete");
    match b.on_message(complete) {
        Action::Query(q) => assert_eq!(q, "1001"),
        _ => panic!("expected a query for the first contact"),
    }
    assert_eq!(b.phase(), Phase::Polling);

    let reply1 = classified("Response: Success\nExten: 1001\nStatus: 0\nStatusText: Idle");
    match b.on_message(reply1) {
        Action::Query(q) => assert_eq!(q, "1002"),
        _ => panic!("expected a query for the second contact"),
    }
    let reply2 = classified("Response: Success\nExten: 1002\nStatus: 1\nStatusText: InUse");
    assert!(matches!(b.on_message(reply2), Action::Done));
    assert_eq!(b.phase(), Phase::Live);

    let t = b.into_table();
    assert_eq!(t.len(), 2);
    let s1 = t.get("1001").expect("1001 discovered");
    assert_eq!(s1.status, 0);
    assert_eq!(s1.status_text, "Idle");
    let s2 = t.get("1002").expect("1002 discovered");
    assert_eq!(s2.status, 1);
    assert_eq!(s2.status_text, "InUse");
}

#[test]
fn collection_ignores_unrelated_messages_and_keeps_order() {
    let mut b = Bootstrap::new();
    b.on_message(Message::Start);
    let c1 = classified("Event: AorList\nObjectName: 2001\nContacts: a");
    b.on_message(c1);
    // an unrelated response between contacts is ignored
    assert!(matches!(b.on_message(Message::Unknown), Action::Wait));
    assert!(matches!(b.on_message(Message::Updated), Action::Wait));
    let c2 = classified("Event: AorList\nObjectName: 2000\nContacts: b");
    b.on_message(c2);
    // the first query names the first contact received, not the least name
    match b.on_message(Message::Complete) {
        Action::Query(q) => assert_eq!(q, "2001"),
        _ => panic!("expected a query"),
    }
    match b.on_message(sip("2001", 0, "Idle")) {
        Action::Query(q) => assert_eq!(q, "2000"),
        _ => panic!("expected a query"),
    }
    assert!(matches!(b.on_message(sip("2000", 0, "Idle")), Action::Done));
}

#[test]
fn first_message_not_start_fails_the_bootstrap() {
    let mut b = Bootstrap::new();
    let unrelated = classified("Response: Error\nMessage: nope");
    assert!(matches!(b.on_message(unrelated), Action::Fail));
    assert_eq!(b.phase(), Phase::Failed);
    assert!(matches!(b.on_message(Message::Start), Action::Fail));
}

#[test]
fn unexpected_poll_reply_fails_the_bootstrap() {
    let mut b = Bootstrap::new();
    b.on_message(Message::Start);
    let c1 = classified("Event: AorList\nObjectName: 1001\nContacts: a");
    b.on_message(c1);
    b.on_message(Message::Complete);
    assert_eq!(b.phase(), Phase::Polling);
    assert!(matches!(b.on_message(Message::Complete), Action::Fail));
    assert_eq!(b.phase(), Phase::Failed);
}

#[test]
fn empty_discovery_goes_straight_to_live() {
    let mut b = Bootstrap::new();
    b.on_message(Message::Start);
    assert!(matches!(b.on_message(Message::Complete), Action::Done));
    assert_eq!(b.phase(), Phase::Live);
    let t = b.into_table();
    assert_eq!(t.len(), 0);
}

fn bootstrapped_table() -> StatusTable {
    let mut b = Bootstrap::new();
    b.on_message(Message::Start);
    let c1 = classified("Event: AorList\nObjectName: 1001\nContacts: a");
    b.on_message(c1);
    let c2 = classified("Event: AorList\nObjectName: 1002\nContacts: b");
    b.on_message(c2);
    b.on_message(Message::Complete);
    b.on_message(sip("1001", 1, "InUse"));
    b.on_message(sip("1002", 1, "InUse"));
    b.into_table()
}

#[test]
fn scenario_live_update_changes_only_its_key() {
    let mut t = bootstrapped_table();
    let update = classified("Event: ExtensionStatus\nExten: 1001\nStatus: 0\nStatusText: Idle");
    apply_live(&mut t, update);
    let s1 = t.get("1001").unwrap();
    assert_eq!(s1.status, 0);
    assert_eq!(s1.status_text, "Idle");
    let s2 = t.get("1002").unwrap();
    assert_eq!(s2.status, 1);
    assert_eq!(s2.status_text, "InUse");
}

#[test]
fn live_update_replayed_twice_is_idempotent() {
    let mut once = bootstrapped_table();
    let mut twice = bootstrapped_table();
    let block = "Event: ExtensionStatus\nExten: 1002\nStatus: 4\nStatusText: Unavailable";
    apply_live(&mut once, classified(block));
    apply_live(&mut twice, classified(block));
    apply_live(&mut twice, classified(block));
    assert_eq!(once.len(), twice.len());
    for i in 0..once.len() {
        assert_eq!(once.name_at(i), twice.name_at(i));
        assert_eq!(once.status_at(i).status, twice.status_at(i).status);
        assert_eq!(once.status_at(i).status_text, twice.status_at(i).status_text);
    }
}

#[test]
fn live_update_never_adds_a_key() {
    let mut t = bootstrapped_table();
    let unknown = classified("Event: ExtensionStatus\nExten: 9999\nStatus: 0\nStatusText: Idle");
    apply_live(&mut t, unknown);
    assert_eq!(t.len(), 2);
    assert!(t.get("9999").is_none());
}

#[test]
fn live_phase_ignores_other_messages() {
    let mut t = bootstrapped_table();
    apply_live(&mut t, Message::Complete);
    apply_live(&mut t, Message::Unknown);
    assert_eq!(t.len(), 2);
    assert_eq!(t.get("1001").unwrap().status, 1);
}

#[test]
fn contact_identity_is_name_alone() {
    let a = Contact { name: "1001".to_owned(), contact: "x".to_owned() };
    let b = Contact { name: "1001".to_owned(), contact: "y".to_owned() };
    let c = Contact::from_name("1002".to_owned());
    assert!(a == b);
    assert!(a != c);
    assert_eq!(c.contact, "");
}
