use sip_monitor::classify::{classify, contact, get_field, get_map, process, sip_status};
use sip_monitor::message::Message;

#[test]
fn extension_status_well_formed() {
    let block = "Event: ExtensionStatus\nExten: 1001\nStatus: 0\nStatusText: Idle";
    match classify(block) {
        Some(Message::Sip(e, st)) => {
            assert_eq!(e, "1001");
            assert_eq!(st.status, 0);
            assert_eq!(st.status_text, "Idle");
        }
        _ => panic!("expected a status update"),
    }
}

#[test]
fn extension_status_crlf_lines() {
    let block = "Event: ExtensionStatus\r\nExten: 1002\r\nStatus: 8\r\nStatusText: Ringing";
    match classify(block) {
        Some(Message::Sip(e, st)) => {
            assert_eq!(e, "1002");
            assert_eq!(st.status, 8);
            assert_eq!(st.status_text, "Ringing");
        }
        _ => panic!("expected a status update"),
    }
}

#[test]
fn extension_status_non_numeric_defaults_to_zero() {
    let block = "Event: ExtensionStatus\nExten: 1001\nStatus: busy\nStatusText: Busy";
    match classify(block) {
        Some(Message::Sip(e, st)) => {
            assert_eq!(e, "1001");
            assert_eq!(st.status, 0);
            assert_eq!(st.status_text, "Busy");
        }
        _ => panic!("expected a status update"),
    }
}

#[test]
fn extension_status_missing_field_yields_nothing() {
    let block = "Event: ExtensionStatus\nExten: 1001\nStatus: 0";
    assert!(classify(block).is_none());
}

#[test]
fn aor_list_missing_contacts_is_unknown() {
    let block = "Event: AorList\nObjectName: 1001";
    assert!(matches!(classify(block), Some(Message::Unknown)));
}

#[test]
fn aor_list_well_formed() {
    let block = "Event: AorList\nObjectName: 1001\nContacts: sip-1001-1";
    match classify(block) {
        Some(Message::Contact { contact, name }) => {
            assert_eq!(name, "1001");
            assert_eq!(contact, "sip-1001-1");
        }
        _ => panic!("expected a contact"),
    }
}

#[test]
fn aor_list_complete_marker() {
    let block = "Event: AorListComplete\nEventList: Complete\nListItems: 2";
    assert!(matches!(classify(block), Some(Message::Complete)));
}

#[test]
fn response_success_event_list_start() {
    let block = "Response: Success\r\nActionID: 1\r\nEventList: start\r\nMessage: A listing follows";
    assert!(matches!(classify(block), Some(Message::Start)));
}

#[test]
fn response_success_with_status_fields() {
    let block = "Response: Success\nExten: 1001\nStatus: 4\nStatusText: Unavailable";
    match classify(block) {
        Some(Message::Sip(e, st)) => {
            assert_eq!(e, "1001");
            assert_eq!(st.status, 4);
            assert_eq!(st.status_text, "Unavailable");
        }
        _ => panic!("expected a status update"),
    }
}

#[test]
fn response_success_without_fields_is_unknown() {
    let block = "Response: Success\nMessage: Authentication accepted";
    assert!(matches!(classify(block), Some(Message::Unknown)));
}

#[test]
fn other_response_is_unknown() {
    let block = "Response: Error\nMessage: Permission denied";
    assert!(matches!(classify(block), Some(Message::Unknown)));
}

#[test]
fn unrecognized_event_yields_nothing() {
    let block = "Event: Newchannel\nChannel: PJSIP/1001-00000001";
    assert!(classify(block).is_none());
}

#[test]
fn empty_block_yields_nothing() {
    assert!(classify("").is_none());
}

#[test]
fn process_prefers_event_list_start() {
    let block = "EventList: start\nExten: 1001\nStatus: 0\nStatusText: Idle";
    assert!(matches!(process(block), Message::Start));
}

#[test]
fn sip_status_missing_key_is_unknown() {
    assert!(matches!(sip_status("Exten: 1001\nStatus: 0"), Message::Unknown));
}

#[test]
fn contact_missing_key_is_unknown() {
    assert!(matches!(contact("ObjectName: 1001"), Message::Unknown));
}

#[test]
fn get_map_splits_keys_and_values() {
    let pairs = get_map("Event: ExtensionStatus\nExten: 1001");
    assert_eq!(pairs.len(), 2);
    assert_eq!(pairs[0].0, "Event");
    assert_eq!(pairs[0].1, "ExtensionStatus");
    assert_eq!(pairs[1].0, "Exten");
    assert_eq!(pairs[1].1, "1001");
}

#[test]
fn get_field_last_duplicate_wins() {
    let block = "Key: first\nKey: second";
    assert_eq!(get_field(block, "Key"), Some("second".to_owned()));
}

#[test]
fn get_field_value_stops_at_next_separator() {
    let block = "Key: middle: tail";
    assert_eq!(get_field(block, "Key"), Some("middle".to_owned()));
}

#[test]
fn get_field_line_without_separator_has_empty_value() {
    let block = "JustAKey";
    assert_eq!(get_field(block, "JustAKey"), Some(String::new()));
    assert_eq!(get_field(block, "Missing"), None);
}

#[test]
fn status_code_boundaries_through_classifier() {
    let cases = [
        ("127", 127i8),
        ("-128", -128i8),
        ("128", 0i8),
        ("-129", 0i8),
        ("0001", 1i8),
        ("+5", 5i8),
        ("1e3", 0i8),
        (" 5", 0i8),
    ];
    for (field, expected) in cases {
        let block = format!("Event: ExtensionStatus\nExten: 9\nStatus: {}\nStatusText: T", field);
        match classify(&block) {
            Some(Message::Sip(_, st)) => assert_eq!(st.status, expected, "field {:?}", field),
            _ => panic!("expected a status update for {:?}", field),
        }
    }
}
