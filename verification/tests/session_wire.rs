use sip_monitor::parse::parse_status_code;
use sip_monitor::session::{
    extension_state_command, login_accepted, login_command, show_aors_command,
    show_contacts_command, AmiConnect, BlockAssembler,
};
use sip_monitor::text::{split_lines, str_contains, str_lt, trim_exec};

#[test]
fn login_command_shape() {
    let s = login_command("Monitor", "hunter2");
    assert_eq!(
        s,
        "Action: Login\r\nUsername: Monitor\r\nSecret: hunter2\r\nActionID: 1\r\n\r\n"
    );
}

#[test]
fn ami_connect_holds_credentials() {
    let c = AmiConnect::new("Monitor".to_owned(), "pw".to_owned(), [192, 168, 1, 10], 5038);
    assert_eq!(c.user, "Monitor");
    assert_eq!(c.pass, "pw");
    assert_eq!(c.address, [192, 168, 1, 10]);
    assert_eq!(c.port, 5038);
    assert_eq!(
        c.login_command(),
        "Action: Login\r\nUsername: Monitor\r\nSecret: pw\r\nActionID: 1\r\n\r\n"
    );
}

#[test]
fn discovery_and_poll_commands() {
    assert_eq!(show_aors_command(), "Action: PJSIPShowAors\r\n\r\n");
    assert_eq!(show_contacts_command(), "Action: PJSIPShowContacts\r\n\r\n");
    assert_eq!(
        extension_state_command("1001", "ext-local"),
        "Action: ExtensionState\nExten: 1001\nContext: ext-local\n\n"
    );
}

#[test]
fn login_reply_acceptance() {
    let accepted = "Response: Success\r\nMessage: Authentication accepted";
    let refused = "Response: Error\r\nMessage: Authentication failed";
    assert!(login_accepted(accepted));
    assert!(!login_accepted(refused));
}

#[test]
fn block_assembly_ends_on_blank_line() {
    let mut a = BlockAssembler::new();
    assert!(!a.push_line("Response: Success\r\n"));
    assert!(!a.push_line("Message: Authentication accepted\r\n"));
    assert!(a.push_line("\r\n"));
    assert_eq!(a.finish(), "Response: Success\r\nMessage: Authentication accepted");
}

#[test]
fn blank_only_block_is_empty_after_trim() {
    let mut a = BlockAssembler::new();
    assert!(a.push_line("\r\n"));
    assert_eq!(a.finish(), "");
}

#[test]
fn parse_status_code_values() {
    assert_eq!(parse_status_code("0"), 0);
    assert_eq!(parse_status_code("-5"), -5);
    assert_eq!(parse_status_code("127"), 127);
    assert_eq!(parse_status_code("-128"), -128);
    assert_eq!(parse_status_code("128"), 0);
    assert_eq!(parse_status_code("abc"), 0);
    assert_eq!(parse_status_code(""), 0);
    assert_eq!(parse_status_code("-"), 0);
    assert_eq!(parse_status_code("00000000016"), 16);
}

#[test]
fn text_helpers() {
    assert_eq!(split_lines("a\r\nb\nc"), vec!["a", "b", "c"]);
    assert_eq!(split_lines("a\n"), vec!["a"]);
    assert_eq!(split_lines("\n"), vec![""]);
    assert_eq!(split_lines("a\rb"), vec!["a\rb"]);
    assert_eq!(trim_exec("  x\r\n"), "x");
    assert_eq!(trim_exec("\t sp aced \t"), "sp aced");
    assert!(str_contains("EventList: start here", "EventList: start"));
    assert!(!str_contains("EventList", "EventList: start"));
    assert!(str_lt("1001", "1002"));
    assert!(!str_lt("1002", "1001"));
    assert!(str_lt("100", "1001"));
}
