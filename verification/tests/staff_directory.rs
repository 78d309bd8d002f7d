use ccb_labs::staff_directory::{EmployeeDirectory, ServerReply};

#[test]
fn default_staff_answers() {
    let d = EmployeeDirectory::with_default_staff();
    assert_eq!(d.get("john"), Some("manager".to_string()));
    assert_eq!(d.get("jane"), Some("steno".to_string()));
    assert_eq!(d.get("jim"), Some("clerk".to_string()));
    assert_eq!(d.get("jack"), Some("salesman".to_string()));
    assert_eq!(d.get("jill"), None);
}

#[test]
fn requests_are_trimmed_and_lowercased() {
    let d = EmployeeDirectory::with_default_staff();
    assert_eq!(d.job_title(b"  JOHN\r\n"), "manager");
    assert_eq!(d.job_title(b"Jack"), "salesman");
    assert_eq!(d.job_title(b"nobody"), "No such employee");
}

#[test]
fn invalid_utf8_is_replaced() {
    let d = EmployeeDirectory::with_default_staff();
    assert_eq!(d.job_title(b"jo\xffhn"), "No such employee");
}

#[test]
fn empty_read_means_disconnect() {
    let d = EmployeeDirectory::with_default_staff();
    assert!(matches!(d.reply_to(b""), ServerReply::Disconnect));
    match d.reply_to(b"jim\n") {
        ServerReply::Send(s) => assert_eq!(s, "clerk"),
        ServerReply::Disconnect => panic!("expected a reply"),
    }
}

#[test]
fn lookup_after_insert() {
    let mut d = EmployeeDirectory::new();
    d.insert("ann".to_string(), "cook".to_string());
    d.insert("bob".to_string(), "driver".to_string());
    assert_eq!(d.get("ann"), Some("cook".to_string()));
    d.insert("ann".to_string(), "chef".to_string());
    assert_eq!(d.get("ann"), Some("chef".to_string()));
    assert_eq!(d.get("bob"), Some("driver".to_string()));
}

#[test]
fn invalid_bytes_become_replacement_characters() {
    let mut d = EmployeeDirectory::new();
    d.insert("a\u{fffd}b".to_string(), "tester".to_string());
    assert_eq!(d.job_title(b"A\xffB"), "tester");
}

#[test]
fn reply_for_a_looked_up_name() {
    let d = EmployeeDirectory::with_default_staff();
    assert_eq!(d.reply_for_name("jane"), "steno");
    assert_eq!(d.reply_for_name("Jane"), "No such employee");
    assert_eq!(ccb_labs::staff_directory::decode_text(b"ok\xc3\xa9"), "ok\u{e9}");
    assert_eq!(ccb_labs::staff_directory::decode_text(b"\xff"), "\u{fffd}");
}
