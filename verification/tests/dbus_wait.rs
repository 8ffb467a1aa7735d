use forge_core::dbus_wait::{exit_detail, reply_says_owned, resolve_tool};

#[test]
fn resolves_absolute_tool_paths() {
    assert!(resolve_tool(&vec!["/bin/sh"]).is_some());
}

#[test]
fn missing_tools_resolve_to_nothing() {
    assert!(resolve_tool(&vec!["/nonexistent/tool-for-test"]).is_none());
}

#[test]
fn owner_replies_are_recognised() {
    assert!(reply_says_owned("method return\n   boolean true\n"));
    assert!(!reply_says_owned("method return\n   boolean false\n"));
}

#[test]
fn exit_details_name_code_and_signal() {
    assert_eq!(exit_detail(3 << 8), "exit code 3");
    assert_eq!(exit_detail(9), "signal 9");
    assert_eq!(exit_detail(0x7f), "abnormal exit");
}
