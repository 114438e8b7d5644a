use mechsim::{LogMessageType, LogMessages};

#[test]
fn labels_name_each_severity() {
    assert_eq!(LogMessageType::Info.label(), "INFO");
    assert_eq!(LogMessageType::Warning.label(), "WARNING");
    assert_eq!(LogMessageType::Error { popup: true }.label(), "ERROR(popup)");
    assert_eq!(LogMessageType::Error { popup: false }.label(), "ERROR");
}

#[test]
fn messages_are_kept_in_order() {
    let mut log = LogMessages::new();
    assert!(log.msgs.is_empty());
    log.info("Info Message", "This is an info message.");
    log.warn("Some Warning", "This is a warning.");
    log.error("Robot Deleted", "Robot was unexpectedly deleted.", true);
    assert_eq!(log.msgs.len(), 3);
    assert_eq!(log.msgs[0].title, "Info Message");
    assert_eq!(log.msgs[0].msg, "This is an info message.");
    assert_eq!(log.msgs[0].msg_type, LogMessageType::Info);
    assert_eq!(log.msgs[1].title, "Some Warning");
    assert_eq!(log.msgs[1].msg_type, LogMessageType::Warning);
    assert_eq!(log.msgs[2].msg, "Robot was unexpectedly deleted.");
    assert_eq!(log.msgs[2].msg_type, LogMessageType::Error { popup: true });
}
