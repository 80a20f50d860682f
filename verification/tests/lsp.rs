use cargo_rustics::lsp::{handle_notification, Action, Documents, Notification};

const URI: &str = "file:///tmp/x.rs";

#[test]
fn handle_notification_did_open_inserts_into_documents() {
    let mut docs = Documents::new();
    let action = handle_notification(
        &mut docs,
        Notification::DidOpen {
            uri: URI.into(),
            text: "fn f() {}".into(),
        },
    );
    assert_eq!(docs.get(URI).as_deref(), Some("fn f() {}"));
    match action {
        Action::Publish { uri, text } => {
            assert_eq!(uri, URI);
            assert_eq!(text, "fn f() {}");
        }
        Action::Nothing => panic!("an open publishes diagnostics"),
    }
}

#[test]
fn handle_notification_did_change_replaces_text() {
    let mut docs = Documents::new();
    docs.insert(URI.into(), "fn old() {}".into());
    handle_notification(
        &mut docs,
        Notification::DidChange {
            uri: URI.into(),
            changes: vec!["fn newer() {}".into()],
        },
    );
    assert_eq!(docs.get(URI).as_deref(), Some("fn newer() {}"));
    assert_eq!(docs.len(), 1);
}

#[test]
fn handle_notification_unknown_method_is_ignored() {
    let mut docs = Documents::new();
    let action = handle_notification(&mut docs, Notification::Other);
    assert!(matches!(action, Action::Nothing));
    assert_eq!(docs.len(), 0);
}

#[test]
fn handle_notification_did_change_with_no_changes_is_noop() {
    let mut docs = Documents::new();
    let action = handle_notification(
        &mut docs,
        Notification::DidChange {
            uri: URI.into(),
            changes: vec![],
        },
    );
    assert!(matches!(action, Action::Nothing));
    assert_eq!(docs.len(), 0);
    assert!(docs.get(URI).is_none());
}

#[test]
fn first_content_change_wins_and_other_documents_keep_their_text() {
    let mut docs = Documents::new();
    docs.insert("a".into(), "A".into());
    docs.insert("b".into(), "B".into());
    handle_notification(
        &mut docs,
        Notification::DidChange {
            uri: "b".into(),
            changes: vec!["B2".into(), "B3".into()],
        },
    );
    assert_eq!(docs.get("a").as_deref(), Some("A"));
    assert_eq!(docs.get("b").as_deref(), Some("B2"));
    assert_eq!(docs.len(), 2);
}
