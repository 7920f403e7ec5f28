use zed_markdown_fold::documents::DocumentStore;
use zed_markdown_fold::folding::FoldKind;
use zed_markdown_fold::server::{
    is_folding_range_request, notification_kind, Notification, NotificationKind, ServerState,
};

#[test]
fn notification_kinds_by_method() {
    assert_eq!(notification_kind("textDocument/didOpen"), NotificationKind::DidOpen);
    assert_eq!(notification_kind("textDocument/didChange"), NotificationKind::DidChange);
    assert_eq!(notification_kind("textDocument/didClose"), NotificationKind::DidClose);
    assert_eq!(notification_kind("initialized"), NotificationKind::Initialized);
    assert_eq!(notification_kind("$/cancelRequest"), NotificationKind::Other);
    assert!(is_folding_range_request("textDocument/foldingRange"));
    assert!(!is_folding_range_request("textDocument/hover"));
}

#[test]
fn store_reads_back_what_was_written() {
    let mut store = DocumentStore::new();
    assert!(store.get("file:///a.md").is_none());
    store.insert("file:///a.md".to_string(), "one".to_string());
    store.insert("file:///b.md".to_string(), "two".to_string());
    store.insert("file:///a.md".to_string(), "three".to_string());
    assert_eq!(store.get("file:///a.md").map(|s| s.as_str()), Some("three"));
    assert_eq!(store.get("file:///b.md").map(|s| s.as_str()), Some("two"));
    store.remove("file:///a.md");
    assert!(store.get("file:///a.md").is_none());
    assert_eq!(store.get("file:///b.md").map(|s| s.as_str()), Some("two"));
    store.remove("file:///missing.md");
    assert_eq!(store.get("file:///b.md").map(|s| s.as_str()), Some("two"));
}

#[test]
fn registration_is_sent_once_with_id_one() {
    let mut state = ServerState::new();
    assert_eq!(state.on_notification(Notification::Other), None);
    assert_eq!(state.on_notification(Notification::Initialized), Some(1));
    assert_eq!(state.on_notification(Notification::Initialized), None);
    assert_eq!(
        state.on_notification(Notification::Opened {
            uri: "file:///a.md".to_string(),
            text: "# A\nx".to_string()
        }),
        None
    );
}

#[test]
fn did_open_registers_when_it_comes_first() {
    let mut state = ServerState::new();
    let sent = state.on_notification(Notification::Opened {
        uri: "file:///a.md".to_string(),
        text: "x".to_string(),
    });
    assert_eq!(sent, Some(1));
}

#[test]
fn folding_follows_the_document_text() {
    let mut state = ServerState::new();
    let uri = "file:///a.md";
    assert!(state.folding_ranges(uri).is_empty());
    state.on_notification(Notification::Opened {
        uri: uri.to_string(),
        text: "# A\nx".to_string(),
    });
    let r = state.folding_ranges(uri);
    assert_eq!(r.len(), 1);
    assert_eq!((r[0].kind, r[0].start_line, r[0].end_line), (FoldKind::Heading, 0, 1));

    state.on_notification(Notification::Changed {
        uri: uri.to_string(),
        changes: vec!["x".to_string(), "```\na\n```".to_string()],
    });
    let r = state.folding_ranges(uri);
    assert_eq!((r[0].kind, r[0].start_line, r[0].end_line), (FoldKind::CodeBlock, 0, 2));

    state.on_notification(Notification::Changed {
        uri: uri.to_string(),
        changes: vec![],
    });
    assert_eq!(state.folding_ranges(uri).len(), 1);

    state.on_notification(Notification::Closed { uri: uri.to_string() });
    assert!(state.folding_ranges(uri).is_empty());
}
