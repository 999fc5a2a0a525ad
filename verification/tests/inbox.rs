use agent_teams::inbox::{Inbox, InboxMessage};

fn message(from: &str, content: &str) -> InboxMessage {
    InboxMessage {
        from: from.to_string(),
        timestamp: "2026-01-01T00:00:00Z".to_string(),
        content: content.to_string(),
        read: false,
    }
}

#[test]
fn send_and_read_message() {
    let mut inbox = Inbox::new("inboxes".to_string());
    inbox.init();
    inbox.create_inbox("alice");

    let msg = InboxMessage {
        from: "bob".to_string(),
        timestamp: "2026-01-01T00:00:00Z".to_string(),
        content: "Hello Alice!".to_string(),
        read: false,
    };
    inbox.send_message("alice", msg.clone());

    let messages = inbox.read_inbox("alice");
    assert_eq!(messages.len(), 1);
    assert_eq!(messages[0].content, "Hello Alice!");
    assert!(!messages[0].read);
}

#[test]
fn consume_unread_marks_as_read() {
    let mut inbox = Inbox::new("inboxes".to_string());
    inbox.init();
    inbox.create_inbox("alice");

    let msg = InboxMessage {
        from: "bob".to_string(),
        timestamp: "2026-01-01T00:00:00Z".to_string(),
        content: "Check this".to_string(),
        read: false,
    };
    inbox.send_message("alice", msg);

    let unread = inbox.consume_unread("alice");
    assert_eq!(unread.len(), 1);

    // Second call should return empty.
    let unread = inbox.consume_unread("alice");
    assert!(unread.is_empty());
}

#[test]
fn broadcast_sends_to_all() {
    let mut inbox = Inbox::new("inboxes".to_string());
    inbox.init();
    inbox.create_inbox("alice");
    inbox.create_inbox("bob");
    inbox.create_inbox("leader");

    inbox.broadcast("leader", "Team update!", true);

    // Leader excluded, alice and bob received.
    let alice_msgs = inbox.read_inbox("alice");
    assert_eq!(alice_msgs.len(), 1);

    let bob_msgs = inbox.read_inbox("bob");
    assert_eq!(bob_msgs.len(), 1);

    let leader_msgs = inbox.read_inbox("leader");
    assert!(leader_msgs.is_empty());
}

#[test]
fn consume_as_tags_formats_correctly() {
    let mut inbox = Inbox::new("inboxes".to_string());
    inbox.init();
    inbox.create_inbox("alice");

    let msg = InboxMessage {
        from: "bob".to_string(),
        timestamp: "2026-01-01T00:00:00Z".to_string(),
        content: "Found a bug".to_string(),
        read: false,
    };
    inbox.send_message("alice", msg);

    let tags = inbox.consume_as_tags("alice");
    assert!(tags.is_some());
    let text = tags.unwrap();
    assert!(text.contains("<teammate-message from=\"bob\">"));
    assert!(text.contains("Found a bug"));
    assert!(text.contains("</teammate-message>"));
}

#[test]
fn new_inbox_has_no_directory_and_no_mailboxes() {
    let inbox = Inbox::new("inboxes".to_string());
    assert!(!inbox.is_provisioned());
    assert!(inbox.list_agents().is_empty());
    assert!(inbox.read_inbox("alice").is_empty());
}

#[test]
fn init_provisions_the_directory_only() {
    let mut inbox = Inbox::new("inboxes".to_string());
    inbox.init();
    assert!(inbox.is_provisioned());
    assert!(inbox.list_agents().is_empty());
    inbox.init();
    assert!(inbox.is_provisioned());
}

#[test]
fn create_inbox_never_overwrites_a_log() {
    let mut inbox = Inbox::new("inboxes".to_string());
    inbox.send_message("alice", message("bob", "first"));
    inbox.create_inbox("alice");
    let log = inbox.read_inbox("alice");
    assert_eq!(log.len(), 1);
    assert_eq!(log[0].content, "first");
    assert_eq!(inbox.list_agents(), vec!["alice".to_string()]);
}

#[test]
fn send_creates_the_mailbox_when_absent() {
    let mut inbox = Inbox::new("inboxes".to_string());
    inbox.send_message("carol", message("bob", "hi"));
    assert!(inbox.is_provisioned());
    assert_eq!(inbox.list_agents(), vec!["carol".to_string()]);
    assert_eq!(inbox.read_inbox("carol"), vec![message("bob", "hi")]);
}

#[test]
fn sends_are_kept_in_send_order() {
    let mut inbox = Inbox::new("inboxes".to_string());
    inbox.send_message("alice", message("bob", "one"));
    inbox.send_message("alice", message("carol", "two"));
    inbox.send_message("alice", message("bob", "three"));
    let log = inbox.read_inbox("alice");
    let contents: Vec<&str> = log.iter().map(|m| m.content.as_str()).collect();
    assert_eq!(contents, vec!["one", "two", "three"]);
}

#[test]
fn consume_returns_exactly_the_sent_messages_in_order() {
    let mut inbox = Inbox::new("inboxes".to_string());
    let sent = vec![message("bob", "one"), message("carol", "two"), message("dave", "three")];
    for m in &sent {
        inbox.send_message("alice", m.clone());
    }
    let unread = inbox.consume_unread("alice");
    assert_eq!(unread, sent);
    assert!(inbox.consume_unread("alice").is_empty());
    let log = inbox.read_inbox("alice");
    assert_eq!(log.len(), 3);
    assert!(log.iter().all(|m| m.read));
}

#[test]
fn consume_skips_messages_read_before() {
    let mut inbox = Inbox::new("inboxes".to_string());
    inbox.send_message("alice", message("bob", "old"));
    assert_eq!(inbox.consume_unread("alice").len(), 1);
    inbox.send_message("alice", message("bob", "new"));
    let unread = inbox.consume_unread("alice");
    assert_eq!(unread, vec![message("bob", "new")]);
    let log = inbox.read_inbox("alice");
    assert_eq!(log.len(), 2);
    assert_eq!(log[0].content, "old");
    assert!(log[0].read);
    assert!(log[1].read);
}

#[test]
fn a_message_sent_as_read_is_never_handed_out() {
    let mut inbox = Inbox::new("inboxes".to_string());
    let mut m = message("bob", "seen");
    m.read = true;
    inbox.send_message("alice", m);
    assert!(inbox.consume_unread("alice").is_empty());
    assert_eq!(inbox.read_inbox("alice").len(), 1);
}

#[test]
fn consume_of_a_missing_mailbox_creates_nothing() {
    let mut inbox = Inbox::new("inboxes".to_string());
    assert!(inbox.consume_unread("ghost").is_empty());
    assert_eq!(inbox.consume_as_tags("ghost"), None);
    assert!(inbox.list_agents().is_empty());
    assert!(!inbox.is_provisioned());
}

#[test]
fn consume_as_tags_renders_blocks_with_blank_lines_between() {
    let mut inbox = Inbox::new("inboxes".to_string());
    inbox.send_message("alice", message("bob", "Found a bug"));
    inbox.send_message("alice", message("carol", "Fixed it"));
    let text = inbox.consume_as_tags("alice").unwrap();
    assert_eq!(
        text,
        "<teammate-message from=\"bob\">\nFound a bug\n</teammate-message>\n\n<teammate-message from=\"carol\">\nFixed it\n</teammate-message>"
    );
    assert_eq!(inbox.consume_as_tags("alice"), None);
}

#[test]
fn consume_as_tags_of_one_message_has_no_separator() {
    let mut inbox = Inbox::new("inboxes".to_string());
    inbox.send_message("alice", message("bob", "x"));
    assert_eq!(
        inbox.consume_as_tags("alice").unwrap(),
        "<teammate-message from=\"bob\">\nx\n</teammate-message>"
    );
}

#[test]
fn broadcast_at_excludes_only_the_sender() {
    let mut inbox = Inbox::new("inboxes".to_string());
    inbox.create_inbox("x");
    inbox.create_inbox("y");
    inbox.create_inbox("z");
    inbox.send_message("y", message("z", "earlier"));
    inbox.broadcast_at("x", "news", true, "2026-02-03T04:05:06+00:00");
    let expected = InboxMessage {
        from: "x".to_string(),
        timestamp: "2026-02-03T04:05:06+00:00".to_string(),
        content: "news".to_string(),
        read: false,
    };
    assert!(inbox.read_inbox("x").is_empty());
    assert_eq!(inbox.read_inbox("y"), vec![message("z", "earlier"), expected.clone()]);
    assert_eq!(inbox.read_inbox("z"), vec![expected]);
    let mut agents = inbox.list_agents();
    agents.sort();
    assert_eq!(agents, vec!["x".to_string(), "y".to_string(), "z".to_string()]);
}

#[test]
fn broadcast_at_includes_the_sender_when_asked() {
    let mut inbox = Inbox::new("inboxes".to_string());
    inbox.create_inbox("x");
    inbox.create_inbox("y");
    inbox.broadcast_at("x", "news", false, "t");
    assert_eq!(inbox.read_inbox("x").len(), 1);
    assert_eq!(inbox.read_inbox("y").len(), 1);
}

#[test]
fn broadcast_from_an_outsider_reaches_everyone() {
    let mut inbox = Inbox::new("inboxes".to_string());
    inbox.create_inbox("y");
    inbox.create_inbox("z");
    inbox.broadcast_at("leader", "news", true, "t");
    assert_eq!(inbox.read_inbox("y").len(), 1);
    assert_eq!(inbox.read_inbox("z").len(), 1);
    assert!(inbox.read_inbox("leader").is_empty());
    assert_eq!(inbox.list_agents().len(), 2);
}

#[test]
fn broadcast_into_no_mailboxes_changes_nothing() {
    let mut inbox = Inbox::new("inboxes".to_string());
    inbox.broadcast("leader", "anyone?", true);
    assert!(inbox.list_agents().is_empty());
    assert!(!inbox.is_provisioned());
}

#[test]
fn broadcast_stamps_every_message_with_one_rfc3339_time() {
    let mut inbox = Inbox::new("inboxes".to_string());
    inbox.create_inbox("alice");
    inbox.create_inbox("bob");
    inbox.broadcast("leader", "Team update!", true);
    let a = inbox.read_inbox("alice");
    let b = inbox.read_inbox("bob");
    assert_eq!(a[0].timestamp, b[0].timestamp);
    assert_eq!(a[0].from, "leader");
    assert_eq!(a[0].content, "Team update!");
    assert!(!a[0].read);
    let parsed = chrono::DateTime::parse_from_rfc3339(&a[0].timestamp);
    assert!(parsed.is_ok());
    assert!(parsed.unwrap().timestamp() > 1_600_000_000);
}

#[test]
fn write_inbox_replaces_the_whole_log() {
    let mut inbox = Inbox::new("inboxes".to_string());
    inbox.send_message("alice", message("bob", "old"));
    inbox.write_inbox("alice", vec![message("carol", "a"), message("carol", "b")]);
    let log = inbox.read_inbox("alice");
    assert_eq!(log, vec![message("carol", "a"), message("carol", "b")]);
}

#[test]
fn inbox_path_is_the_agent_file_in_the_directory() {
    let inbox = Inbox::new("/data/teams/t1/inboxes".to_string());
    assert_eq!(inbox.inbox_path("alice"), "/data/teams/t1/inboxes/alice.json");
}
