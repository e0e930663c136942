use view_latency::batch::{
    batch_complete, pause_after, batch_message_content, roundtrip_message_content, total_messages,
};
use view_latency::message::{Message, SubscribeTo};

#[test]
fn batch_message_content_formats_numbers() {
    assert_eq!(batch_message_content(1, 0), "batch1msg0");
    assert_eq!(batch_message_content(10, 99), "batch10msg99");
    assert_eq!(batch_message_content(0, 100), "batch0msg100");
}

#[test]
fn roundtrip_message_content_formats_numbers() {
    assert_eq!(roundtrip_message_content(3, 7), "batch3_message7");
    assert_eq!(roundtrip_message_content(10, 42), "batch10_message42");
}

#[test]
fn message_content_of_largest_numbers() {
    assert_eq!(
        batch_message_content(u64::MAX, u64::MAX),
        format!("batch{}msg{}", u64::MAX, u64::MAX)
    );
}

#[test]
fn message_contents_agree_with_format() {
    for batch in [0u64, 1, 9, 10, 11, 99, 100, 1234567] {
        for i in [0u64, 5, 10, 101, 99999] {
            assert_eq!(batch_message_content(batch, i), format!("batch{}msg{}", batch, i));
            assert_eq!(roundtrip_message_content(batch, i), format!("batch{}_message{}", batch, i));
        }
    }
}

#[test]
fn message_contents_are_distinct() {
    assert_ne!(batch_message_content(1, 11), batch_message_content(11, 1));
    assert_ne!(roundtrip_message_content(1, 11), roundtrip_message_content(11, 1));
    let mut seen = std::collections::HashSet::new();
    for batch in 1..=12u64 {
        for i in 0..120u64 {
            assert!(seen.insert(batch_message_content(batch, i)));
        }
    }
}

#[test]
fn total_messages_multiplies() {
    assert_eq!(total_messages(1, 100), 100);
    assert_eq!(total_messages(10, 100), 1000);
    assert_eq!(total_messages(0, 100), 0);
}

#[test]
fn batch_complete_at_batch_size() {
    assert!(!batch_complete(99, 100));
    assert!(batch_complete(100, 100));
    assert!(batch_complete(101, 100));
    assert!(batch_complete(0, 0));
}

#[test]
fn appended_row_gets_placeholder_id() {
    let m = Message::to_append("hello".to_string());
    assert_eq!(m.id, 0);
    assert_eq!(m.content, "hello");
}

#[test]
fn subscription_queries() {
    assert_eq!(SubscribeTo::View.query(), Some("SELECT * FROM messages_view"));
    assert_eq!(SubscribeTo::Table.query(), Some("SELECT * FROM messages"));
    assert_eq!(SubscribeTo::Unsubscribed.query(), None);
}

#[test]
fn pause_after_every_batch_but_the_last() {
    assert!(pause_after(1, 10));
    assert!(pause_after(9, 10));
    assert!(!pause_after(10, 10));
    assert!(!pause_after(1, 1));
}
