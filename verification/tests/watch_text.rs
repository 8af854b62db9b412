use podium::text::{chars_lt, chars_of, insert_sorted, push_decimal, str_eq, string_of_range};
use podium::watch::{ChangePoll, NoReceiverError, NoSenderError, WakerId, WatchVersion};

// ---------------------------------------------------------------------------
// Watch channel versions
// ---------------------------------------------------------------------------

#[test]
fn waker_ids_count_up_and_wrap() {
    let mut next = WakerId::first();
    assert_eq!(next.post_inc(), WakerId(1));
    assert_eq!(next.post_inc(), WakerId(2));
    assert_eq!(next, WakerId(2));
    let mut last = WakerId(usize::MAX);
    assert_eq!(last.post_inc(), WakerId(0));
}

#[test]
fn send_is_seen_once() {
    let mut channel = WatchVersion::new();
    let mut seen = 0usize;
    assert_eq!(channel.poll_changed(&mut seen), ChangePoll::Pending);
    assert_eq!(channel.on_send(true), Ok(()));
    assert_eq!(channel.version, 1);
    assert_eq!(channel.poll_changed(&mut seen), ChangePoll::Changed);
    assert_eq!(seen, 1);
    assert_eq!(channel.poll_changed(&mut seen), ChangePoll::Pending);
}

#[test]
fn send_without_receivers_keeps_version() {
    let mut channel = WatchVersion::new();
    assert_eq!(channel.on_send(false), Err(NoReceiverError));
    assert_eq!(channel.version, 0);
    let mut seen = 0usize;
    assert_eq!(channel.poll_changed(&mut seen), ChangePoll::Pending);
}

#[test]
fn closed_channel_reports_dropped_sender_after_last_value() {
    let mut channel = WatchVersion::new();
    channel.on_send(true).unwrap();
    channel.close();
    assert!(channel.closed);
    let mut seen = 0usize;
    assert_eq!(channel.poll_changed(&mut seen), ChangePoll::Changed);
    assert_eq!(channel.poll_changed(&mut seen), ChangePoll::SenderDropped);
}

#[test]
fn borrowing_marks_the_value_seen() {
    let mut channel = WatchVersion::new();
    channel.on_send(true).unwrap();
    channel.on_send(true).unwrap();
    let mut seen = 0usize;
    channel.mark_seen(&mut seen);
    assert_eq!(seen, 2);
    assert_eq!(channel.poll_changed(&mut seen), ChangePoll::Pending);
}

#[test]
fn version_wraps() {
    let mut channel = WatchVersion { version: usize::MAX, closed: false };
    channel.on_send(true).unwrap();
    assert_eq!(channel.version, 0);
    let mut seen = usize::MAX;
    assert_eq!(channel.poll_changed(&mut seen), ChangePoll::Changed);
    assert_eq!(seen, 0);
}

#[test]
fn error_messages() {
    assert_eq!(NoReceiverError.message(), "all receivers were dropped");
    assert_eq!(NoSenderError.message(), "sender was dropped");
}

// ---------------------------------------------------------------------------
// Text helpers
// ---------------------------------------------------------------------------

#[test]
fn decimal_digits() {
    let mut out: Vec<char> = Vec::new();
    push_decimal(&mut out, 0);
    out.push(' ');
    push_decimal(&mut out, 509);
    out.push(' ');
    push_decimal(&mut out, u64::MAX);
    let text: String = out.into_iter().collect();
    assert_eq!(text, "0 509 18446744073709551615");
}

#[test]
fn sorted_insertion_of_strings() {
    let mut set: Vec<String> = Vec::new();
    for s in ["m", "b", "z", "b", "B", "", "mm"] {
        insert_sorted(&mut set, s.to_string());
    }
    assert_eq!(set, vec!["", "B", "b", "m", "mm", "z"]);
}

#[test]
fn character_order_and_equality() {
    assert!(chars_lt(&chars_of("abc"), &chars_of("abd")));
    assert!(chars_lt(&chars_of("ab"), &chars_of("abc")));
    assert!(!chars_lt(&chars_of("abc"), &chars_of("abc")));
    assert!(chars_lt(&chars_of("Z"), &chars_of("a")));
    assert!(str_eq("héllo", "héllo"));
    assert!(!str_eq("a", "A"));
    assert_eq!(string_of_range(&chars_of("podium"), 1, 4), "odi");
}
