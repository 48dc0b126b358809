use thread_opener::dispatch::{default_template, handle_message, Config, MessageEvent, ThreadKind};
use thread_opener::text::split_lines;

fn test_config() -> Config {
    Config { channels: vec![10, 20, 30], template: default_template() }
}

fn event(author_is_bot: bool, channel_id: u64, content: &str) -> MessageEvent {
    MessageEvent { author_is_bot, channel_id, message_id: 777, lines: split_lines(content) }
}

#[test]
fn template_defaults() {
    let t = default_template();
    assert_eq!(t.name, "discussion".to_string());
    assert_eq!(t.kind, ThreadKind::PublicThread);
    assert_eq!(t.auto_archive_minutes, 1440);
}

#[test]
fn automated_author_issues_no_request() {
    let cfg = test_config();
    let ev = event(true, 10, "Bug: something");
    assert!(handle_message(&cfg, &ev).is_none());
}

#[test]
fn channel_off_the_allow_list_issues_no_request() {
    let cfg = test_config();
    let ev = event(false, 99, "Bug: something");
    assert!(handle_message(&cfg, &ev).is_none());
}

#[test]
fn qualifying_event_issues_one_aimed_request() {
    let cfg = test_config();
    let ev = event(false, 20, "Bug: app crashes on launch");
    let req = handle_message(&cfg, &ev).unwrap();
    assert_eq!(req.channel_id, 20);
    assert_eq!(req.message_id, 777);
    assert_eq!(req.options.name, "Bug".to_string());
    assert_eq!(req.options.kind, ThreadKind::PublicThread);
    assert_eq!(req.options.auto_archive_minutes, 1440);
}

#[test]
fn event_without_title_keeps_the_template_name() {
    let cfg = test_config();
    let ev = event(false, 30, "plain words only");
    let req = handle_message(&cfg, &ev).unwrap();
    assert_eq!(req.options.name, "discussion".to_string());
}

#[test]
fn the_same_event_twice_issues_two_requests() {
    let cfg = test_config();
    let ev = event(false, 10, "Q: is this deduplicated");
    let first = handle_message(&cfg, &ev);
    let second = handle_message(&cfg, &ev);
    assert!(first.is_some());
    assert!(second.is_some());
    assert_eq!(first.unwrap().options.name, second.unwrap().options.name);
}
