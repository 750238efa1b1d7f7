use en_2fa_monitor::notifier::{Channel, FieldValue, Notifier, Post};

fn text_field(post: &Post, i: usize) -> (&str, &str) {
    match &post.body[i].value {
        FieldValue::Text(t) => (post.body[i].name.as_str(), t.as_str()),
        FieldValue::Flag(_) => panic!("not a text"),
    }
}

fn notifier(slack: Option<&str>, token: Option<&str>, chat: Option<&str>) -> Notifier {
    Notifier {
        slack_webhook_url: slack.map(|s| s.to_string()),
        telegram_bot_token: token.map(|s| s.to_string()),
        telegram_chat_id: chat.map(|s| s.to_string()),
    }
}

#[test]
fn both_channels_get_the_text() {
    let n = notifier(Some("https://hooks/x"), Some("12:ab"), Some("-7"));
    assert!(n.has_channel());
    let posts = n.posts("hello");
    assert_eq!(posts.len(), 2);
    assert_eq!(posts[0].channel, Channel::Slack);
    assert_eq!(posts[1].channel, Channel::Telegram);
    assert_eq!(posts[0].url, "https://hooks/x");
    assert_eq!(posts[0].body.len(), 2);
    assert_eq!(text_field(&posts[0], 0), ("text", "hello"));
    assert_eq!(posts[0].body[1].name, "link_names");
    assert!(matches!(posts[0].body[1].value, FieldValue::Flag(true)));
    assert_eq!(posts[1].url, "https://api.telegram.org/bot12:ab/sendMessage");
    assert_eq!(posts[1].body.len(), 2);
    assert_eq!(text_field(&posts[1], 0), ("chat_id", "-7"));
    assert_eq!(text_field(&posts[1], 1), ("text", "hello"));
}

#[test]
fn telegram_needs_both_its_settings() {
    for n in [
        notifier(None, Some("t"), None),
        notifier(None, None, Some("c")),
        notifier(None, None, None),
    ] {
        assert!(!n.has_channel());
        assert_eq!(n.posts("x").len(), 0);
    }
    let n = notifier(None, Some("t"), Some("c"));
    assert!(n.has_channel());
    assert_eq!(n.posts("x").len(), 1);
    let n = notifier(Some("s"), Some("t"), None);
    assert!(n.has_channel());
    assert_eq!(n.posts("x").len(), 1);
}
