use blabla::channel_id::ChannelId;
use blabla::telegram::{
    create_uni_message, escape_markdown_v2, format_message, get_messages, is_special_char,
    telegram_outgoing, ParseMode, TelegramSendError,
};
use blabla::uni_message::UniMessage;

fn message(to: Option<ChannelId>, urls: Vec<&str>) -> UniMessage {
    UniMessage {
        id: "1".to_string(),
        message: "Hello, world!".to_string(),
        author: "alice_b".to_string(),
        from_channel_id: ChannelId::U64(10),
        to_channel_id: to,
        attachment_urls: urls.into_iter().map(|u| u.to_string()).collect(),
    }
}

#[test]
fn format_puts_author_in_bold_before_the_text() {
    assert_eq!(format_message("hi there", "bob"), "*bob*:\nhi there");
    assert_eq!(format_message("", ""), "**:\n");
}

#[test]
fn escape_puts_backslash_before_each_reserved_character() {
    assert_eq!(escape_markdown_v2("a.b"), "a\\.b");
    assert_eq!(
        escape_markdown_v2("_[]()~`>#+-=|{}.!\\"),
        "\\_\\[\\]\\(\\)\\~\\`\\>\\#\\+\\-\\=\\|\\{\\}\\.\\!\\\\"
    );
}

#[test]
fn escape_leaves_ordinary_characters() {
    assert_eq!(escape_markdown_v2("plain text *bold* : ok"), "plain text *bold* : ok");
    assert_eq!(escape_markdown_v2("ünïcödé ✓"), "ünïcödé ✓");
    assert_eq!(escape_markdown_v2("\""), "\"");
    assert_eq!(escape_markdown_v2("say \"hi\"."), "say \"hi\"\\.");
    assert_eq!(escape_markdown_v2(""), "");
}

#[test]
fn special_characters() {
    for c in "_[]()~`>#+-=|{}.!\\".chars() {
        assert!(is_special_char(c));
    }
    for c in "*abc :\n@<\"".chars() {
        assert!(!is_special_char(c));
    }
}

#[test]
fn escape_of_concatenation_is_concatenation_of_escapes() {
    let a = "v1.2 (beta)";
    let b = "_done_!";
    let joined = format!("{}{}", a, b);
    assert_eq!(
        escape_markdown_v2(&joined),
        format!("{}{}", escape_markdown_v2(a), escape_markdown_v2(b))
    );
}

#[test]
fn different_texts_escape_differently() {
    assert_ne!(escape_markdown_v2("a\\.b"), escape_markdown_v2("a.b"));
    assert_ne!(escape_markdown_v2("\\"), escape_markdown_v2("\\\\"));
}

#[test]
fn messages_for_text_and_attachments() {
    let m = message(Some(ChannelId::I64(-100)), vec!["https://x.org/a.png", "http://y"]);
    let parts = get_messages(&m);
    assert_eq!(parts.len(), 3);
    assert_eq!(parts[0].0, "*alice\\_b*:\nHello, world\\!");
    assert_eq!(parts[1].0, "*alice\\_b*:\nhttps://x\\.org/a\\.png");
    assert_eq!(parts[2].0, "*alice\\_b*:\nhttp://y");
    assert!(parts.iter().all(|p| p.1 == ParseMode::MarkdownV2));
}

#[test]
fn outgoing_to_a_telegram_chat() {
    let m = message(Some(ChannelId::I64(-100)), vec![]);
    let (chat, parts) = telegram_outgoing(&m).unwrap();
    assert_eq!(chat, -100);
    assert_eq!(parts.len(), 1);
    assert_eq!(parts[0].0, "*alice\\_b*:\nHello, world\\!");
}

#[test]
fn outgoing_without_target() {
    let m = message(None, vec![]);
    assert_eq!(telegram_outgoing(&m).unwrap_err(), TelegramSendError::TargetNotSpecified);
}

#[test]
fn outgoing_to_a_discord_channel() {
    let m = message(Some(ChannelId::U64(5)), vec!["u"]);
    assert_eq!(telegram_outgoing(&m).unwrap_err(), TelegramSendError::NotATelegramChat);
}

#[test]
fn telegram_message_in_shared_form() {
    let m = create_uni_message(-42, -1001, "hi", "carol");
    assert_eq!(m.id, "-42");
    assert_eq!(m.message, "hi");
    assert_eq!(m.author, "carol");
    assert_eq!(m.from_channel_id, ChannelId::I64(-1001));
    assert_eq!(m.to_channel_id, None);
    assert!(m.attachment_urls.is_empty());
    assert_eq!(create_uni_message(305, 7, "", "d").id, "305");
}
