use blabla::channel_id::ChannelId;
use blabla::discord::{discord_outgoing, discord_uni_message, parse_message, Mention};
use blabla::uni_message::UniMessage;

fn mention(id: u64, name: &str) -> Mention {
    Mention { id, name: name.to_string() }
}

#[test]
fn mentions_become_names() {
    let ms = vec![mention(123, "alice"), mention(45, "bob")];
    assert_eq!(parse_message("hi <@123> and <@!45>!", &ms), "hi alice and bob!");
    assert_eq!(parse_message("<@123><@123> <@!123>", &ms), "alicealice alice");
}

#[test]
fn text_without_mentions_is_unchanged() {
    assert_eq!(parse_message("just text", &vec![]), "just text");
    assert_eq!(parse_message("<@99> stays", &vec![mention(1, "x")]), "<@99> stays");
    assert_eq!(parse_message("", &vec![mention(1, "x")]), "");
}

#[test]
fn plain_text_is_untouched_whoever_is_mentioned() {
    let ms = vec![mention(1, "<@2>"), mention(2, "z")];
    assert_eq!(parse_message("no angle brackets @1 here", &ms), "no angle brackets @1 here");
}

#[test]
fn replacements_apply_in_mention_order() {
    // The first user's name holds a mention of the second, which is then replaced too.
    let ms = vec![mention(1, "<@2>"), mention(2, "z")];
    assert_eq!(parse_message("<@1>", &ms), "z");
    // In the other order the inserted mention stays.
    let ms = vec![mention(2, "z"), mention(1, "<@2>")];
    assert_eq!(parse_message("<@1>", &ms), "<@2>");
}

#[test]
fn discord_message_in_shared_form() {
    let m = discord_uni_message(
        998877,
        "yo <@5>",
        &vec![mention(5, "eve")],
        "dan".to_string(),
        4242,
        vec!["https://cdn/a.png".to_string()],
    );
    assert_eq!(m.id, "998877");
    assert_eq!(m.message, "yo eve");
    assert_eq!(m.author, "dan");
    assert_eq!(m.from_channel_id, ChannelId::U64(4242));
    assert_eq!(m.to_channel_id, None);
    assert_eq!(m.attachment_urls, vec!["https://cdn/a.png".to_string()]);
}

fn addressed(to: Option<ChannelId>) -> UniMessage {
    UniMessage {
        id: "9".to_string(),
        message: "text *as is*".to_string(),
        author: "a".to_string(),
        from_channel_id: ChannelId::I64(-3),
        to_channel_id: to,
        attachment_urls: vec![],
    }
}

#[test]
fn outgoing_to_discord() {
    assert_eq!(
        discord_outgoing(&addressed(Some(ChannelId::U64(77)))),
        Some((77, "text *as is*".to_string()))
    );
    assert_eq!(discord_outgoing(&addressed(Some(ChannelId::I64(77)))), None);
    assert_eq!(discord_outgoing(&addressed(None)), None);
}
