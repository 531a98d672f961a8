use blabla::channel_id::ChannelId;
use blabla::message_handler::{
    get_uni_bridges, BridgeTarget, DTBridge, MessageHandler, TDBridge, UniBridge,
};
use blabla::settings::Settings;
use blabla::uni_message::UniMessage;

fn settings() -> Settings {
    Settings {
        telegram_bot_token: "t".to_string(),
        discord_bot_token: "d".to_string(),
        dt_bridges: vec![
            DTBridge { from_channel_id: 1, to_channel_id: -10 },
            DTBridge { from_channel_id: 1, to_channel_id: -20 },
            DTBridge { from_channel_id: 2, to_channel_id: -10 },
        ],
        td_bridges: vec![TDBridge { from_channel_id: -10, to_channel_id: 1 }],
    }
}

fn from(c: ChannelId) -> UniMessage {
    UniMessage {
        id: "m1".to_string(),
        message: "hello".to_string(),
        author: "someone".to_string(),
        from_channel_id: c,
        to_channel_id: None,
        attachment_urls: vec!["u1".to_string()],
    }
}

#[test]
fn bridges_from_settings_in_order() {
    let b = get_uni_bridges(&settings());
    assert_eq!(
        b,
        vec![
            UniBridge { from_channel_id: ChannelId::U64(1), to_channel_id: ChannelId::I64(-10) },
            UniBridge { from_channel_id: ChannelId::U64(1), to_channel_id: ChannelId::I64(-20) },
            UniBridge { from_channel_id: ChannelId::U64(2), to_channel_id: ChannelId::I64(-10) },
            UniBridge { from_channel_id: ChannelId::I64(-10), to_channel_id: ChannelId::U64(1) },
        ]
    );
}

#[test]
fn handler_channels_from_settings() {
    let h = MessageHandler::from_settings(&settings());
    assert_eq!(h.discord_channels, vec![ChannelId::U64(1)]);
    assert_eq!(h.telegram_channels, vec![ChannelId::I64(-10), ChannelId::I64(-20), ChannelId::I64(-10)]);
    assert_eq!(h.bridges.len(), 4);
}

#[test]
fn discord_message_goes_to_each_bridged_telegram_chat() {
    let h = MessageHandler::from_settings(&settings());
    let out = h.handle_message(from(ChannelId::U64(1)));
    assert_eq!(out.len(), 2);
    assert_eq!(out[0].0, BridgeTarget::Telegram);
    assert_eq!(out[0].1.to_channel_id, Some(ChannelId::I64(-10)));
    assert_eq!(out[1].0, BridgeTarget::Telegram);
    assert_eq!(out[1].1.to_channel_id, Some(ChannelId::I64(-20)));
    for (_, m) in &out {
        assert_eq!(m.id, "m1");
        assert_eq!(m.message, "hello");
        assert_eq!(m.author, "someone");
        assert_eq!(m.from_channel_id, ChannelId::U64(1));
        assert_eq!(m.attachment_urls, vec!["u1".to_string()]);
    }
}

#[test]
fn telegram_message_goes_to_discord() {
    let h = MessageHandler::from_settings(&settings());
    let out = h.handle_message(from(ChannelId::I64(-10)));
    assert_eq!(out.len(), 1);
    assert_eq!(out[0].0, BridgeTarget::Discord);
    assert_eq!(out[0].1.to_channel_id, Some(ChannelId::U64(1)));
}

#[test]
fn unbridged_channel_routes_nowhere() {
    let h = MessageHandler::from_settings(&settings());
    assert!(h.handle_message(from(ChannelId::U64(3))).is_empty());
    // Same number, other platform: no bridge starts there.
    assert!(h.handle_message(from(ChannelId::I64(1))).is_empty());
}

#[test]
fn unknown_destination_and_discord_precedence() {
    let h = MessageHandler {
        discord_channels: vec![ChannelId::U64(5)],
        telegram_channels: vec![ChannelId::U64(5), ChannelId::I64(6)],
        bridges: vec![
            UniBridge { from_channel_id: ChannelId::U64(1), to_channel_id: ChannelId::U64(5) },
            UniBridge { from_channel_id: ChannelId::U64(1), to_channel_id: ChannelId::I64(6) },
            UniBridge { from_channel_id: ChannelId::U64(1), to_channel_id: ChannelId::I64(7) },
            UniBridge { from_channel_id: ChannelId::U64(2), to_channel_id: ChannelId::I64(6) },
        ],
    };
    let out = h.handle_message(from(ChannelId::U64(1)));
    let targets: Vec<BridgeTarget> = out.iter().map(|p| p.0).collect();
    assert_eq!(targets, vec![BridgeTarget::Discord, BridgeTarget::Telegram, BridgeTarget::Unknown]);
    assert_eq!(h.target(ChannelId::I64(7)), BridgeTarget::Unknown);
}

#[test]
fn empty_settings_route_nothing() {
    let s = Settings {
        telegram_bot_token: String::new(),
        discord_bot_token: String::new(),
        dt_bridges: vec![],
        td_bridges: vec![],
    };
    let h = MessageHandler::from_settings(&s);
    assert!(get_uni_bridges(&s).is_empty());
    assert!(h.handle_message(from(ChannelId::U64(1))).is_empty());
}
