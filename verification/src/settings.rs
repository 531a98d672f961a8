use vstd::prelude::*;

use crate::message_handler::{DTBridge, TDBridge};

verus! {

/// The bot tokens and the bridges between Discord channels and Telegram chats.
pub struct Settings {
    pub telegram_bot_token: String,
    pub discord_bot_token: String,
    pub dt_bridges: Vec<DTBridge>,
    pub td_bridges: Vec<TDBridge>,
}

} // verus!
