//! The logic of a bot that bridges chat messages between Discord channels and
//! Telegram chats: the shared message form, the routing of a message along the
//! configured bridges, and the rendering of messages for each platform.
pub mod channel_id;
pub mod discord;
pub mod message_handler;
pub mod settings;
pub mod telegram;
pub mod text;
pub mod uni_message;
