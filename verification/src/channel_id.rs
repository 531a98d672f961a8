use vstd::prelude::*;

verus! {

/// The identifier of a chat channel on one of the bridged platforms:
/// Discord channels carry an unsigned id, Telegram chats a signed one.
#[derive(Debug, Clone, Copy, PartialEq, Eq, Structural)]
pub enum ChannelId {
    U64(u64),
    I64(i64),
}

} // verus!
