use vstd::prelude::*;

use crate::channel_id::ChannelId;
use crate::settings::Settings;
use crate::uni_message::{texts, UniMessage};

verus! {

/// A configured bridge from a Discord channel to a Telegram chat.
#[derive(Debug, Clone, Copy, PartialEq, Eq, Structural)]
pub struct DTBridge {
    pub from_channel_id: u64,
    pub to_channel_id: i64,
}

/// A configured bridge from a Telegram chat to a Discord channel.
#[derive(Debug, Clone, Copy, PartialEq, Eq, Structural)]
pub struct TDBridge {
    pub from_channel_id: i64,
    pub to_channel_id: u64,
}

/// A bridge between two channels, whatever their platforms.
#[derive(Debug, Clone, Copy, PartialEq, Eq, Structural)]
pub struct UniBridge {
    pub from_channel_id: ChannelId,
    pub to_channel_id: ChannelId,
}

/// The platform that a routed message is to be delivered on.
#[derive(Debug, Clone, Copy, PartialEq, Eq, Structural)]
pub enum BridgeTarget {
    Discord,
    Telegram,
    Unknown,
}

/// Routes incoming messages along the configured bridges.
pub struct MessageHandler {
    pub discord_channels: Vec<ChannelId>,
    pub telegram_channels: Vec<ChannelId>,
    pub bridges: Vec<UniBridge>,
}

/// The bridge that a Discord-to-Telegram entry of the settings stands for.
pub open spec fn dt_uni_bridge(b: DTBridge) -> UniBridge {
    UniBridge {
        to_channel_id: ChannelId::I64(b.to_channel_id),
        from_channel_id: ChannelId::U64(b.from_channel_id),
    }
}

/// The bridge that a Telegram-to-Discord entry of the settings stands for.
pub open spec fn td_uni_bridge(b: TDBridge) -> UniBridge {
    UniBridge {
        to_channel_id: ChannelId::U64(b.to_channel_id),
        from_channel_id: ChannelId::I64(b.from_channel_id),
    }
}

/// All bridges of the settings: first the Discord-to-Telegram ones, then the
/// Telegram-to-Discord ones, each list in its own order.
pub open spec fn uni_bridges(dt: Seq<DTBridge>, td: Seq<TDBridge>) -> Seq<UniBridge> {
    dt.map_values(|b: DTBridge| dt_uni_bridge(b)) + td.map_values(|b: TDBridge| td_uni_bridge(b))
}

/// The Discord channels that the settings bridge into.
pub open spec fn discord_targets(td: Seq<TDBridge>) -> Seq<ChannelId> {
    td.map_values(|b: TDBridge| ChannelId::U64(b.to_channel_id))
}

/// The Telegram chats that the settings bridge into.
pub open spec fn telegram_targets(dt: Seq<DTBridge>) -> Seq<ChannelId> {
    dt.map_values(|b: DTBridge| ChannelId::I64(b.to_channel_id))
}

/// The destinations, in bridge order, of the bridges that start at `from`.
pub open spec fn routed_to(bridges: Seq<UniBridge>, from: ChannelId) -> Seq<ChannelId>
    decreases bridges.len(),
{
    if bridges.len() == 0 {
        seq![]
    } else {
        let rest = routed_to(bridges.drop_last(), from);
        if bridges.last().from_channel_id == from {
            rest.push(bridges.last().to_channel_id)
        } else {
            rest
        }
    }
}

/// The bridges of the settings, entry by entry: the `i`-th Discord-to-Telegram
/// entry gives the `i`-th bridge, from its Discord channel to its Telegram chat;
/// the `i`-th Telegram-to-Discord entry gives the bridge after all of those, from
/// its Telegram chat to its Discord channel.
pub proof fn lemma_uni_bridges_entries(dt: Seq<DTBridge>, td: Seq<TDBridge>)
    ensures
        uni_bridges(dt, td).len() == dt.len() + td.len(),
        forall|i: int|
            0 <= i < dt.len() ==> (#[trigger] uni_bridges(dt, td)[i]).from_channel_id
                == ChannelId::U64(dt[i].from_channel_id) && uni_bridges(dt, td)[i].to_channel_id
                == ChannelId::I64(dt[i].to_channel_id),
        forall|i: int|
            0 <= i < td.len() ==> (#[trigger] uni_bridges(dt, td)[dt.len() + i]).from_channel_id
                == ChannelId::I64(td[i].from_channel_id) && uni_bridges(dt, td)[dt.len()
                + i].to_channel_id == ChannelId::U64(td[i].to_channel_id),
{
}

/// Whether `c` occurs in `v`.
pub fn contains_channel(v: &Vec<ChannelId>, c: ChannelId) -> (r: bool)
    ensures
        r == v@.contains(c),
{
    let mut i: usize = 0;
    while i < v.len()
        invariant
            i <= v.len(),
            forall|j: int| 0 <= j < i ==> v@[j] != c,
        decreases v.len() - i,
    {
        if v[i] == c {
            assert(v@[i as int] == c);
            return true;
        }
        i = i + 1;
    }
    false
}

/// Builds the list of bridges from the settings.
pub fn get_uni_bridges(settings: &Settings) -> (r: Vec<UniBridge>)
    ensures
        r@ == uni_bridges(settings.dt_bridges@, settings.td_bridges@),
        r.len() == settings.dt_bridges.len() + settings.td_bridges.len(),
        forall|i: int|
            0 <= i < settings.dt_bridges.len() ==> (#[trigger] r@[i]).from_channel_id
                == ChannelId::U64(settings.dt_bridges@[i].from_channel_id) && r@[i].to_channel_id
                == ChannelId::I64(settings.dt_bridges@[i].to_channel_id),
        forall|i: int|
            0 <= i < settings.td_bridges.len() ==> (#[trigger] r@[settings.dt_bridges.len() + i]).from_channel_id
                == ChannelId::I64(settings.td_bridges@[i].from_channel_id) && r@[settings.dt_bridges.len() + i].to_channel_id
                == ChannelId::U64(settings.td_bridges@[i].to_channel_id),
{
    proof {
        lemma_uni_bridges_entries(settings.dt_bridges@, settings.td_bridges@);
    }
    let mut unibridges: Vec<UniBridge> = Vec::new();
    let dt = &settings.dt_bridges;
    let td = &settings.td_bridges;
    let ghost goal = uni_bridges(dt@, td@);
    let mut i: usize = 0;
    while i < dt.len()
        invariant
            i <= dt.len(),
            goal == uni_bridges(dt@, td@),
            unibridges@ == goal.take(i as int),
        decreases dt.len() - i,
    {
        let b = dt[i];
        unibridges.push(
            UniBridge {
                to_channel_id: ChannelId::I64(b.to_channel_id),
                from_channel_id: ChannelId::U64(b.from_channel_id),
            },
        );
        i = i + 1;
        assert(unibridges@ =~= goal.take(i as int));
    }
    let mut k: usize = 0;
    while k < td.len()
        invariant
            k <= td.len(),
            i == dt.len(),
            goal == uni_bridges(dt@, td@),
            unibridges@ == goal.take(i + k),
        decreases td.len() - k,
    {
        let b = td[k];
        unibridges.push(
            UniBridge {
                to_channel_id: ChannelId::U64(b.to_channel_id),
                from_channel_id: ChannelId::I64(b.from_channel_id),
            },
        );
        k = k + 1;
        assert(unibridges@ =~= goal.take(i + k));
    }
    assert(goal.take(i + k) =~= goal);
    unibridges
}

impl MessageHandler {
    /// The platform on which a message addressed to `to` is delivered: Discord
    /// for a known Discord channel, else Telegram for a known Telegram chat, else
    /// none known.
    pub open spec fn target_of(&self, to: ChannelId) -> BridgeTarget {
        if self.discord_channels@.contains(to) {
            BridgeTarget::Discord
        } else if self.telegram_channels@.contains(to) {
            BridgeTarget::Telegram
        } else {
            BridgeTarget::Unknown
        }
    }

    /// The platform on which a message addressed to `to` is delivered.
    pub fn target(&self, to: ChannelId) -> (t: BridgeTarget)
        ensures
            t == self.target_of(to),
    {
        if contains_channel(&self.discord_channels, to) {
            BridgeTarget::Discord
        } else if contains_channel(&self.telegram_channels, to) {
            BridgeTarget::Telegram
        } else {
            BridgeTarget::Unknown
        }
    }

    /// The handler for the given settings: the Discord channels are the
    /// destinations of the Telegram-to-Discord bridges, the Telegram chats those
    /// of the Discord-to-Telegram bridges.
    pub fn from_settings(settings: &Settings) -> (h: MessageHandler)
        ensures
            h.discord_channels@ == discord_targets(settings.td_bridges@),
            h.telegram_channels@ == telegram_targets(settings.dt_bridges@),
            h.bridges@ == uni_bridges(settings.dt_bridges@, settings.td_bridges@),
            h.discord_channels.len() == settings.td_bridges.len(),
            forall|i: int|
                0 <= i < settings.td_bridges.len() ==> #[trigger] h.discord_channels@[i]
                    == ChannelId::U64(settings.td_bridges@[i].to_channel_id),
            h.telegram_channels.len() == settings.dt_bridges.len(),
            forall|i: int|
                0 <= i < settings.dt_bridges.len() ==> #[trigger] h.telegram_channels@[i]
                    == ChannelId::I64(settings.dt_bridges@[i].to_channel_id),
    {
        let td = &settings.td_bridges;
        let dt = &settings.dt_bridges;
        let mut discord_channels: Vec<ChannelId> = Vec::new();
        let mut i: usize = 0;
        while i < td.len()
            invariant
                i <= td.len(),
                discord_channels@ == discord_targets(td@).take(i as int),
            decreases td.len() - i,
        {
            discord_channels.push(ChannelId::U64(td[i].to_channel_id));
            i = i + 1;
            assert(discord_channels@ =~= discord_targets(td@).take(i as int));
        }
        assert(discord_targets(td@).take(i as int) =~= discord_targets(td@));
        let mut telegram_channels: Vec<ChannelId> = Vec::new();
        let mut k: usize = 0;
        while k < dt.len()
            invariant
                k <= dt.len(),
                telegram_channels@ == telegram_targets(dt@).take(k as int),
            decreases dt.len() - k,
        {
            telegram_channels.push(ChannelId::I64(dt[k].to_channel_id));
            k = k + 1;
            assert(telegram_channels@ =~= telegram_targets(dt@).take(k as int));
        }
        assert(telegram_targets(dt@).take(k as int) =~= telegram_targets(dt@));
        MessageHandler { discord_channels, telegram_channels, bridges: get_uni_bridges(settings) }
    }

    /// Routes a message: for each bridge that starts at the message's channel, in
    /// bridge order, a copy of the message addressed to the bridge's destination,
    /// with the platform it is to be delivered on.
    pub fn handle_message(&self, message: UniMessage) -> (out: Vec<(BridgeTarget, UniMessage)>)
        ensures
            out.len() == routed_to(self.bridges@, message.from_channel_id).len(),
            forall|i: int|
                0 <= i < out.len() ==> {
                    let to = #[trigger] routed_to(self.bridges@, message.from_channel_id)[i];
                    &&& out@[i].0 == self.target_of(to)
                    &&& out@[i].1@ == message@.addressed_to(to)
                },
            forall|i: int|
                0 <= i < out.len() ==> {
                    let m = #[trigger] out@[i].1;
                    &&& m.id@ == message.id@
                    &&& m.message@ == message.message@
                    &&& m.author@ == message.author@
                    &&& m.from_channel_id == message.from_channel_id
                    &&& m.to_channel_id == Some(
                        routed_to(self.bridges@, message.from_channel_id)[i],
                    )
                    &&& texts(m.attachment_urls@) == texts(message.attachment_urls@)
                },
    {
        let ghost from = message.from_channel_id;
        let mut out: Vec<(BridgeTarget, UniMessage)> = Vec::new();
        let mut i: usize = 0;
        while i < self.bridges.len()
            invariant
                i <= self.bridges.len(),
                from == message.from_channel_id,
                out.len() == routed_to(self.bridges@.take(i as int), from).len(),
                forall|j: int|
                    0 <= j < out.len() ==> {
                        let to = #[trigger] routed_to(self.bridges@.take(i as int), from)[j];
                        &&& out@[j].0 == self.target_of(to)
                        &&& out@[j].1@ == message@.addressed_to(to)
                    },
            decreases self.bridges.len() - i,
        {
            let bridge = self.bridges[i];
            let ghost prev = routed_to(self.bridges@.take(i as int), from);
            assert(self.bridges@.take(i + 1).drop_last() =~= self.bridges@.take(i as int));
            if bridge.from_channel_id == message.from_channel_id {
                let m = message.addressed_copy(bridge.to_channel_id);
                let t = self.target(bridge.to_channel_id);
                out.push((t, m));
            }
            i = i + 1;
            assert(routed_to(self.bridges@.take(i as int), from) == if bridge.from_channel_id
                == from {
                prev.push(bridge.to_channel_id)
            } else {
                prev
            });
        }
        assert(self.bridges@.take(i as int) =~= self.bridges@);
        assert forall|j: int| 0 <= j < out.len() implies {
            let m = #[trigger] out@[j].1;
            &&& m.id@ == message.id@
            &&& m.message@ == message.message@
            &&& m.author@ == message.author@
            &&& m.from_channel_id == message.from_channel_id
            &&& m.to_channel_id == Some(routed_to(self.bridges@, message.from_channel_id)[j])
            &&& texts(m.attachment_urls@) == texts(message.attachment_urls@)
        } by {
            let to = routed_to(self.bridges@, from)[j];
            assert(out@[j].1@ == message@.addressed_to(to));
        }
        out
    }
}

/// Every destination that a channel is routed to is the destination of a bridge
/// that starts at that channel.
pub proof fn lemma_routed_comes_from_bridge(bridges: Seq<UniBridge>, from: ChannelId, k: int)
    requires
        0 <= k < routed_to(bridges, from).len(),
    ensures
        exists|j: int|
            0 <= j < bridges.len() && (#[trigger] bridges[j]).from_channel_id == from
                && bridges[j].to_channel_id == routed_to(bridges, from)[k],
    decreases bridges.len(),
{
    let rest = routed_to(bridges.drop_last(), from);
    if k < rest.len() {
        lemma_routed_comes_from_bridge(bridges.drop_last(), from, k);
        let j = choose|j: int|
            0 <= j < bridges.drop_last().len() && (#[trigger] bridges.drop_last()[j]).from_channel_id
                == from && bridges.drop_last()[j].to_channel_id == rest[k];
        assert(bridges[j] == bridges.drop_last()[j]);
    } else {
        assert(bridges[bridges.len() - 1] == bridges.last());
    }
}

/// Every bridge that starts at a channel is used when routing a message from it:
/// its destination is among the channel's destinations.
pub proof fn lemma_every_bridge_is_used(bridges: Seq<UniBridge>, j: int)
    requires
        0 <= j < bridges.len(),
    ensures
        routed_to(bridges, bridges[j].from_channel_id).contains(bridges[j].to_channel_id),
    decreases bridges.len(),
{
    let from = bridges[j].from_channel_id;
    let rest = routed_to(bridges.drop_last(), from);
    if j < bridges.len() - 1 {
        assert(bridges.drop_last()[j] == bridges[j]);
        lemma_every_bridge_is_used(bridges.drop_last(), j);
        let k = choose|k: int| 0 <= k < rest.len() && rest[k] == bridges[j].to_channel_id;
        assert(routed_to(bridges, from)[k] == rest[k]);
    } else {
        assert(bridges.last() == bridges[j]);
        let r = routed_to(bridges, from);
        assert(r[r.len() - 1] == bridges[j].to_channel_id);
    }
}

/// A message from a channel that no bridge starts at is routed nowhere.
pub proof fn lemma_unbridged_channel_routes_nowhere(bridges: Seq<UniBridge>, from: ChannelId)
    requires
        forall|j: int| 0 <= j < bridges.len() ==> (#[trigger] bridges[j]).from_channel_id != from,
    ensures
        routed_to(bridges, from).len() == 0,
{
    if routed_to(bridges, from).len() > 0 {
        lemma_routed_comes_from_bridge(bridges, from, 0);
    }
}

/// With a handler built from settings, every routed message has a known
/// platform: Discord exactly when its destination is a Discord (unsigned) channel
/// id, Telegram otherwise.
pub proof fn lemma_settings_route_to_known_platform(
    settings: Settings,
    handler: MessageHandler,
    from: ChannelId,
    k: int,
)
    requires
        handler.discord_channels@ == discord_targets(settings.td_bridges@),
        handler.telegram_channels@ == telegram_targets(settings.dt_bridges@),
        handler.bridges@ == uni_bridges(settings.dt_bridges@, settings.td_bridges@),
        0 <= k < routed_to(handler.bridges@, from).len(),
    ensures
        ({
            let to = routed_to(handler.bridges@, from)[k];
            &&& handler.target_of(to) != BridgeTarget::Unknown
            &&& (handler.target_of(to) == BridgeTarget::Discord <==> to is U64)
            &&& (handler.target_of(to) == BridgeTarget::Telegram <==> to is I64)
        }),
{
    let dt = settings.dt_bridges@;
    let td = settings.td_bridges@;
    let bridges = handler.bridges@;
    let to = routed_to(bridges, from)[k];
    lemma_routed_comes_from_bridge(bridges, from, k);
    let j = choose|j: int|
        0 <= j < bridges.len() && (#[trigger] bridges[j]).from_channel_id == from
            && bridges[j].to_channel_id == to;
    let discord = handler.discord_channels@;
    let telegram = handler.telegram_channels@;
    assert forall|i: int| 0 <= i < discord.len() implies (#[trigger] discord[i]) is U64 by {}
    if j < dt.len() {
        assert(bridges[j] == dt_uni_bridge(dt[j]));
        assert(telegram[j] == to);
        assert(telegram.contains(to));
        assert(!discord.contains(to));
    } else {
        let i = j - dt.len();
        assert(bridges[j] == td_uni_bridge(td[i]));
        assert(discord[i] == to);
        assert(discord.contains(to));
    }
}

/// With a handler built from settings, a message from the Discord channel of a
/// Discord-to-Telegram entry is routed to that entry's Telegram chat, and a
/// message from the Telegram chat of a Telegram-to-Discord entry is routed to
/// that entry's Discord channel.
pub proof fn lemma_settings_entries_are_routed(settings: Settings, handler: MessageHandler)
    requires
        handler.bridges@ == uni_bridges(settings.dt_bridges@, settings.td_bridges@),
    ensures
        forall|i: int|
            0 <= i < settings.dt_bridges.len() ==> #[trigger] routed_to(
                handler.bridges@,
                ChannelId::U64(settings.dt_bridges@[i].from_channel_id),
            ).contains(ChannelId::I64(settings.dt_bridges@[i].to_channel_id)),
        forall|i: int|
            0 <= i < settings.td_bridges.len() ==> #[trigger] routed_to(
                handler.bridges@,
                ChannelId::I64(settings.td_bridges@[i].from_channel_id),
            ).contains(ChannelId::U64(settings.td_bridges@[i].to_channel_id)),
{
    let dt = settings.dt_bridges@;
    let td = settings.td_bridges@;
    lemma_uni_bridges_entries(dt, td);
    assert forall|i: int| 0 <= i < dt.len() implies #[trigger] routed_to(
        handler.bridges@,
        ChannelId::U64(dt[i].from_channel_id),
    ).contains(ChannelId::I64(dt[i].to_channel_id)) by {
        assert(handler.bridges@[i] == uni_bridges(dt, td)[i]);
        lemma_every_bridge_is_used(handler.bridges@, i);
    }
    assert forall|i: int| 0 <= i < td.len() implies #[trigger] routed_to(
        handler.bridges@,
        ChannelId::I64(td[i].from_channel_id),
    ).contains(ChannelId::U64(td[i].to_channel_id)) by {
        assert(handler.bridges@[dt.len() + i] == uni_bridges(dt, td)[dt.len() + i]);
        lemma_every_bridge_is_used(handler.bridges@, dt.len() + i);
    }
}

/// Routing distributes over a list of bridges split in two: the destinations from
/// the first part, then those from the second.
pub proof fn lemma_routed_to_concat(a: Seq<UniBridge>, b: Seq<UniBridge>, from: ChannelId)
    ensures
        routed_to(a + b, from) == routed_to(a, from) + routed_to(b, from),
    decreases b.len(),
{
    if b.len() == 0 {
        assert(a + b =~= a);
        assert(routed_to(a, from) + routed_to(b, from) =~= routed_to(a, from));
    } else {
        lemma_routed_to_concat(a, b.drop_last(), from);
        assert((a + b).drop_last() =~= a + b.drop_last());
        assert((a + b).last() == b.last());
        assert(routed_to(a + b, from) =~= routed_to(a, from) + routed_to(b, from));
    }
}

/// A single bridge routes a message to its destination exactly when the message
/// comes from the bridge's source.
pub proof fn lemma_routed_to_single(b: UniBridge, from: ChannelId)
    ensures
        routed_to(seq![b], from) == if b.from_channel_id == from {
            seq![b.to_channel_id]
        } else {
            Seq::<ChannelId>::empty()
        },
{
    assert(seq![b].drop_last() =~= Seq::<UniBridge>::empty());
    assert(seq![b].last() == b);
    assert(routed_to(Seq::<UniBridge>::empty(), from) =~= Seq::<ChannelId>::empty());
    assert(routed_to(seq![b], from) =~= if b.from_channel_id == from {
        seq![b.to_channel_id]
    } else {
        Seq::<ChannelId>::empty()
    });
}

/// The platform a destination is delivered on: Discord when it is one of the
/// handler's Discord channels, else Telegram when it is one of its Telegram chats,
/// else none known.
pub proof fn lemma_target_by_membership(handler: MessageHandler, to: ChannelId)
    ensures
        handler.discord_channels@.contains(to) ==> handler.target_of(to) == BridgeTarget::Discord,
        !handler.discord_channels@.contains(to) && handler.telegram_channels@.contains(to)
            ==> handler.target_of(to) == BridgeTarget::Telegram,
        !handler.discord_channels@.contains(to) && !handler.telegram_channels@.contains(to)
            ==> handler.target_of(to) == BridgeTarget::Unknown,
{
}

} // verus!
