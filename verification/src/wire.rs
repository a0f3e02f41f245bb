//! What the world tells its sessions: the messages a session can be sent, and the bounded
//! queue in which they wait for it.

use vstd::prelude::*;

use crate::Position;

verus! {

/// How many messages may wait for one session. A client that falls further behind is
/// treated as gone instead of holding up the game or growing memory without bound.
pub const PUSH_CAPACITY: usize = 256;

/// How a creature looks.
#[derive(Debug, Clone, Copy, PartialEq, Eq, Structural)]
pub struct Outfit {
    pub look_type: u16,
    pub head: u8,
    pub body: u8,
    pub legs: u8,
    pub feet: u8,
    pub addons: u8,
    pub mount: u16,
}

/// An item as the client draws it.
#[derive(Debug, Clone, Copy, PartialEq, Eq, Structural)]
pub struct WireItem {
    pub client_id: u16,
    /// Stack count or fluid type, for the items that carry one.
    pub subtype: Option<u8>,
    pub animated: bool,
}

/// A creature as one session is shown it. `known` chooses the short form, which refers to
/// a creature the client has already been told about.
#[derive(Debug, PartialEq, Eq)]
pub struct CreatureThing {
    pub known: bool,
    pub id: u32,
    pub name: String,
    pub health_percent: u8,
    pub direction: u8,
    pub outfit: Outfit,
    pub speed: u16,
    pub creature_type: u8,
    pub walkthrough: u8,
}

#[verifier::ext_equal]
pub ghost struct CreatureModel {
    pub known: bool,
    pub id: u32,
    pub name: Seq<char>,
    pub health_percent: u8,
    pub direction: u8,
    pub outfit: Outfit,
    pub speed: u16,
    pub creature_type: u8,
    pub walkthrough: u8,
}

impl View for CreatureThing {
    type V = CreatureModel;

    open spec fn view(&self) -> CreatureModel {
        CreatureModel {
            known: self.known,
            id: self.id,
            name: self.name@,
            health_percent: self.health_percent,
            direction: self.direction,
            outfit: self.outfit,
            speed: self.speed,
            creature_type: self.creature_type,
            walkthrough: self.walkthrough,
        }
    }
}

/// A creature together with the tile it stands on.
#[derive(Debug, PartialEq, Eq)]
pub struct PlacedCreature {
    pub position: Position,
    pub creature: CreatureThing,
}

#[verifier::ext_equal]
pub ghost struct PlacedModel {
    pub position: Position,
    pub creature: CreatureModel,
}

impl View for PlacedCreature {
    type V = PlacedModel;

    open spec fn view(&self) -> PlacedModel {
        PlacedModel { position: self.position, creature: self.creature@ }
    }
}

/// A visual effect on a tile.
#[derive(Debug, Clone, Copy, PartialEq, Eq, Structural)]
pub enum Effect {
    DrawBlood,
    Teleport,
}

/// How loudly something is said.
#[derive(Debug, Clone, Copy, PartialEq, Eq, Structural)]
pub enum SpeakType {
    Say,
    Whisper,
    Yell,
}

/// What a hit is to the session that is told of it.
#[derive(Debug, Clone, Copy, PartialEq, Eq, Structural)]
pub enum DamageRole {
    Dealt,
    Received,
    Others,
}

/// The numbers of a player's own status display.
#[derive(Debug, Clone, Copy, PartialEq, Eq, Structural)]
pub struct Stats {
    pub health: u16,
    pub max_health: u16,
    pub free_capacity: u32,
    pub total_capacity: u32,
    pub experience: u64,
    pub level: u16,
    pub level_percent: u8,
    pub mana: u16,
    pub max_mana: u16,
    pub magic_level: u8,
    pub soul: u8,
    pub stamina_minutes: u16,
    pub base_speed: u16,
}

impl Stats {
    /// The display of a player without progression: only health and speed vary.
    pub open spec fn of(health: u32, max_health: u32, speed: u16) -> Stats {
        Stats {
            health: health as u16,
            max_health: max_health as u16,
            free_capacity: 40_000,
            total_capacity: 40_000,
            experience: 0,
            level: 1,
            level_percent: 0,
            mana: 0,
            max_mana: 0,
            magic_level: 0,
            soul: 100,
            stamina_minutes: 2520,
            base_speed: speed,
        }
    }

    /// The display of a player with these hit points and this speed. Hit points are cut to
    /// the 16 bits that the display has for them.
    pub fn new(health: u32, max_health: u32, speed: u16) -> (s: Stats)
        ensures
            s == Stats::of(health, max_health, speed),
    {
        Stats {
            health: health as u16,
            max_health: max_health as u16,
            free_capacity: 40_000,
            total_capacity: 40_000,
            experience: 0,
            level: 1,
            level_percent: 0,
            mana: 0,
            max_mana: 0,
            magic_level: 0,
            soul: 100,
            stamina_minutes: 2520,
            base_speed: speed,
        }
    }
}

/// An outfit that a player may choose.
#[derive(Debug, Clone, Copy, PartialEq, Eq)]
pub struct AvailableOutfit {
    pub look_type: u16,
    pub name: &'static str,
    pub addons: u8,
}

/// One message to a session.
#[derive(Debug, PartialEq, Eq)]
pub enum Packet {
    AddTileCreature { position: Position, stackpos: u8, creature: CreatureThing },
    RemoveCreature { id: u32 },
    RemoveTileThing { position: Position, stackpos: u8 },
    CreatureMove { id: u32, to: Position },
    CreatureTurn { id: u32, direction: u8 },
    CancelWalk { direction: u8 },
    /// The mover's own view after a step: the revealed slices, with the creatures in range.
    WalkUpdate { id: u32, from: Position, to: Position, others: Vec<PlacedCreature> },
    MagicEffect { position: Position, effect: Effect },
    CreatureSay {
        statement: u32,
        name: String,
        level: u16,
        speak_type: SpeakType,
        position: Position,
        text: Vec<u8>,
    },
    TextMessage { mode: u8, text: Vec<u8> },
    CreatureHealth { id: u32, health: u32, max_health: u32 },
    Stats { stats: Stats },
    DamageText { role: DamageRole, position: Position, value: u32, text: Vec<u8> },
    DeathWindow,
    CreatureOutfit { id: u32, outfit: Outfit },
    OutfitWindow { outfit: Outfit, available: Vec<AvailableOutfit> },
    AddTileItem { position: Position, stackpos: u8, item: WireItem },
    UpdateTileItem { position: Position, stackpos: u8, item: WireItem },
    InventorySet { slot: u8, item: WireItem },
    InventoryEmpty { slot: u8 },
    OpenContainer {
        cid: u8,
        bag: WireItem,
        name: String,
        capacity: u8,
        has_parent: bool,
        items: Vec<WireItem>,
    },
    CloseContainer { cid: u8 },
    AddContainerItem { cid: u8, index: u16, item: WireItem },
    RemoveContainerItem { cid: u8, index: u16 },
}

#[verifier::ext_equal]
pub ghost enum PacketModel {
    AddTileCreature { position: Position, stackpos: u8, creature: CreatureModel },
    RemoveCreature { id: u32 },
    RemoveTileThing { position: Position, stackpos: u8 },
    CreatureMove { id: u32, to: Position },
    CreatureTurn { id: u32, direction: u8 },
    CancelWalk { direction: u8 },
    WalkUpdate { id: u32, from: Position, to: Position, others: Seq<PlacedModel> },
    MagicEffect { position: Position, effect: Effect },
    CreatureSay {
        statement: u32,
        name: Seq<char>,
        level: u16,
        speak_type: SpeakType,
        position: Position,
        text: Seq<u8>,
    },
    TextMessage { mode: u8, text: Seq<u8> },
    CreatureHealth { id: u32, health: u32, max_health: u32 },
    Stats { stats: Stats },
    DamageText { role: DamageRole, position: Position, value: u32, text: Seq<u8> },
    DeathWindow,
    CreatureOutfit { id: u32, outfit: Outfit },
    OutfitWindow { outfit: Outfit, available: Seq<AvailableOutfit> },
    AddTileItem { position: Position, stackpos: u8, item: WireItem },
    UpdateTileItem { position: Position, stackpos: u8, item: WireItem },
    InventorySet { slot: u8, item: WireItem },
    InventoryEmpty { slot: u8 },
    OpenContainer {
        cid: u8,
        bag: WireItem,
        name: Seq<char>,
        capacity: u8,
        has_parent: bool,
        items: Seq<WireItem>,
    },
    CloseContainer { cid: u8 },
    AddContainerItem { cid: u8, index: u16, item: WireItem },
    RemoveContainerItem { cid: u8, index: u16 },
}

/// A sequence of placed creatures, each by its view.
pub open spec fn placed_view(s: Seq<PlacedCreature>) -> Seq<PlacedModel> {
    s.map_values(|c: PlacedCreature| c@)
}

impl View for Packet {
    type V = PacketModel;

    open spec fn view(&self) -> PacketModel {
        match *self {
            Packet::AddTileCreature { position, stackpos, creature } =>
                PacketModel::AddTileCreature { position, stackpos, creature: creature@ },
            Packet::RemoveCreature { id } => PacketModel::RemoveCreature { id },
            Packet::RemoveTileThing { position, stackpos } => PacketModel::RemoveTileThing {
                position,
                stackpos,
            },
            Packet::CreatureMove { id, to } => PacketModel::CreatureMove { id, to },
            Packet::CreatureTurn { id, direction } => PacketModel::CreatureTurn { id, direction },
            Packet::CancelWalk { direction } => PacketModel::CancelWalk { direction },
            Packet::WalkUpdate { id, from, to, others } => PacketModel::WalkUpdate {
                id,
                from,
                to,
                others: placed_view(others@),
            },
            Packet::MagicEffect { position, effect } => PacketModel::MagicEffect {
                position,
                effect,
            },
            Packet::CreatureSay { statement, name, level, speak_type, position, text } =>
                PacketModel::CreatureSay {
                    statement,
                    name: name@,
                    level,
                    speak_type,
                    position,
                    text: text@,
                },
            Packet::TextMessage { mode, text } => PacketModel::TextMessage { mode, text: text@ },
            Packet::CreatureHealth { id, health, max_health } => PacketModel::CreatureHealth {
                id,
                health,
                max_health,
            },
            Packet::Stats { stats } => PacketModel::Stats { stats },
            Packet::DamageText { role, position, value, text } => PacketModel::DamageText {
                role,
                position,
                value,
                text: text@,
            },
            Packet::DeathWindow => PacketModel::DeathWindow,
            Packet::CreatureOutfit { id, outfit } => PacketModel::CreatureOutfit { id, outfit },
            Packet::OutfitWindow { outfit, available } => PacketModel::OutfitWindow {
                outfit,
                available: available@,
            },
            Packet::AddTileItem { position, stackpos, item } => PacketModel::AddTileItem {
                position,
                stackpos,
                item,
            },
            Packet::UpdateTileItem { position, stackpos, item } => PacketModel::UpdateTileItem {
                position,
                stackpos,
                item,
            },
            Packet::InventorySet { slot, item } => PacketModel::InventorySet { slot, item },
            Packet::InventoryEmpty { slot } => PacketModel::InventoryEmpty { slot },
            Packet::OpenContainer { cid, bag, name, capacity, has_parent, items } =>
                PacketModel::OpenContainer {
                    cid,
                    bag,
                    name: name@,
                    capacity,
                    has_parent,
                    items: items@,
                },
            Packet::CloseContainer { cid } => PacketModel::CloseContainer { cid },
            Packet::AddContainerItem { cid, index, item } => PacketModel::AddContainerItem {
                cid,
                index,
                item,
            },
            Packet::RemoveContainerItem { cid, index } => PacketModel::RemoveContainerItem {
                cid,
                index,
            },
        }
    }
}

fn copy_bytes(v: &Vec<u8>) -> (r: Vec<u8>)
    ensures
        r@ == v@,
{
    let mut r: Vec<u8> = Vec::new();
    let mut i: usize = 0;
    while i < v.len()
        invariant
            i <= v@.len(),
            r@ == v@.take(i as int),
        decreases v@.len() - i,
    {
        r.push(v[i]);
        assert(v@.take(i + 1) =~= v@.take(i as int).push(v@[i as int]));
        i = i + 1;
    }
    assert(v@.take(v@.len() as int) =~= v@);
    r
}

fn copy_items(v: &Vec<WireItem>) -> (r: Vec<WireItem>)
    ensures
        r@ == v@,
{
    let mut r: Vec<WireItem> = Vec::new();
    let mut i: usize = 0;
    while i < v.len()
        invariant
            i <= v@.len(),
            r@ == v@.take(i as int),
        decreases v@.len() - i,
    {
        r.push(v[i]);
        assert(v@.take(i + 1) =~= v@.take(i as int).push(v@[i as int]));
        i = i + 1;
    }
    assert(v@.take(v@.len() as int) =~= v@);
    r
}

fn copy_outfits(v: &Vec<AvailableOutfit>) -> (r: Vec<AvailableOutfit>)
    ensures
        r@ == v@,
{
    let mut r: Vec<AvailableOutfit> = Vec::new();
    let mut i: usize = 0;
    while i < v.len()
        invariant
            i <= v@.len(),
            r@ == v@.take(i as int),
        decreases v@.len() - i,
    {
        r.push(v[i]);
        assert(v@.take(i + 1) =~= v@.take(i as int).push(v@[i as int]));
        i = i + 1;
    }
    assert(v@.take(v@.len() as int) =~= v@);
    r
}

impl CreatureThing {
    fn copy(&self) -> (r: CreatureThing)
        ensures
            r@ == self@,
    {
        CreatureThing {
            known: self.known,
            id: self.id,
            name: self.name.clone(),
            health_percent: self.health_percent,
            direction: self.direction,
            outfit: self.outfit,
            speed: self.speed,
            creature_type: self.creature_type,
            walkthrough: self.walkthrough,
        }
    }
}

fn copy_placed(v: &Vec<PlacedCreature>) -> (r: Vec<PlacedCreature>)
    ensures
        placed_view(r@) == placed_view(v@),
{
    let mut r: Vec<PlacedCreature> = Vec::new();
    let mut i: usize = 0;
    while i < v.len()
        invariant
            i <= v@.len(),
            r@.len() == i,
            forall|j: int| 0 <= j < i ==> (#[trigger] r@[j])@ == v@[j]@,
        decreases v@.len() - i,
    {
        r.push(PlacedCreature { position: v[i].position, creature: v[i].creature.copy() });
        i = i + 1;
    }
    assert(placed_view(r@) =~= placed_view(v@));
    r
}

impl Packet {
    /// The same message once more.
    pub fn copy(&self) -> (r: Packet)
        ensures
            r@ == self@,
    {
        match self {
            Packet::AddTileCreature { position, stackpos, creature } => Packet::AddTileCreature {
                position: *position,
                stackpos: *stackpos,
                creature: creature.copy(),
            },
            Packet::RemoveCreature { id } => Packet::RemoveCreature { id: *id },
            Packet::RemoveTileThing { position, stackpos } => Packet::RemoveTileThing {
                position: *position,
                stackpos: *stackpos,
            },
            Packet::CreatureMove { id, to } => Packet::CreatureMove { id: *id, to: *to },
            Packet::CreatureTurn { id, direction } => Packet::CreatureTurn {
                id: *id,
                direction: *direction,
            },
            Packet::CancelWalk { direction } => Packet::CancelWalk { direction: *direction },
            Packet::WalkUpdate { id, from, to, others } => Packet::WalkUpdate {
                id: *id,
                from: *from,
                to: *to,
                others: copy_placed(others),
            },
            Packet::MagicEffect { position, effect } => Packet::MagicEffect {
                position: *position,
                effect: *effect,
            },
            Packet::CreatureSay { statement, name, level, speak_type, position, text } =>
                Packet::CreatureSay {
                    statement: *statement,
                    name: name.clone(),
                    level: *level,
                    speak_type: *speak_type,
                    position: *position,
                    text: copy_bytes(text),
                },
            Packet::TextMessage { mode, text } => Packet::TextMessage {
                mode: *mode,
                text: copy_bytes(text),
            },
            Packet::CreatureHealth { id, health, max_health } => Packet::CreatureHealth {
                id: *id,
                health: *health,
                max_health: *max_health,
            },
            Packet::Stats { stats } => Packet::Stats { stats: *stats },
            Packet::DamageText { role, position, value, text } => Packet::DamageText {
                role: *role,
                position: *position,
                value: *value,
                text: copy_bytes(text),
            },
            Packet::DeathWindow => Packet::DeathWindow,
            Packet::CreatureOutfit { id, outfit } => Packet::CreatureOutfit {
                id: *id,
                outfit: *outfit,
            },
            Packet::OutfitWindow { outfit, available } => Packet::OutfitWindow {
                outfit: *outfit,
                available: copy_outfits(available),
            },
            Packet::AddTileItem { position, stackpos, item } => Packet::AddTileItem {
                position: *position,
                stackpos: *stackpos,
                item: *item,
            },
            Packet::UpdateTileItem { position, stackpos, item } => Packet::UpdateTileItem {
                position: *position,
                stackpos: *stackpos,
                item: *item,
            },
            Packet::InventorySet { slot, item } => Packet::InventorySet {
                slot: *slot,
                item: *item,
            },
            Packet::InventoryEmpty { slot } => Packet::InventoryEmpty { slot: *slot },
            Packet::OpenContainer { cid, bag, name, capacity, has_parent, items } =>
                Packet::OpenContainer {
                    cid: *cid,
                    bag: *bag,
                    name: name.clone(),
                    capacity: *capacity,
                    has_parent: *has_parent,
                    items: copy_items(items),
                },
            Packet::CloseContainer { cid } => Packet::CloseContainer { cid: *cid },
            Packet::AddContainerItem { cid, index, item } => Packet::AddContainerItem {
                cid: *cid,
                index: *index,
                item: *item,
            },
            Packet::RemoveContainerItem { cid, index } => Packet::RemoveContainerItem {
                cid: *cid,
                index: *index,
            },
        }
    }
}

/// A session's queue: what waits in it, how much may wait, and whether the other end is gone.
#[verifier::ext_equal]
pub ghost struct SessionModel {
    pub queue: Seq<PacketModel>,
    pub capacity: usize,
    pub closed: bool,
}

impl SessionModel {
    /// A message can be queued: the other end is there and has room.
    pub open spec fn accepts(self) -> bool {
        !self.closed && self.queue.len() < self.capacity
    }

    pub open spec fn sent(self, p: PacketModel) -> SessionModel {
        SessionModel { queue: self.queue.push(p), ..self }
    }

    /// The message queued where there is room, dropped otherwise.
    pub open spec fn offered(self, p: PacketModel) -> SessionModel {
        if self.accepts() {
            self.sent(p)
        } else {
            self
        }
    }
}

/// The bounded queue of messages that wait for one session.
#[derive(Debug)]
pub struct Session {
    queue: Vec<Packet>,
    capacity: usize,
    closed: bool,
}

/// A sequence of messages, each by its view.
pub open spec fn packets_view(s: Seq<Packet>) -> Seq<PacketModel> {
    s.map_values(|p: Packet| p@)
}

impl View for Session {
    type V = SessionModel;

    closed spec fn view(&self) -> SessionModel {
        SessionModel {
            queue: packets_view(self.queue@),
            capacity: self.capacity,
            closed: self.closed,
        }
    }
}

impl Session {
    /// An open session for which at most `capacity` messages may wait.
    pub fn with_capacity(capacity: usize) -> (s: Session)
        ensures
            s@ == (SessionModel { queue: Seq::empty(), capacity, closed: false }),
    {
        let s = Session { queue: Vec::new(), capacity, closed: false };
        assert(s@.queue =~= Seq::<PacketModel>::empty());
        s
    }

    /// Queue a message. `false`, with nothing queued, when the queue is full or the other
    /// end is gone.
    pub fn try_send(&mut self, packet: Packet) -> (ok: bool)
        ensures
            ok == old(self)@.accepts(),
            final(self)@ == old(self)@.offered(packet@),
    {
        if self.closed || self.queue.len() >= self.capacity {
            return false;
        }
        self.queue.push(packet);
        assert(self@.queue =~= old(self)@.queue.push(packet@));
        true
    }

    /// Take everything that waits.
    pub fn drain(&mut self) -> (packets: Vec<Packet>)
        ensures
            packets_view(packets@) == old(self)@.queue,
            final(self)@ == (SessionModel { queue: Seq::empty(), ..old(self)@ }),
    {
        let mut packets: Vec<Packet> = Vec::new();
        packets.append(&mut self.queue);
        assert(packets_view(packets@) =~= old(self)@.queue);
        assert(self@.queue =~= Seq::<PacketModel>::empty());
        packets
    }

    /// The other end is gone: nothing more is accepted.
    pub fn close(&mut self)
        ensures
            final(self)@ == (SessionModel { closed: true, ..old(self)@ }),
    {
        self.closed = true;
    }
}

/// The queue a session hands the world at login.
pub fn push_channel() -> (s: Session)
    ensures
        s@ == (SessionModel { queue: Seq::empty(), capacity: PUSH_CAPACITY, closed: false }),
{
    Session::with_capacity(PUSH_CAPACITY)
}

} // verus!
