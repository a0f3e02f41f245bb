//! The state of players, monsters and their belongings.

use std::collections::HashSet;
use std::collections::VecDeque;
use vstd::prelude::*;

use super::condition::ConditionRegeneration;
use crate::wire::Outfit;
use crate::wire::PlacedCreature;
use crate::wire::Session;
use crate::wire::SessionModel;
use crate::wire::WireItem;
use crate::Direction;
use crate::Position;

verus! {

/// What flows in a creature, which decides the splash a hit leaves.
#[derive(Debug, Clone, Copy, PartialEq, Eq, Structural)]
pub enum RaceType {
    Blood,
    Venom,
    Fire,
    Energy,
    Drown,
    Physical,
    Earth,
    Holy,
    Death,
    Undead,
    Diamond,
}

impl RaceType {
    /// The fluid a hit spills: blood and slime; other races spill nothing.
    pub open spec fn fluid(self) -> Option<u8> {
        match self {
            RaceType::Blood => Some(5u8),
            RaceType::Venom => Some(6u8),
            _ => None,
        }
    }

    /// Fluid subtype for splash items, or `None` for races that produce no splash.
    pub fn fluid_subtype(self) -> (r: Option<u8>)
        ensures
            r == self.fluid(),
    {
        match self {
            RaceType::Blood => Some(5),
            RaceType::Venom => Some(6),
            _ => None,
        }
    }
}

/// One equipped item.
#[derive(Debug, Clone, Copy, PartialEq, Eq, Structural)]
pub struct InvItem {
    pub server_id: u16,
    pub client_id: u16,
    /// Stack count for stackables; `None` for others.
    pub count: Option<u8>,
    pub animated: bool,
}

impl InvItem {
    pub open spec fn drawn(self) -> WireItem {
        WireItem { client_id: self.client_id, subtype: self.count, animated: self.animated }
    }

    /// The item as the client draws it.
    pub fn wire(self) -> (w: WireItem)
        ensures
            w == self.drawn(),
    {
        WireItem { client_id: self.client_id, subtype: self.count, animated: self.animated }
    }
}

/// Where a container was opened from.
#[derive(Debug, Clone, Copy, PartialEq, Eq, Structural)]
pub enum ContainerSource {
    /// An inventory slot 1..=10.
    Slot(u8),
    /// Slot `parent_slot` of the container in window `parent_cid`.
    Nested { parent_cid: u8, parent_slot: u8 },
    /// A container that lies on a tile. Such windows are not saved, and close when the
    /// player walks away.
    Ground(Position),
}

/// A container that a player has opened. Its contents outlive the window: `is_open` only
/// says whether the client shows it.
#[derive(Debug)]
pub struct OpenContainer {
    pub server_id: u16,
    pub client_id: u16,
    pub capacity: u8,
    pub name: String,
    pub items: Vec<InvItem>,
    pub source: ContainerSource,
    pub is_open: bool,
}

#[verifier::ext_equal]
pub ghost struct ContainerModel {
    pub server_id: u16,
    pub client_id: u16,
    pub capacity: u8,
    pub name: Seq<char>,
    pub items: Seq<InvItem>,
    pub source: ContainerSource,
    pub is_open: bool,
}

impl View for OpenContainer {
    type V = ContainerModel;

    open spec fn view(&self) -> ContainerModel {
        ContainerModel {
            server_id: self.server_id,
            client_id: self.client_id,
            capacity: self.capacity,
            name: self.name@,
            items: self.items@,
            source: self.source,
            is_open: self.is_open,
        }
    }
}

/// The view of a window slot.
pub open spec fn window_view(w: Option<OpenContainer>) -> Option<ContainerModel> {
    match w {
        Some(oc) => Some(oc@),
        None => None,
    }
}

/// All window slots, each by its view.
pub open spec fn windows_view(s: Seq<Option<OpenContainer>>) -> Seq<Option<ContainerModel>> {
    s.map_values(|w: Option<OpenContainer>| window_view(w))
}

/// Everything the game keeps of one online player.
#[derive(Debug)]
pub struct PlayerState {
    pub name: String,
    pub position: Position,
    pub direction: Direction,
    pub outfit: Outfit,
    pub session: Session,
    /// The creatures this player's client has been told about.
    pub known: HashSet<u32>,
    pub health: u32,
    pub max_health: u32,
    /// The most that a swing with bare hands deals.
    pub max_melee: i32,
    /// The creature this player attacks.
    pub attacking: Option<u32>,
    pub last_attack_ms: u64,
    /// 0 = female, 1 = male.
    pub sex: u8,
    pub gamemaster: bool,
    pub race: RaceType,
    /// Invisible to everyone but gamemasters.
    pub is_ghost: bool,
    /// The outfit to return to when ghost mode ends.
    pub prev_outfit: Option<Outfit>,
    /// Passes through everything.
    pub noclip: bool,
    pub speed: u16,
    /// Equipment slots 1..=10, indexed 0..=9.
    pub inventory: [Option<InvItem>; 10],
    /// Container windows by window id.
    pub open_containers: [Option<OpenContainer>; 16],
    /// The creature this player walks after. Whoever has one walks to no position.
    pub follow_target: Option<u32>,
    /// The position this player walks to.
    pub go_to_position: Option<Position>,
    /// Searches since the last step that found no way to `go_to_position`.
    pub failed_repaths: Option<u32>,
    /// The steps still to walk.
    pub list_walk_dir: VecDeque<Direction>,
    /// When this player last took a step by itself.
    pub last_walk_ms: u64,
    pub conditions: Vec<ConditionRegeneration>,
}

#[verifier::ext_equal]
pub ghost struct PlayerModel {
    pub name: Seq<char>,
    pub position: Position,
    pub direction: Direction,
    pub outfit: Outfit,
    pub session: SessionModel,
    pub known: Set<u32>,
    pub health: u32,
    pub max_health: u32,
    pub max_melee: i32,
    pub attacking: Option<u32>,
    pub last_attack_ms: u64,
    pub sex: u8,
    pub gamemaster: bool,
    pub race: RaceType,
    pub is_ghost: bool,
    pub prev_outfit: Option<Outfit>,
    pub noclip: bool,
    pub speed: u16,
    pub inventory: Seq<Option<InvItem>>,
    pub windows: Seq<Option<ContainerModel>>,
    pub follow_target: Option<u32>,
    pub go_to_position: Option<Position>,
    pub failed_repaths: Option<u32>,
    pub walk: Seq<Direction>,
    pub last_walk_ms: u64,
    pub conditions: Seq<ConditionRegeneration>,
}

impl View for PlayerState {
    type V = PlayerModel;

    open spec fn view(&self) -> PlayerModel {
        PlayerModel {
            name: self.name@,
            position: self.position,
            direction: self.direction,
            outfit: self.outfit,
            session: self.session@,
            known: self.known@,
            health: self.health,
            max_health: self.max_health,
            max_melee: self.max_melee,
            attacking: self.attacking,
            last_attack_ms: self.last_attack_ms,
            sex: self.sex,
            gamemaster: self.gamemaster,
            race: self.race,
            is_ghost: self.is_ghost,
            prev_outfit: self.prev_outfit,
            noclip: self.noclip,
            speed: self.speed,
            inventory: self.inventory@,
            windows: windows_view(self.open_containers@),
            follow_target: self.follow_target,
            go_to_position: self.go_to_position,
            failed_repaths: self.failed_repaths,
            walk: self.list_walk_dir@,
            last_walk_ms: self.last_walk_ms,
            conditions: self.conditions@,
        }
    }
}

/// A possible drop of a monster. Its chance is `numerator / denominator`.
#[derive(Debug, Clone, Copy, PartialEq, Eq, Structural)]
pub struct MonsterDrop {
    pub item_id: u16,
    pub numerator: u32,
    pub denominator: u32,
    /// Item count (subtype for stackables).
    pub count: u8,
}

/// The blueprint of a kind of monster.
#[derive(Debug)]
pub struct MonsterType {
    pub name: String,
    pub look_type: u16,
    pub health: u32,
    pub max_health: u32,
    pub speed: u16,
    pub attack: u16,
    pub loot: Vec<MonsterDrop>,
    /// Preferred distance from the target (0 = melee).
    pub target_distance: i32,
    pub race: Option<RaceType>,
}

#[verifier::ext_equal]
pub ghost struct TypeModel {
    pub name: Seq<char>,
    pub look_type: u16,
    pub health: u32,
    pub max_health: u32,
    pub speed: u16,
    pub attack: u16,
    pub loot: Seq<MonsterDrop>,
    pub target_distance: i32,
    pub race: Option<RaceType>,
}

impl View for MonsterType {
    type V = TypeModel;

    open spec fn view(&self) -> TypeModel {
        TypeModel {
            name: self.name@,
            look_type: self.look_type,
            health: self.health,
            max_health: self.max_health,
            speed: self.speed,
            attack: self.attack,
            loot: self.loot@,
            target_distance: self.target_distance,
            race: self.race,
        }
    }
}

/// A place where a monster appears again some time after its death.
#[derive(Debug)]
pub struct MonsterSpawn {
    pub position: Position,
    pub respawn_interval_ms: u64,
    /// When the monster is due (`None` = none pending).
    pub respawn_at_ms: Option<u64>,
    pub kind: MonsterType,
}

#[verifier::ext_equal]
pub ghost struct SpawnModel {
    pub position: Position,
    pub respawn_interval_ms: u64,
    pub respawn_at_ms: Option<u64>,
    pub kind: TypeModel,
}

impl View for MonsterSpawn {
    type V = SpawnModel;

    open spec fn view(&self) -> SpawnModel {
        SpawnModel {
            position: self.position,
            respawn_interval_ms: self.respawn_interval_ms,
            respawn_at_ms: self.respawn_at_ms,
            kind: self.kind@,
        }
    }
}

/// Everything the game keeps of one living monster.
#[derive(Debug)]
pub struct MonsterState {
    pub name: String,
    pub position: Position,
    pub direction: Direction,
    pub health: u32,
    pub max_health: u32,
    pub speed: u16,
    pub look_type: u16,
    pub attacking: Option<u32>,
    pub last_attack_ms: u64,
    /// The most that a swing deals.
    pub attack: u16,
    pub loot: Vec<MonsterDrop>,
    /// The spawn that this monster came from.
    pub spawn_id: Option<u32>,
    /// The steps still to walk.
    pub list_walk_dir: VecDeque<Direction>,
    /// The creature this monster chases.
    pub follow_target: Option<u32>,
    pub target_distance: i32,
    pub race: Option<RaceType>,
}

#[verifier::ext_equal]
pub ghost struct MonsterModel {
    pub name: Seq<char>,
    pub position: Position,
    pub direction: Direction,
    pub health: u32,
    pub max_health: u32,
    pub speed: u16,
    pub look_type: u16,
    pub attacking: Option<u32>,
    pub last_attack_ms: u64,
    pub attack: u16,
    pub loot: Seq<MonsterDrop>,
    pub spawn_id: Option<u32>,
    pub walk: Seq<Direction>,
    pub follow_target: Option<u32>,
    pub target_distance: i32,
    pub race: Option<RaceType>,
}

impl View for MonsterState {
    type V = MonsterModel;

    open spec fn view(&self) -> MonsterModel {
        MonsterModel {
            name: self.name@,
            position: self.position,
            direction: self.direction,
            health: self.health,
            max_health: self.max_health,
            speed: self.speed,
            look_type: self.look_type,
            attacking: self.attacking,
            last_attack_ms: self.last_attack_ms,
            attack: self.attack,
            loot: self.loot@,
            spawn_id: self.spawn_id,
            walk: self.list_walk_dir@,
            follow_target: self.follow_target,
            target_distance: self.target_distance,
            race: self.race,
        }
    }
}

/// What a session needs to enter the world: the new player, and what it looks like there.
#[derive(Debug, Clone, Copy)]
pub struct PlayerSnapshot {
    pub id: u32,
    pub position: Position,
    pub direction: Direction,
    pub outfit: Outfit,
    pub health: u32,
    pub max_health: u32,
}

/// The result of a login: the new player and the creatures in its view. With the tiles around
/// the player, see [`Game::tile`], it is what the client's first map shows.
///
/// [`Game::tile`]: super::Game::tile
#[derive(Debug)]
pub struct LoginAck {
    pub snapshot: PlayerSnapshot,
    pub others: Vec<PlacedCreature>,
    /// The player itself.
    pub me: PlacedCreature,
}

/// What a player logs in with: a restored character or a new one.
#[derive(Debug)]
pub struct InitialState {
    /// Saved position, or `None` for the spawn point.
    pub position: Option<Position>,
    pub direction: Direction,
    pub outfit: Outfit,
    pub health: u32,
    pub max_health: u32,
    /// The most that a swing with bare hands deals.
    pub max_melee: i32,
    /// 0 = female, 1 = male.
    pub sex: u8,
    pub gamemaster: bool,
    /// Equipped items: `(slot 1..=10, server_id, count)`.
    pub inventory: Vec<(u8, u16, u8)>,
    /// Items in containers: `(slot 1..=10, place, server_id, count)`.
    pub container_items: Vec<(u8, String, u16, u8)>,
}

/// What is kept of a player who leaves the game.
#[derive(Debug)]
pub struct SaveRecord {
    pub name: String,
    pub position: Position,
    pub direction: Direction,
    pub outfit: Outfit,
    pub health: u32,
    pub max_health: u32,
    pub sex: u8,
    /// Equipped items: `(slot 1..=10, server_id, count)`.
    pub inventory: Vec<(u8, u16, u8)>,
    /// Items in containers: `(slot 1..=10, place, server_id, count)`.
    pub container_items: Vec<(u8, String, u16, u8)>,
}

/// A saved container item by its view.
pub open spec fn row_view(r: (u8, String, u16, u8)) -> (u8, Seq<char>, u16, u8) {
    (r.0, r.1@, r.2, r.3)
}

/// Saved container items, each by its view.
pub open spec fn rows_view(s: Seq<(u8, String, u16, u8)>) -> Seq<(u8, Seq<char>, u16, u8)> {
    s.map_values(|r: (u8, String, u16, u8)| row_view(r))
}

#[verifier::ext_equal]
pub ghost struct SaveModel {
    pub name: Seq<char>,
    pub position: Position,
    pub direction: Direction,
    pub outfit: Outfit,
    pub health: u32,
    pub max_health: u32,
    pub sex: u8,
    pub inventory: Seq<(u8, u16, u8)>,
    pub container_items: Seq<(u8, Seq<char>, u16, u8)>,
}

impl View for SaveRecord {
    type V = SaveModel;

    open spec fn view(&self) -> SaveModel {
        SaveModel {
            name: self.name@,
            position: self.position,
            direction: self.direction,
            outfit: self.outfit,
            health: self.health,
            max_health: self.max_health,
            sex: self.sex,
            inventory: self.inventory@,
            container_items: rows_view(self.container_items@),
        }
    }
}

} // verus!
