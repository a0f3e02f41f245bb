//! The game: players, monsters, items and the commands that act on them.

use rand::rngs::StdRng;
use std::collections::HashMap;
use vstd::prelude::*;
use vstd::string::StrSliceExecFns;

pub mod autowalk;
pub mod chat;
pub mod combat;
pub mod commands;
pub mod condition;
pub mod containers;
pub mod gm;
pub mod gm_commands;
pub mod items;
pub mod laws;
pub mod look;
pub mod lua;
pub mod model;
pub mod monster;
pub mod monster_files;
pub mod moves;
pub mod queries;
pub mod requests;
pub mod restore;
pub mod session;
pub mod setup;
pub mod state;
pub mod upkeep;
pub mod walking;
pub mod windows;
pub mod xml_registry;

use self::lua::LuaRuntime;
use self::model::sees;
use self::model::World;
use self::monster::MonsterTypes;
use self::state::MonsterSpawn;
use self::state::MonsterState;
use self::state::PlayerState;
use self::state::SaveModel;
use self::state::SaveRecord;
use self::xml_registry::XmlRegistry;
use crate::combat::rng_from_entropy;
use crate::combat::rng_from_seed;
use crate::map::grid::StaticMap;
use crate::map::TileModel;
use crate::map::TileStack;
use crate::registry::lemma_filter_step;
use crate::registry::Entries;
use crate::registry::Registry;
use crate::wire::Session;
use crate::wire::SessionModel;
use crate::Position;

verus! {

/// Attack interval of bare-handed melee.
pub const MELEE_ATTACK_INTERVAL_MS: u64 = 2000;

/// White status-bar message.
pub const MSG_STATUS_SMALL: u8 = 21;

/// Green description.
pub const MSG_INFO_DESCR: u8 = 22;

/// Blue console text.
pub const MSG_CONSOLE_BLUE: u8 = 4;

/// Look type of a gamemaster in ghost mode.
pub const GHOST_LOOKTYPE: u16 = 40;

/// The splash item that a hit leaves.
pub const ITEM_SMALLSPLASH: u16 = 2889;

/// The splash item that a death leaves.
pub const ITEM_FULLSPLASH: u16 = 2886;

/// The step interval in milliseconds of a creature with this speed: the faster, the shorter,
/// between 200 and 2000.
pub open spec fn step_interval(speed: u16) -> u64 {
    let raw = 100_000u64 / (if speed >= 1 { speed as u64 } else { 1 });
    if raw < 200 {
        200
    } else if raw > 2000 {
        2000
    } else {
        raw
    }
}

/// Compute the step interval in milliseconds for a given creature speed: 454 for the default
/// speed of 220.
pub fn step_time(speed: u16) -> (ms: u64)
    ensures
        ms == step_interval(speed),
        200 <= ms <= 2000,
        ms > 200 ==> ms * speed <= 100_000,
        ms < 2000 ==> 100_000 < (ms + 1) * speed,
{
    let s: u64 = if speed >= 1 {
        speed as u64
    } else {
        1
    };
    let raw: u64 = 100_000 / s;
    assert(raw * s <= 100_000 < (raw + 1) * s) by (nonlinear_arith)
        requires
            s >= 1,
            raw == 100_000u64 / s,
    ;
    assert(raw < 200 ==> (raw + 1) * s <= 201 * s) by (nonlinear_arith);
    assert(raw > 2000 ==> 2000 * s <= raw * s) by (nonlinear_arith);
    if raw < 200 {
        200
    } else if raw > 2000 {
        2000
    } else {
        raw
    }
}

/// A faster creature never waits longer between steps.
pub proof fn law_faster_steps_sooner(a: u16, b: u16)
    requires
        a <= b,
    ensures
        step_interval(b) <= step_interval(a),
        200 <= step_interval(a) <= 2000,
{
    let x: int = if a >= 1 { a as int } else { 1 };
    let y: int = if b >= 1 { b as int } else { 1 };
    assert(100_000int / y <= 100_000int / x) by (nonlinear_arith)
        requires
            1 <= x <= y,
    ;
}

/// The game: the map with its runtime changes, everyone on it, and what they are up to.
pub struct Game {
    pub map: StaticMap,
    /// The tile stacks that differ from the map.
    pub dynamic: HashMap<u64, TileStack>,
    pub players: Registry<PlayerState>,
    pub monsters: Registry<MonsterState>,
    pub spawns: Registry<MonsterSpawn>,
    pub next_id: u32,
    pub next_monster_id: u32,
    pub next_spawn_id: u32,
    pub next_statement_id: u32,
    pub rng: StdRng,
    /// Records of players who left, where they are kept.
    pub saves: Option<Vec<SaveRecord>>,
    /// Sessions of players who left, with the messages that still wait for them.
    pub left: Vec<(u32, Session)>,
    /// The scripts of items; `None` where none run.
    pub lua: Option<LuaRuntime>,
    pub registry: XmlRegistry,
    pub monster_types: MonsterTypes,
    pub now_ms: u64,
}

/// Tile stacks, each by its view.
pub open spec fn overlay_view(m: Map<u64, TileStack>) -> Map<u64, TileModel> {
    m.map_values(|st: TileStack| st@)
}

/// Records, each by its view.
pub open spec fn saves_view(s: Option<Vec<SaveRecord>>) -> Option<Seq<SaveModel>> {
    match s {
        Some(v) => Some(v@.map_values(|r: SaveRecord| r@)),
        None => None,
    }
}

/// Sessions of players who left, each by its view.
pub open spec fn left_view(s: Seq<(u32, Session)>) -> Seq<(u32, SessionModel)> {
    s.map_values(|e: (u32, Session)| (e.0, e.1@))
}

impl View for Game {
    type V = World;

    open spec fn view(&self) -> World {
        World {
            map: self.map,
            overlay: overlay_view(self.dynamic@),
            players: self.players@,
            monsters: self.monsters@,
            spawns: self.spawns@,
            next_id: self.next_id,
            next_monster_id: self.next_monster_id,
            next_spawn_id: self.next_spawn_id,
            next_statement_id: self.next_statement_id,
            saves: saves_view(self.saves),
            left: left_view(self.left@),
            lua: self.lua,
            actions: self.registry@,
            types: self.monster_types@,
            now_ms: self.now_ms,
        }
    }
}

impl World {
    /// A game in which nothing has happened yet.
    pub open spec fn fresh(map: StaticMap) -> World {
        World {
            map,
            overlay: Map::empty(),
            players: Entries::empty(),
            monsters: Entries::empty(),
            spawns: Entries::empty(),
            next_id: 0x1000_0000,
            next_monster_id: 0x4000_0000,
            next_spawn_id: 1,
            next_statement_id: 1,
            saves: None,
            left: Seq::empty(),
            lua: None,
            actions: Map::empty(),
            types: Map::empty(),
            now_ms: 0,
        }
    }
}

impl Game {
    pub open spec fn wf(&self) -> bool {
        &&& self.players.wf()
        &&& self.monsters.wf()
        &&& self.spawns.wf()
        &&& self@.wf()
    }

    fn with_rng(map: StaticMap, rng: StdRng) -> (g: Game)
        requires
            map.wf(),
        ensures
            g.wf(),
            g@ == World::fresh(map),
    {
        let g = Game {
            map,
            dynamic: HashMap::new(),
            players: Registry::new(),
            monsters: Registry::new(),
            spawns: Registry::new(),
            next_id: 0x1000_0000,
            next_monster_id: 0x4000_0000,
            next_spawn_id: 1,
            next_statement_id: 1,
            rng,
            saves: None,
            left: Vec::new(),
            lua: None,
            registry: XmlRegistry::default(),
            monster_types: MonsterTypes::new(),
            now_ms: 0,
        };
        assert(g@ =~= World::fresh(map));
        g
    }

    /// A game on `map`, with random numbers seeded by the system.
    pub fn new(map: StaticMap) -> (g: Game)
        requires
            map.wf(),
        ensures
            g.wf(),
            g@ == World::fresh(map),
    {
        Game::with_rng(map, rng_from_entropy())
    }

    /// A game on `map` with a fixed seed.
    pub fn new_seeded(map: StaticMap, seed: u64) -> (g: Game)
        requires
            map.wf(),
        ensures
            g.wf(),
            g@ == World::fresh(map),
    {
        Game::with_rng(map, rng_from_seed(seed))
    }

    /// Can a viewer at `viewer` see tile `target`?
    pub fn can_see(viewer: Position, target: Position) -> (r: bool)
        ensures
            r == sees(viewer, target),
    {
        let floor_shown = if viewer.z <= 7 {
            target.z <= 7
        } else if viewer.z <= target.z {
            target.z - viewer.z <= 2
        } else {
            viewer.z - target.z <= 2
        };
        let shift: i32 = viewer.z as i32 - target.z as i32;
        let dx: i32 = target.x as i32 - viewer.x as i32 - shift;
        let dy: i32 = target.y as i32 - viewer.y as i32 - shift;
        floor_shown && -8 <= dx && dx <= 9 && -6 <= dy && dy <= 7
    }

    /// Ids of players who can see `pos`, excluding `exclude`. Where `exclude` is in ghost
    /// mode, only gamemasters are listed.
    pub fn spectators(&self, pos: Position, exclude: u32) -> (r: Vec<u32>)
        requires
            self.wf(),
        ensures
            r@ == self@.spectators(pos, exclude),
    {
        let unseen = match self.players.get(exclude) {
            Some(p) => p.is_ghost,
            None => false,
        };
        let ghost order = self.players@.order;
        let ghost f = self@.watcher(pos, exclude);
        let mut r: Vec<u32> = Vec::new();
        assert(order.take(0).filter(f) =~= Seq::empty()) by {
            reveal(Seq::filter);
        }
        let mut i: usize = 0;
        while i < self.players.len()
            invariant
                self.wf(),
                i <= order.len(),
                order == self.players@.order,
                unseen == self@.is_ghost(exclude),
                f == self@.watcher(pos, exclude),
                r@ == order.take(i as int).filter(f),
            decreases order.len() - i,
        {
            let id = self.players.id_at(i);
            let p = self.players.entry_at(i);
            proof {
                lemma_filter_step(order, i as int, f);
            }
            if id != exclude && Game::can_see(p.position, pos) && (!unseen || p.gamemaster) {
                r.push(id);
            }
            i = i + 1;
        }
        assert(order.take(order.len() as int) =~= order);
        r
    }
}

} // verus!
