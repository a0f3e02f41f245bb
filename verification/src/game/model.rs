//! The game as a mathematical value, and the steps from which all commands are made.

use vstd::prelude::*;
use vstd::utf8::encode_utf8;

use super::lua::LuaRuntime;
use super::state::ContainerModel;
use super::state::ContainerSource;
use super::state::InvItem;
use super::state::MonsterModel;
use super::state::PlayerModel;
use super::state::SaveModel;
use super::state::SpawnModel;
use super::state::TypeModel;
use crate::map::grid::tile_key;
use crate::map::grid::StaticMap;
use crate::map::sight::gap;
use crate::map::StackThing;
use crate::map::TileModel;
use crate::registry::law_set;
use crate::registry::law_without;
use crate::registry::lemma_filter_from;
use crate::registry::Entries;
use crate::text::capped;
use crate::text::decimal;
use crate::wire::CreatureModel;
use crate::wire::Effect;
use crate::wire::Outfit;
use crate::wire::PacketModel;
use crate::wire::SessionModel;
use crate::Position;

verus! {

/// Everything a game is, apart from the state of its random numbers.
#[verifier::ext_equal]
pub ghost struct World {
    pub map: StaticMap,
    /// The stacks that differ from the map, by tile number.
    pub overlay: Map<u64, TileModel>,
    pub players: Entries<PlayerModel>,
    pub monsters: Entries<MonsterModel>,
    pub spawns: Entries<SpawnModel>,
    pub next_id: u32,
    pub next_monster_id: u32,
    pub next_spawn_id: u32,
    pub next_statement_id: u32,
    /// The records written for players who left, where records are kept.
    pub saves: Option<Seq<SaveModel>>,
    /// Sessions of players who left, with the messages that still wait for them.
    pub left: Seq<(u32, SessionModel)>,
    /// The scripts of items; `None` where none run.
    pub lua: Option<LuaRuntime>,
    /// The script of each scripted item type.
    pub actions: Map<u16, Seq<char>>,
    /// Monster types by lower-case name.
    pub types: Map<Seq<char>, TypeModel>,
    pub now_ms: u64,
}

impl PlayerModel {
    /// Ten equipment slots and sixteen window slots. Whoever follows someone walks nowhere
    /// else, searches fail only for those who walk somewhere, and ghosts alone have an outfit
    /// to return to.
    pub open spec fn wf(self) -> bool {
        &&& self.inventory.len() == 10
        &&& self.windows.len() == 16
        &&& self.follow_target is Some ==> self.go_to_position is None
        &&& self.go_to_position is None ==> self.failed_repaths is None
        &&& self.prev_outfit is Some <==> self.is_ghost
    }
}

/// Can a viewer at `viewer` see tile `target`? Above ground every floor 7..0 is visible,
/// underground two floors up and down; other floors are shifted by the floor difference.
/// The view reaches one column further east and one row further south.
pub open spec fn sees(viewer: Position, target: Position) -> bool {
    let floor_shown = if viewer.z <= 7 {
        target.z <= 7
    } else {
        gap(viewer.z as int, target.z as int) <= 2
    };
    let shift = viewer.z - target.z;
    floor_shown && -8 <= target.x - viewer.x - shift <= 9 && -6 <= target.y - viewer.y - shift <= 7
}

/// `health` as a percentage of `max_health`, 100 at most and 0 where there is no maximum.
pub open spec fn percent(health: u32, max_health: u32) -> u8 {
    if max_health == 0 {
        0
    } else if (health * 100) / (max_health as int) <= 100 {
        ((health * 100) / (max_health as int)) as u8
    } else {
        100
    }
}

/// Equipped items as they are saved: `(slot, server_id, count)`, count 1 where there is none.
pub open spec fn inventory_rows(inv: Seq<Option<InvItem>>) -> Seq<(u8, u16, u8)>
    decreases inv.len(),
{
    if inv.len() == 0 {
        Seq::empty()
    } else {
        let rest = inventory_rows(inv.drop_last());
        match inv.last() {
            Some(it) => rest.push((inv.len() as u8, it.server_id, count_or_one(it.count))),
            None => rest,
        }
    }
}

/// A stack count, 1 where there is none.
pub open spec fn count_or_one(c: Option<u8>) -> u8 {
    match c {
        Some(n) => n,
        None => 1,
    }
}

/// The items of a container in inventory slot `slot` as they are saved: the path of each is
/// `prefix` and its index.
pub open spec fn item_rows(slot: u8, prefix: Seq<char>, items: Seq<InvItem>) -> Seq<
    (u8, Seq<char>, u16, u8),
> {
    Seq::new(
        items.len(),
        |i: int|
            (
                slot,
                prefix + decimal(i as nat),
                items[i].server_id,
                count_or_one(items[i].count),
            ),
    )
}

/// The inventory slot that the container of window `c` lies in, itself or inside others, and
/// the path to its items: nothing for the container in the slot, the path of the container and
/// a slash for one inside another. `None` where it lies on the ground, or more than `depth`
/// containers deep.
pub open spec fn root_of(windows: Seq<Option<ContainerModel>>, c: int, depth: nat) -> Option<
    (u8, Seq<char>),
>
    decreases depth,
{
    match windows[c] {
        Some(oc) => match oc.source {
            ContainerSource::Slot(s) if s >= 1 => Some((s, Seq::empty())),
            ContainerSource::Nested { parent_cid, parent_slot } if depth > 0 && parent_cid
                < windows.len() => match root_of(windows, parent_cid as int, (depth - 1) as nat) {
                Some((s, prefix)) => Some((s, prefix + decimal(parent_slot as nat).push('/'))),
                None => None,
            },
            _ => None,
        },
        None => None,
    }
}

/// The contents of the first `n` windows as they are saved.
pub open spec fn rows_of_first(windows: Seq<Option<ContainerModel>>, n: int) -> Seq<
    (u8, Seq<char>, u16, u8),
>
    decreases n,
{
    if n <= 0 {
        Seq::empty()
    } else {
        let rest = rows_of_first(windows, n - 1);
        match root_of(windows, n - 1, 16) {
            Some((s, prefix)) => rest + item_rows(s, prefix, windows[n - 1]->0.items),
            None => rest,
        }
    }
}

/// The contents of all containers in inventory slots, and inside those, as they are saved.
/// Containers on the ground are not.
pub open spec fn container_rows(
    windows: Seq<Option<ContainerModel>>,
) -> Seq<(u8, Seq<char>, u16, u8)> {
    rows_of_first(windows, windows.len() as int)
}

/// What is saved of a player.
pub open spec fn record(p: PlayerModel) -> SaveModel {
    SaveModel {
        name: p.name,
        position: p.position,
        direction: p.direction,
        outfit: p.outfit,
        health: p.health,
        max_health: p.max_health,
        sex: p.sex,
        inventory: inventory_rows(p.inventory),
        container_items: container_rows(p.windows),
    }
}

impl World {
    pub open spec fn wf(self) -> bool {
        &&& self.map.wf()
        &&& self.players.wf()
        &&& self.monsters.wf()
        &&& self.spawns.wf()
        &&& forall|id: u32|
            #![trigger self.players.at(id)]
            self.players.has(id) ==> self.players.at(id).wf()
        &&& forall|id: u32| #[trigger] self.players.has(id) ==> id < self.next_id
        &&& forall|id: u32| #[trigger] self.monsters.has(id) ==> id < self.next_monster_id
        &&& forall|id: u32| #[trigger] self.spawns.has(id) ==> id < self.next_spawn_id
        &&& forall|k: u64|
            #![trigger self.overlay[k]]
            self.overlay.contains_key(k) ==> self.overlay[k].wf()
    }

    pub open spec fn set_player(self, id: u32, p: PlayerModel) -> World {
        World { players: self.players.set(id, p), ..self }
    }

    pub open spec fn set_monster(self, id: u32, m: MonsterModel) -> World {
        World { monsters: self.monsters.set(id, m), ..self }
    }

    /// The record kept, where records are.
    pub open spec fn saved(self, r: SaveModel) -> World {
        World {
            saves: match self.saves {
                Some(s) => Some(s.push(r)),
                None => None,
            },
            ..self
        }
    }

    /// Player `id`'s client no longer knows `gone`.
    pub open spec fn forget(self, id: u32, gone: u32) -> World {
        if self.players.has(id) {
            self.set_player(
                id,
                PlayerModel {
                    known: self.players.at(id).known.remove(gone),
                    ..self.players.at(id)
                },
            )
        } else {
            self
        }
    }

    // ---------------------------------------------------------------------------------
    // Creatures
    // ---------------------------------------------------------------------------------

    pub open spec fn creature_exists(self, id: u32) -> bool {
        self.players.has(id) || self.monsters.has(id)
    }

    pub open spec fn creature_position(self, id: u32) -> Option<Position> {
        if self.players.has(id) {
            Some(self.players.at(id).position)
        } else if self.monsters.has(id) {
            Some(self.monsters.at(id).position)
        } else {
            None
        }
    }

    pub open spec fn creature_name(self, id: u32) -> Option<Seq<char>> {
        if self.players.has(id) {
            Some(self.players.at(id).name)
        } else if self.monsters.has(id) {
            Some(self.monsters.at(id).name)
        } else {
            None
        }
    }

    /// A creature as a client is shown it. Creatures that do not exist have no look.
    pub open spec fn creature_look(self, id: u32, known: bool) -> CreatureModel {
        if self.players.has(id) {
            let p = self.players.at(id);
            CreatureModel {
                known,
                id,
                name: p.name,
                health_percent: percent(p.health, p.max_health),
                direction: p.direction.byte(),
                outfit: p.outfit,
                speed: p.speed,
                creature_type: 0,
                walkthrough: if p.is_ghost { 1 } else { 0 },
            }
        } else {
            let m = self.monsters.at(id);
            CreatureModel {
                known,
                id,
                name: m.name,
                health_percent: percent(m.health, m.max_health),
                direction: m.direction.byte(),
                outfit: Outfit {
                    look_type: m.look_type,
                    head: 0,
                    body: 0,
                    legs: 0,
                    feet: 0,
                    addons: 0,
                    mount: 0,
                },
                speed: m.speed,
                creature_type: 1,
                walkthrough: 0,
            }
        }
    }

    /// `target` can be shown to `viewer`: both are there, and the viewer is a player.
    pub open spec fn can_introduce(self, viewer: u32, target: u32) -> bool {
        self.creature_exists(target) && self.players.has(viewer)
    }

    /// What `viewer` is shown of `target`: the short form where its client knows it already.
    pub open spec fn shown(self, viewer: u32, target: u32) -> CreatureModel {
        self.creature_look(target, self.players.at(viewer).known.contains(target))
    }

    /// `viewer`'s client has been shown `target`, where that is possible.
    pub open spec fn introduced(self, viewer: u32, target: u32) -> World {
        if self.can_introduce(viewer, target) {
            self.set_player(
                viewer,
                PlayerModel {
                    known: self.players.at(viewer).known.insert(target),
                    ..self.players.at(viewer)
                },
            )
        } else {
            self
        }
    }

    // ---------------------------------------------------------------------------------
    // Who sees what
    // ---------------------------------------------------------------------------------

    /// Player `id` is in ghost mode.
    pub open spec fn is_ghost(self, id: u32) -> bool {
        self.players.has(id) && self.players.at(id).is_ghost
    }

    /// Player `viewer` may be shown `target`: ghosts are shown to gamemasters only.
    pub open spec fn may_see(self, viewer: u32, target: u32) -> bool {
        self.is_ghost(target) ==> self.players.has(viewer) && self.players.at(viewer).gamemaster
    }

    /// Player `id` watches `pos` and may be told of `subject` there: not `subject` itself,
    /// and a gamemaster where `subject` is in ghost mode.
    pub open spec fn watches(self, id: u32, pos: Position, subject: u32) -> bool {
        id != subject && sees(self.players.at(id).position, pos) && (!self.is_ghost(subject)
            || self.players.at(id).gamemaster)
    }

    /// The players who see `pos`, except `subject`.
    pub open spec fn spectators(self, pos: Position, subject: u32) -> Seq<u32> {
        self.players.order.filter(self.watcher(pos, subject))
    }

    pub open spec fn watcher(self, pos: Position, subject: u32) -> spec_fn(u32) -> bool {
        |id: u32| self.watches(id, pos, subject)
    }

    /// The players that someone at `viewer` sees, except `who`. Ghosts are seen by
    /// gamemasters only.
    pub open spec fn visible_from(self, viewer: Position, who: u32) -> Seq<u32> {
        self.players.order.filter(self.seen(viewer, who))
    }

    pub open spec fn seen(self, viewer: Position, who: u32) -> spec_fn(u32) -> bool {
        let gm = self.players.has(who) && self.players.at(who).gamemaster;
        |id: u32|
            id != who && sees(viewer, self.players.at(id).position) && (gm || !self.players.at(
                id,
            ).is_ghost)
    }

    /// The monsters that someone at `viewer` sees.
    pub open spec fn monsters_visible_from(self, viewer: Position) -> Seq<u32> {
        self.monsters.order.filter(self.monster_seen(viewer))
    }

    pub open spec fn monster_seen(self, viewer: Position) -> spec_fn(u32) -> bool {
        |id: u32| sees(viewer, self.monsters.at(id).position)
    }

    /// The players on `pos`'s floor at most `rx` columns and `ry` rows away, except `subject`.
    pub open spec fn in_range(self, pos: Position, subject: u32, rx: int, ry: int) -> Seq<u32> {
        self.players.order.filter(self.near(pos, subject, rx, ry))
    }

    pub open spec fn near(self, pos: Position, subject: u32, rx: int, ry: int) -> spec_fn(
        u32,
    ) -> bool {
        |id: u32|
            id != subject && self.players.at(id).position.z == pos.z && gap(
                self.players.at(id).position.x as int,
                pos.x as int,
            ) <= rx && gap(self.players.at(id).position.y as int, pos.y as int) <= ry
    }

    // ---------------------------------------------------------------------------------
    // Tiles
    // ---------------------------------------------------------------------------------

    /// The runtime stack of a tile that has been changed.
    pub open spec fn changed(self, pos: Position) -> Option<TileModel> {
        if self.overlay.contains_key(tile_key(pos)) {
            Some(self.overlay[tile_key(pos)])
        } else {
            None
        }
    }

    /// The stack of a tile as it is now.
    pub open spec fn stack(self, pos: Position) -> Option<TileModel> {
        match self.changed(pos) {
            Some(st) => Some(st),
            None => self.map.stack_at(pos),
        }
    }

    pub open spec fn with_stack(self, pos: Position, st: TileModel) -> World {
        World { overlay: self.overlay.insert(tile_key(pos), st), ..self }
    }

    /// The tile ready to be changed, where it has a stack at all.
    pub open spec fn materialized(self, pos: Position) -> World {
        match (self.changed(pos), self.map.stack_at(pos)) {
            (None, Some(st)) => self.with_stack(pos, st),
            _ => self,
        }
    }

    /// How many items lie below a creature on the tile as it is now.
    pub open spec fn pre(self, pos: Position) -> nat {
        match self.stack(pos) {
            Some(st) => st.pre,
            None => 0,
        }
    }

    /// The item at index `idx` of the tile as it is now.
    pub open spec fn thing(self, pos: Position, idx: int) -> Option<StackThing> {
        match self.stack(pos) {
            Some(st) if 0 <= idx < st.things.len() => Some(st.things[idx]),
            _ => None,
        }
    }

    /// A player other than `exclude` stands on `pos`.
    pub open spec fn occupied(self, pos: Position, exclude: u32) -> bool {
        exists|id: u32| #[trigger]
            self.players.has(id) && id != exclude && self.players.at(id).position == pos
    }

    /// `pos` is walkable and no player other than `exclude` stands there.
    pub open spec fn is_free(self, pos: Position, exclude: u32) -> bool {
        self.map.walkable(pos) && !self.occupied(pos, exclude)
    }

    pub open spec fn player_on(self, pos: Position, exclude: Option<u32>) -> spec_fn(u32) -> bool {
        |id: u32| Some(id) != exclude && self.players.at(id).position == pos
    }

    pub open spec fn monster_on(self, pos: Position, exclude: Option<u32>) -> spec_fn(u32) -> bool {
        |id: u32| Some(id) != exclude && self.monsters.at(id).position == pos
    }

    /// How many creatures, `exclude` apart, stand on `pos`.
    pub open spec fn crowd(self, pos: Position, exclude: Option<u32>) -> nat {
        self.players.order.filter(self.player_on(pos, exclude)).len()
            + self.monsters.order.filter(self.monster_on(pos, exclude)).len()
    }

    /// The creatures on `pos` by ascending id.
    pub open spec fn creatures_on(self, pos: Position) -> Seq<u32> {
        ascending(
            self.players.order.filter(self.player_on(pos, None))
                + self.monsters.order.filter(self.monster_on(pos, None)),
        )
    }

    /// The stack position at which a client draws creature `id` on `pos`: above the ground,
    /// the top items and the other creatures there, 10 at most.
    pub open spec fn stackpos_on(self, pos: Position, id: u32) -> u8 {
        let n = self.map.creature_base(pos) + self.crowd(pos, Some(id));
        if n <= 10 {
            n as u8
        } else {
            10
        }
    }

    /// The first free tile from ring offset `(r, dy, dx)` on around `origin`, ring by ring,
    /// row by row; `origin` where no ring has one.
    pub open spec fn search(
        self,
        origin: Position,
        exclude: u32,
        r: int,
        dy: int,
        dx: int,
    ) -> Position
        decreases 6 - r, r + 1 - dy, r + 1 - dx,
    {
        if r > 5 {
            origin
        } else if dy > r {
            self.search(origin, exclude, r + 1, -(r + 1), -(r + 1))
        } else if dx > r {
            self.search(origin, exclude, r, dy + 1, -r)
        } else if self.usable(origin, exclude, r, dy, dx) {
            origin.shifted(dx, dy)->0
        } else {
            self.search(origin, exclude, r, dy, dx + 1)
        }
    }

    /// Offset `(dx, dy)` lies on ring `r` around `origin`, on the map, on a free tile.
    pub open spec fn usable(
        self,
        origin: Position,
        exclude: u32,
        r: int,
        dy: int,
        dx: int,
    ) -> bool {
        (gap(0, dx) == r || gap(0, dy) == r) && (origin.shifted(dx, dy) matches Some(p)
            && self.is_free(p, exclude))
    }

    /// `origin` where it is free, else the first free tile in the five rings around it, else
    /// `origin` after all.
    pub open spec fn free_near(self, origin: Position, exclude: u32) -> Position {
        if self.is_free(origin, exclude) {
            origin
        } else {
            self.search(origin, exclude, 1, -1, -1)
        }
    }

    // ---------------------------------------------------------------------------------
    // Messages, and players who leave
    // ---------------------------------------------------------------------------------

    /// A message to player `id`. A session that cannot take it is gone, and its player is
    /// logged out. `depth` bounds how many players may leave on that account.
    pub open spec fn push_within(self, id: u32, p: PacketModel, depth: nat) -> World
        decreases depth, 0nat, 0nat,
    {
        if !self.players.has(id) {
            self
        } else if self.players.at(id).session.accepts() {
            self.set_player(
                id,
                PlayerModel {
                    session: self.players.at(id).session.sent(p),
                    ..self.players.at(id)
                },
            )
        } else if depth == 0 {
            self
        } else {
            self.logout_within(id, (depth - 1) as nat)
        }
    }

    /// Player `id` leaves: a record is kept, and everyone who saw the player is told. That a
    /// ghost leaves only gamemasters see.
    pub open spec fn logout_within(self, id: u32, depth: nat) -> World
        decreases depth, 2nat, 0nat,
    {
        if !self.players.has(id) {
            self
        } else {
            let p = self.players.at(id);
            let w = self.parted(id);
            w.depart_within(self.spectators(p.position, id), p.position, id, depth)
        }
    }

    /// Player `id` gone from the game and a record kept, with no one told yet.
    pub open spec fn parted(self, id: u32) -> World {
        self.removed(id).saved(record(self.players.at(id)))
    }

    /// Player `id` gone from the game. Its session stays until its messages are fetched.
    pub open spec fn removed(self, id: u32) -> World {
        if self.players.has(id) {
            World {
                players: self.players.without(id),
                left: self.left.push((id, self.players.at(id).session)),
                ..self
            }
        } else {
            self
        }
    }

    /// Each of `ids` is shown a puff at `pos` and the removal of `gone`, and forgets it.
    pub open spec fn depart_within(
        self,
        ids: Seq<u32>,
        pos: Position,
        gone: u32,
        depth: nat,
    ) -> World
        decreases depth, 1nat, ids.len(),
    {
        if ids.len() == 0 {
            self
        } else {
            let s = ids[0];
            let a = self.push_within(s, puff(pos), depth);
            let b = a.push_within(s, PacketModel::RemoveCreature { id: gone }, depth);
            b.forget(s, gone).depart_within(ids.drop_first(), pos, gone, depth)
        }
    }

    /// A message to player `id`; where its session cannot take it, the player is logged out.
    pub open spec fn push(self, id: u32, p: PacketModel) -> World {
        self.push_within(id, p, self.players.count())
    }

    /// Player `id` leaves the game.
    pub open spec fn logout(self, id: u32) -> World {
        self.logout_within(id, self.players.count())
    }

    /// Each of `ids` is told that `gone` left `pos`.
    pub open spec fn depart(self, ids: Seq<u32>, pos: Position, gone: u32) -> World {
        self.depart_within(ids, pos, gone, self.players.count())
    }

    /// One message to each of `ids` in turn.
    pub open spec fn push_all(self, ids: Seq<u32>, p: PacketModel) -> World
        decreases ids.len(),
    {
        if ids.len() == 0 {
            self
        } else {
            self.push(ids[0], p).push_all(ids.drop_first(), p)
        }
    }

    /// A message that is lost where the session cannot take it.
    pub open spec fn offer(self, id: u32, p: PacketModel) -> World {
        if self.players.has(id) {
            self.set_player(
                id,
                PlayerModel {
                    session: self.players.at(id).session.offered(p),
                    ..self.players.at(id)
                },
            )
        } else {
            self
        }
    }

    /// One message to each of `ids`, lost where a session cannot take it.
    pub open spec fn offer_all(self, ids: Seq<u32>, p: PacketModel) -> World
        decreases ids.len(),
    {
        if ids.len() == 0 {
            self
        } else {
            self.offer(ids[0], p).offer_all(ids.drop_first(), p)
        }
    }

    /// Each of `ids` who can be is shown creature `who` on `pos`.
    pub open spec fn shown_to(self, ids: Seq<u32>, who: u32, pos: Position) -> World
        decreases ids.len(),
    {
        if ids.len() == 0 {
            self
        } else {
            let s = ids[0];
            let w = if self.can_introduce(s, who) {
                self.introduced(s, who).push(
                    s,
                    PacketModel::AddTileCreature {
                        position: pos,
                        stackpos: self.introduced(s, who).stackpos_on(pos, who),
                        creature: self.shown(s, who),
                    },
                )
            } else {
                self
            };
            w.shown_to(ids.drop_first(), who, pos)
        }
    }

    /// Each of `ids` is told that creature `gone` is gone, and forgets it.
    pub open spec fn gone_told(self, ids: Seq<u32>, gone: u32) -> World
        decreases ids.len(),
    {
        if ids.len() == 0 {
            self
        } else {
            self.push(ids[0], PacketModel::RemoveCreature { id: gone }).forget(
                ids[0],
                gone,
            ).gone_told(ids.drop_first(), gone)
        }
    }

    /// A line in the status bar.
    pub open spec fn status(self, id: u32, text: Seq<char>) -> World {
        self.push(id, PacketModel::TextMessage { mode: 21, text: encode_utf8(text) })
    }

    /// A green description.
    pub open spec fn describe(self, id: u32, text: Seq<char>) -> World {
        self.push(id, PacketModel::TextMessage { mode: 22, text: capped(encode_utf8(text)) })
    }

    /// A blue console line.
    pub open spec fn console(self, id: u32, text: Seq<char>) -> World {
        self.push(id, PacketModel::TextMessage { mode: 4, text: capped(encode_utf8(text)) })
    }
}

/// Put `x` behind every number that is not greater.
pub open spec fn insert_ascending(s: Seq<u32>, x: u32) -> Seq<u32>
    decreases s.len(),
{
    if s.len() == 0 || s.last() <= x {
        s.push(x)
    } else {
        insert_ascending(s.drop_last(), x).push(s.last())
    }
}

/// The numbers of `s` in ascending order.
pub open spec fn ascending(s: Seq<u32>) -> Seq<u32>
    decreases s.len(),
{
    if s.len() == 0 {
        s
    } else {
        insert_ascending(ascending(s.drop_last()), s.last())
    }
}

/// A puff of smoke on a tile.
pub open spec fn puff(pos: Position) -> PacketModel {
    PacketModel::MagicEffect { position: pos, effect: Effect::Teleport }
}

impl World {
    /// `later` differs only in who is still there, the messages that wait, what clients
    /// know, and what is kept of those who left.
    /// Nobody left whose session could take one more message.
    pub open spec fn only_told(self, later: World) -> bool {
        &&& self.only_told_or_left(later)
        &&& self.keeps_players(later)
    }

    /// Whoever is no longer there has left with a session that could take no more messages. Where
    /// records are kept there is one more of each who left, and all others are still there.
    pub open spec fn keeps_players(self, later: World) -> bool {
        &&& self.left.is_prefix_of(later.left)
        &&& match (self.saves, later.saves) {
            (Some(a), Some(b)) => a.is_prefix_of(b) && b.len() - a.len() == later.left.len()
                - self.left.len(),
            (None, None) => true,
            _ => false,
        }
        &&& forall|id: u32|
            #![trigger self.players.has(id)]
            #![trigger later.players.has(id)]
            self.players.has(id) && !later.players.has(id) ==> later.left_full(
                id,
                self.left.len() as int,
            )
    }

    /// Player `id` is one of those who left, the first `n` not counted, and its session could
    /// take no more messages.
    pub open spec fn left_full(self, id: u32, n: int) -> bool {
        exists|i: int|
            n <= i < self.left.len() && #[trigger] self.left[i].0 == id
                && !self.left[i].1.accepts()
    }

    /// What `only_told` says, but that anyone may have left.
    pub open spec fn only_told_or_left(self, later: World) -> bool {
        &&& later == World {
            players: later.players,
            saves: later.saves,
            left: later.left,
            ..self
        }
        &&& later.players.wf()
        &&& later.players.count() <= self.players.count()
        &&& forall|id: u32|
            #![trigger later.players.has(id)]
            #![trigger later.players.at(id)]
            later.players.has(id) ==> self.players.has(id) && later.players.at(id) == (PlayerModel {
                session: later.players.at(id).session,
                known: later.players.at(id).known,
                ..self.players.at(id)
            }) && extends(
                later.players.at(id).session.queue,
                self.players.at(id).session.queue,
            )
    }
}

/// The messages `now` are those of `before`, with more behind them or not.
pub open spec fn extends(now: Seq<PacketModel>, before: Seq<PacketModel>) -> bool {
    &&& before.len() <= now.len()
    &&& forall|i: int| #![trigger now[i]] 0 <= i < before.len() ==> now[i] == before[i]
}

pub proof fn lemma_only_told_trans(a: World, b: World, c: World)
    requires
        a.only_told(b),
        b.only_told(c),
    ensures
        a.only_told(c),
{
    lemma_told_or_left_trans(a, b, c);
    lemma_keeps_players_trans(a, b, c);
}

pub proof fn lemma_keeps_players_trans(a: World, b: World, c: World)
    requires
        a.keeps_players(b),
        b.keeps_players(c),
    ensures
        a.keeps_players(c),
{
    let n = a.left.len() as int;
    assert forall|id: u32|
        #![trigger a.players.has(id)]
        #![trigger c.players.has(id)]
        a.players.has(id) && !c.players.has(id) implies c.left_full(id, n) by {
        if b.players.has(id) {
            assert(c.left_full(id, b.left.len() as int));
            let i = choose|i: int|
                b.left.len() <= i < c.left.len() && #[trigger] c.left[i].0 == id
                    && !c.left[i].1.accepts();
            assert(c.left[i].0 == id);
        } else {
            assert(b.left_full(id, n));
            let i = choose|i: int|
                n <= i < b.left.len() && #[trigger] b.left[i].0 == id && !b.left[i].1.accepts();
            assert(c.left[i] == b.left[i]);
            assert(c.left[i].0 == id);
        }
    }
}

pub proof fn lemma_told_or_left_trans(a: World, b: World, c: World)
    requires
        a.only_told_or_left(b),
        b.only_told_or_left(c),
    ensures
        a.only_told_or_left(c),
{
    assert forall|id: u32| #![trigger c.players.has(id)] c.players.has(id) implies a.players.has(id)
        && c.players.at(id) == (PlayerModel {
        session: c.players.at(id).session,
        known: c.players.at(id).known,
        ..a.players.at(id)
    }) && extends(c.players.at(id).session.queue, a.players.at(id).session.queue) by {
        assert(b.players.has(id));
        let x = b.players.at(id).session.queue;
        let y = c.players.at(id).session.queue;
        assert forall|i: int| #![trigger y[i]] 0 <= i < a.players.at(
            id,
        ).session.queue.len() implies y[i] == a.players.at(id).session.queue[i] by {
            assert(y[i] == x[i]);
        }
    }
}

pub proof fn lemma_only_told_wf(a: World, b: World)
    requires
        a.wf(),
        a.only_told(b),
    ensures
        b.wf(),
{
    assert forall|id: u32| #[trigger] b.players.has(id) implies id < b.next_id by {
        assert(a.players.has(id));
    }
    assert forall|id: u32| #![trigger b.players.at(id)] b.players.has(id) implies b.players.at(id).wf() by {
        assert(a.players.has(id));
    }
}

/// Replacing a player by a well-formed one keeps the game well formed.
pub proof fn lemma_set_player(w: World, id: u32, p: PlayerModel)
    requires
        w.wf(),
        p.wf(),
    ensures
        w.set_player(id, p).wf(),
{
    law_set(w.players, id, p);
}

/// Replacing a monster keeps the game well formed.
pub proof fn lemma_set_monster(w: World, id: u32, m: MonsterModel)
    requires
        w.wf(),
    ensures
        w.set_monster(id, m).wf(),
{
    law_set(w.monsters, id, m);
}

/// Forgetting a creature only changes what clients know.
pub proof fn lemma_forget(w: World, id: u32, gone: u32)
    requires
        w.players.wf(),
    ensures
        w.only_told(w.forget(id, gone)),
        w.forget(id, gone).players.count() == w.players.count(),
{
    if w.players.has(id) {
        law_set(
            w.players,
            id,
            PlayerModel { known: w.players.at(id).known.remove(gone), ..w.players.at(id) },
        );
    }
}

/// Showing a creature only changes what clients know.
pub proof fn lemma_introduced(w: World, viewer: u32, target: u32)
    requires
        w.players.wf(),
    ensures
        w.only_told(w.introduced(viewer, target)),
{
    if w.can_introduce(viewer, target) {
        law_set(
            w.players,
            viewer,
            PlayerModel {
                known: w.players.at(viewer).known.insert(target),
                ..w.players.at(viewer)
            },
        );
    }
}

/// A message that may be lost only changes queues.
pub proof fn lemma_offer(w: World, id: u32, p: PacketModel)
    requires
        w.players.wf(),
    ensures
        w.only_told(w.offer(id, p)),
{
    if w.players.has(id) {
        law_set(
            w.players,
            id,
            PlayerModel { session: w.players.at(id).session.offered(p), ..w.players.at(id) },
        );
    }
}

proof fn lemma_push_within(w: World, id: u32, p: PacketModel, d1: nat, d2: nat, n: nat)
    requires
        w.players.wf(),
        w.players.count() <= n <= d1,
        n <= d2,
    ensures
        w.push_within(id, p, d1) == w.push_within(id, p, d2),
        w.only_told(w.push_within(id, p, d1)),
    decreases n, 0nat, 0nat,
{
    if w.players.has(id) {
        if w.players.at(id).session.accepts() {
            law_set(
                w.players,
                id,
                PlayerModel { session: w.players.at(id).session.sent(p), ..w.players.at(id) },
            );
        } else {
            assert(w.players.order.contains(id));
            lemma_logout_within(w, id, (d1 - 1) as nat, (d2 - 1) as nat, (n - 1) as nat);
            lemma_parted(w, id);
            lemma_only_told_trans(w, w.parted(id), w.push_within(id, p, d1));
        }
    }
}

/// A player whose session can take no more may leave.
proof fn lemma_parted(w: World, id: u32)
    requires
        w.players.wf(),
        w.players.has(id),
    ensures
        w.only_told_or_left(w.parted(id)),
        !w.players.at(id).session.accepts() ==> w.only_told(w.parted(id)),
{
    law_without(w.players, id);
    let u = w.parted(id);
    assert(u.left[w.left.len() as int].0 == id);
}

proof fn lemma_logout_within(w: World, id: u32, d1: nat, d2: nat, n: nat)
    requires
        w.players.wf(),
        w.players.has(id) ==> w.players.count() <= n + 1,
        n <= d1,
        n <= d2,
    ensures
        w.logout_within(id, d1) == w.logout_within(id, d2),
        w.only_told_or_left(w.logout_within(id, d1)),
        w.players.has(id) ==> w.parted(id).only_told(w.logout_within(id, d1)),
        w.players.has(id) ==> w.logout_within(id, d1).players.count() < w.players.count(),
    decreases n, 2nat, 0nat,
{
    if w.players.has(id) {
        law_without(w.players, id);
        let pos = w.players.at(id).position;
        let u = w.parted(id);
        lemma_parted(w, id);
        lemma_depart_within(u, w.spectators(pos, id), pos, id, d1, d2, n);
        lemma_told_or_left_trans(w, u, w.logout_within(id, d1));
    }
}

proof fn lemma_depart_within(
    w: World,
    ids: Seq<u32>,
    pos: Position,
    gone: u32,
    d1: nat,
    d2: nat,
    n: nat,
)
    requires
        w.players.wf(),
        w.players.count() <= n,
        n <= d1,
        n <= d2,
    ensures
        w.depart_within(ids, pos, gone, d1) == w.depart_within(ids, pos, gone, d2),
        w.only_told(w.depart_within(ids, pos, gone, d1)),
    decreases n, 1nat, ids.len(),
{
    if ids.len() > 0 {
        let s = ids[0];
        let removal = PacketModel::RemoveCreature { id: gone };
        lemma_push_within(w, s, puff(pos), d1, d2, n);
        let a = w.push_within(s, puff(pos), d1);
        lemma_push_within(a, s, removal, d1, d2, n);
        let b = a.push_within(s, removal, d1);
        lemma_forget(b, s, gone);
        let c = b.forget(s, gone);
        lemma_depart_within(c, ids.drop_first(), pos, gone, d1, d2, n);
        lemma_only_told_trans(w, a, b);
        lemma_only_told_trans(w, b, c);
        lemma_only_told_trans(w, c, c.depart_within(ids.drop_first(), pos, gone, d1));
    }
}

/// Telling a player something changes nothing but queues, what clients know, and who is
/// still there. The message is queued exactly where the session accepts it; otherwise the
/// player leaves.
pub proof fn law_push(w: World, id: u32, p: PacketModel)
    requires
        w.players.wf(),
    ensures
        w.only_told(w.push(id, p)),
        !w.players.has(id) ==> w.push(id, p) == w,
        w.players.has(id) && w.players.at(id).session.accepts() ==> w.push(id, p) == w.set_player(
            id,
            PlayerModel { session: w.players.at(id).session.sent(p), ..w.players.at(id) },
        ),
        w.players.has(id) && !w.players.at(id).session.accepts() ==> w.push(id, p) == w.logout(id),
{
    let n = w.players.count();
    lemma_push_within(w, id, p, n, n, n);
    if w.players.has(id) && !w.players.at(id).session.accepts() {
        assert(w.players.order.contains(id));
        lemma_logout_within(w, id, (n - 1) as nat, n, (n - 1) as nat);
    }
}

/// After a logout the player is gone; otherwise only sessions are told.
pub proof fn law_logout(w: World, id: u32)
    requires
        w.players.wf(),
    ensures
        w.only_told_or_left(w.logout(id)),
        w.players.has(id) ==> w.parted(id).only_told(w.logout(id)),
        !w.logout(id).players.has(id),
        !w.players.has(id) ==> w.logout(id) == w,
        w.players.has(id) ==> w.logout(id).players.count() < w.players.count(),
        w.players.has(id) ==> w.logout(id) == w.parted(id).depart(
            w.spectators(w.players.at(id).position, id),
            w.players.at(id).position,
            id,
        ),
{
    if w.players.has(id) {
        let n = w.players.count();
        assert(w.players.order.contains(id));
        lemma_logout_within(w, id, n, n, (n - 1) as nat);
        law_without(w.players, id);
        let pos = w.players.at(id).position;
        let u = w.parted(id);
        lemma_depart_within(u, w.spectators(pos, id), pos, id, n, (n - 1) as nat, (n - 1) as nat);
        assert(!u.players.has(id));
        assert(u.only_told(w.logout(id)));
    }
}

/// Telling players one after the other that someone left only tells them.
pub proof fn law_depart(w: World, ids: Seq<u32>, pos: Position, gone: u32)
    requires
        w.players.wf(),
    ensures
        w.only_told(w.depart(ids, pos, gone)),
        ids.len() > 0 ==> w.depart(ids, pos, gone) == w.push(ids[0], puff(pos)).push(
            ids[0],
            PacketModel::RemoveCreature { id: gone },
        ).forget(ids[0], gone).depart(ids.drop_first(), pos, gone),
        ids.len() == 0 ==> w.depart(ids, pos, gone) == w,
{
    let n = w.players.count();
    lemma_depart_within(w, ids, pos, gone, n, n, n);
    if ids.len() > 0 {
        let s = ids[0];
        let removal = PacketModel::RemoveCreature { id: gone };
        lemma_push_within(w, s, puff(pos), n, n, n);
        let a = w.push_within(s, puff(pos), n);
        lemma_push_within(a, s, removal, n, a.players.count(), a.players.count());
        let b = a.push_within(s, removal, n);
        lemma_forget(b, s, gone);
        let c = b.forget(s, gone);
        lemma_depart_within(
            c,
            ids.drop_first(),
            pos,
            gone,
            n,
            c.players.count(),
            c.players.count(),
        );
    }
}

/// One message to each of several players only tells them.
pub proof fn law_push_all(w: World, ids: Seq<u32>, p: PacketModel)
    requires
        w.players.wf(),
    ensures
        w.only_told(w.push_all(ids, p)),
    decreases ids.len(),
{
    if ids.len() > 0 {
        law_push(w, ids[0], p);
        let u = w.push(ids[0], p);
        law_push_all(u, ids.drop_first(), p);
        lemma_only_told_trans(w, u, w.push_all(ids, p));
    }
}

/// Showing a creature to players only tells them.
pub proof fn law_shown_to(w: World, ids: Seq<u32>, who: u32, pos: Position)
    requires
        w.players.wf(),
    ensures
        w.only_told(w.shown_to(ids, who, pos)),
    decreases ids.len(),
{
    if ids.len() > 0 {
        let s = ids[0];
        if w.can_introduce(s, who) {
            let a = w.introduced(s, who);
            let p = PacketModel::AddTileCreature {
                position: pos,
                stackpos: a.stackpos_on(pos, who),
                creature: w.shown(s, who),
            };
            lemma_introduced(w, s, who);
            law_push(a, s, p);
            lemma_only_told_trans(w, a, a.push(s, p));
            law_shown_to(a.push(s, p), ids.drop_first(), who, pos);
            lemma_only_told_trans(w, a.push(s, p), w.shown_to(ids, who, pos));
        } else {
            law_shown_to(w, ids.drop_first(), who, pos);
        }
    }
}

/// Telling players that a creature is gone only tells them.
pub proof fn law_gone_told(w: World, ids: Seq<u32>, gone: u32)
    requires
        w.players.wf(),
    ensures
        w.only_told(w.gone_told(ids, gone)),
    decreases ids.len(),
{
    if ids.len() > 0 {
        let p = PacketModel::RemoveCreature { id: gone };
        law_push(w, ids[0], p);
        let a = w.push(ids[0], p);
        lemma_forget(a, ids[0], gone);
        let b = a.forget(ids[0], gone);
        lemma_only_told_trans(w, a, b);
        law_gone_told(b, ids.drop_first(), gone);
        lemma_only_told_trans(w, b, w.gone_told(ids, gone));
    }
}

/// Two players see each other's tiles in the same way from both ends: one is among those that
/// the other sees exactly if the other is among those who watch it.
pub proof fn law_sight_is_dual(w: World, a: u32, b: u32)
    requires
        w.wf(),
        w.players.has(a),
        w.players.has(b),
    ensures
        w.visible_from(w.players.at(b).position, b).contains(a) <==> w.spectators(
            w.players.at(a).position,
            a,
        ).contains(b),
{
    let f = w.seen(w.players.at(b).position, b);
    let g = w.watcher(w.players.at(a).position, a);
    let order = w.players.order;
    assert(order.contains(a) && order.contains(b));
    if f(a) {
        order.lemma_filter_contains(f, order.index_of(a));
    }
    if g(b) {
        order.lemma_filter_contains(g, order.index_of(b));
    }
    if order.filter(f).contains(a) {
        lemma_filter_from(order, f, a);
    }
    if order.filter(g).contains(b) {
        lemma_filter_from(order, g, b);
    }
}

/// A creature that a client has been shown is known to it from then on.
pub proof fn law_shown_is_known(w: World, viewer: u32, target: u32)
    requires
        w.wf(),
        w.can_introduce(viewer, target),
    ensures
        w.introduced(viewer, target).can_introduce(viewer, target),
        w.introduced(viewer, target).shown(viewer, target).known,
{
    lemma_introduced(w, viewer, target);
}

/// A creature that a client was made to forget is introduced to it in full.
pub proof fn law_forgotten_is_unknown(w: World, viewer: u32, target: u32)
    requires
        w.wf(),
        w.can_introduce(viewer, target),
    ensures
        !w.forget(viewer, target).shown(viewer, target).known,
{
    lemma_forget(w, viewer, target);
}

/// Sorting puts each number behind those that are not greater, and keeps them all.
pub proof fn law_insert_ascending(s: Seq<u32>, x: u32)
    requires
        forall|i: int, j: int| 0 <= i <= j < s.len() ==> s[i] <= s[j],
    ensures
        forall|i: int, j: int|
            0 <= i <= j < insert_ascending(s, x).len() ==> insert_ascending(s, x)[i]
                <= insert_ascending(s, x)[j],
        insert_ascending(s, x).to_multiset() == s.to_multiset().insert(x),
        insert_ascending(s, x).len() == s.len() + 1,
        forall|i: int|
            0 <= i < insert_ascending(s, x).len() ==> (#[trigger] insert_ascending(s, x)[i] <= x
                || (s.len() > 0 && insert_ascending(s, x)[i] <= s.last())),
    decreases s.len(),
{
    broadcast use vstd::seq_lib::group_to_multiset_ensures;

    if s.len() > 0 && s.last() > x {
        let rest = s.drop_last();
        law_insert_ascending(rest, x);
        let head = insert_ascending(rest, x);
        let all = head.push(s.last());
        assert(rest.push(s.last()) =~= s);
        assert forall|i: int, j: int| 0 <= i <= j < all.len() implies all[i] <= all[j] by {
            if j == head.len() && i < j {
                assert(head[i] <= x || head[i] <= rest.last());
            }
        }
        assert(all.to_multiset() =~= rest.to_multiset().insert(x).insert(s.last()));
        assert(s.to_multiset() =~= rest.to_multiset().insert(s.last()));
        assert(all.to_multiset() =~= s.to_multiset().insert(x));
    }
}

/// Sorting orders the numbers and keeps them all.
pub proof fn law_ascending(s: Seq<u32>)
    ensures
        forall|i: int, j: int| 0 <= i <= j < ascending(s).len() ==> ascending(s)[i] <= ascending(s)[j],
        ascending(s).to_multiset() == s.to_multiset(),
        ascending(s).len() == s.len(),
    decreases s.len(),
{
    broadcast use vstd::seq_lib::group_to_multiset_ensures;

    if s.len() > 0 {
        law_ascending(s.drop_last());
        law_insert_ascending(ascending(s.drop_last()), s.last());
        assert(s.drop_last().push(s.last()) =~= s);
    }
}

proof fn lemma_search(w: World, origin: Position, exclude: u32, r: int, dy: int, dx: int)
    requires
        1 <= r,
        -r <= dy,
        -r <= dx,
    ensures
        w.search(origin, exclude, r, dy, dx) == origin || w.is_free(
            w.search(origin, exclude, r, dy, dx),
            exclude,
        ),
    decreases 6 - r, r + 1 - dy, r + 1 - dx,
{
    if r > 5 {
    } else if dy > r {
        lemma_search(w, origin, exclude, r + 1, -(r + 1), -(r + 1));
    } else if dx > r {
        lemma_search(w, origin, exclude, r, dy + 1, -r);
    } else if !w.usable(origin, exclude, r, dy, dx) {
        lemma_search(w, origin, exclude, r, dy, dx + 1);
    }
}

proof fn lemma_search_finds(
    w: World,
    origin: Position,
    exclude: u32,
    r: int,
    dy: int,
    dx: int,
    goal_r: int,
    goal_dy: int,
    goal_dx: int,
)
    requires
        1 <= r <= goal_r <= 5,
        -r <= dy,
        -r <= dx,
        -goal_r <= goal_dy <= goal_r,
        -goal_r <= goal_dx <= goal_r,
        r == goal_r ==> dy <= goal_dy && (dy == goal_dy ==> dx <= goal_dx),
        w.usable(origin, exclude, goal_r, goal_dy, goal_dx),
    ensures
        w.is_free(w.search(origin, exclude, r, dy, dx), exclude),
    decreases 6 - r, r + 1 - dy, r + 1 - dx,
{
    if dy > r {
        lemma_search_finds(
            w,
            origin,
            exclude,
            r + 1,
            -(r + 1),
            -(r + 1),
            goal_r,
            goal_dy,
            goal_dx,
        );
    } else if dx > r {
        lemma_search_finds(w, origin, exclude, r, dy + 1, -r, goal_r, goal_dy, goal_dx);
    } else if !w.usable(origin, exclude, r, dy, dx) {
        lemma_search_finds(w, origin, exclude, r, dy, dx + 1, goal_r, goal_dy, goal_dx);
    }
}

/// Whoever enters the game does so on a free tile if one is at most five tiles away on both
/// axes, and otherwise where it wanted to.
pub proof fn law_arrivals_find_free_tiles(w: World, origin: Position, exclude: u32, dx: int, dy: int)
    requires
        -5 <= dx <= 5,
        -5 <= dy <= 5,
    ensures
        w.free_near(origin, exclude) == origin || w.is_free(w.free_near(origin, exclude), exclude),
        (origin.shifted(dx, dy) matches Some(p) && w.is_free(p, exclude)) ==> w.is_free(
            w.free_near(origin, exclude),
            exclude,
        ),
{
    lemma_search(w, origin, exclude, 1, -1, -1);
    if origin.shifted(dx, dy) matches Some(p) && w.is_free(p, exclude) {
        let r = if gap(0, dx) >= gap(0, dy) { gap(0, dx) } else { gap(0, dy) };
        if r == 0 {
            assert(origin.shifted(dx, dy) == Some(origin));
        } else {
            assert(w.usable(origin, exclude, r, dy, dx));
            lemma_search_finds(w, origin, exclude, 1, -1, -1, r, dy, dx);
        }
    }
}

} // verus!
