//! Questions about the game that many commands ask, and the messages they answer with.

use vstd::prelude::*;
use vstd::string::StrSliceExecFns;

use super::model::ascending;
use super::model::insert_ascending;
use super::model::lemma_forget;
use super::model::lemma_introduced;
use super::model::lemma_offer;
use super::model::lemma_only_told_trans;
use super::model::World;
use super::monster::health_percent_of;
use super::overlay_view;
use super::state::PlayerModel;
use super::Game;
use super::MSG_CONSOLE_BLUE;
use super::MSG_INFO_DESCR;
use super::MSG_STATUS_SMALL;
use crate::map::grid::key_of;
use crate::map::grid::tile_key;
use crate::map::sight::distance;
use crate::map::TileStack;
use crate::registry::law_set;
use crate::registry::lemma_filter_step;
use crate::text::capped_bytes;
use crate::wire::CreatureThing;
use crate::wire::Outfit;
use crate::wire::Packet;
use crate::Position;

verus! {

broadcast use vstd::std_specs::hash::group_hash_axioms;

fn insert_id(v: &mut Vec<u32>, x: u32)
    ensures
        final(v)@ == insert_ascending(old(v)@, x),
{
    let mut i: usize = v.len();
    assert(v@.take(i as int) =~= v@);
    assert(insert_ascending(v@, x) + v@.skip(i as int) =~= insert_ascending(v@, x));
    while i > 0 && v[i - 1] > x
        invariant
            i <= v@.len(),
            v@ == old(v)@,
            insert_ascending(v@, x) == insert_ascending(v@.take(i as int), x) + v@.skip(i as int),
        decreases i,
    {
        let ghost head = v@.take(i as int);
        assert(head.drop_last() =~= v@.take(i - 1));
        assert(insert_ascending(v@.take(i - 1), x).push(v@[i - 1]) + v@.skip(i as int)
            =~= insert_ascending(v@.take(i - 1), x) + v@.skip(i - 1));
        i = i - 1;
    }
    v.insert(i, x);
    assert(v@ =~= old(v)@.take(i as int).push(x) + old(v)@.skip(i as int));
}

/// The numbers of `v` in ascending order.
pub fn sort_ids(v: &Vec<u32>) -> (r: Vec<u32>)
    ensures
        r@ == ascending(v@),
{
    let mut r: Vec<u32> = Vec::new();
    let mut i: usize = 0;
    assert(v@.take(0) =~= Seq::empty());
    while i < v.len()
        invariant
            i <= v@.len(),
            r@ == ascending(v@.take(i as int)),
        decreases v@.len() - i,
    {
        assert(v@.take(i + 1).drop_last() =~= v@.take(i as int));
        insert_id(&mut r, v[i]);
        i = i + 1;
    }
    assert(v@.take(v@.len() as int) =~= v@);
    r
}

impl Game {
    /// Ids of players a viewer standing at `viewer` can see, excluding `exclude`. Ghosts are
    /// listed only where `exclude` is a gamemaster.
    pub fn visible_from(&self, viewer: Position, exclude: u32) -> (r: Vec<u32>)
        requires
            self.wf(),
        ensures
            r@ == self@.visible_from(viewer, exclude),
    {
        let gm = match self.players.get(exclude) {
            Some(p) => p.gamemaster,
            None => false,
        };
        let ghost order = self.players@.order;
        let ghost f = self@.seen(viewer, exclude);
        let mut r: Vec<u32> = Vec::new();
        assert(order.take(0).filter(f) =~= Seq::empty()) by {
            reveal(Seq::filter);
        }
        let mut i: usize = 0;
        while i < self.players.len()
            invariant
                self.wf(),
                i <= order.len(),
                order == self.players@.order,
                gm == (self.players@.has(exclude) && self.players@.at(exclude).gamemaster),
                f == self@.seen(viewer, exclude),
                r@ == order.take(i as int).filter(f),
            decreases order.len() - i,
        {
            let id = self.players.id_at(i);
            let p = self.players.entry_at(i);
            proof {
                lemma_filter_step(order, i as int, f);
            }
            if id != exclude && Game::can_see(viewer, p.position) && (gm || !p.is_ghost) {
                r.push(id);
            }
            i = i + 1;
        }
        assert(order.take(order.len() as int) =~= order);
        r
    }

    /// Ids of monsters whose position is visible from `viewer`.
    pub fn monsters_visible_from(&self, viewer: Position) -> (r: Vec<u32>)
        requires
            self.wf(),
        ensures
            r@ == self@.monsters_visible_from(viewer),
    {
        let ghost order = self.monsters@.order;
        let ghost f = self@.monster_seen(viewer);
        let mut r: Vec<u32> = Vec::new();
        assert(order.take(0).filter(f) =~= Seq::empty()) by {
            reveal(Seq::filter);
        }
        let mut i: usize = 0;
        while i < self.monsters.len()
            invariant
                self.wf(),
                i <= order.len(),
                order == self.monsters@.order,
                f == self@.monster_seen(viewer),
                r@ == order.take(i as int).filter(f),
            decreases order.len() - i,
        {
            let id = self.monsters.id_at(i);
            let m = self.monsters.entry_at(i);
            proof {
                lemma_filter_step(order, i as int, f);
            }
            if Game::can_see(viewer, m.position) {
                r.push(id);
            }
            i = i + 1;
        }
        assert(order.take(order.len() as int) =~= order);
        r
    }

    /// Ids of players within (`rx`, `ry`) tiles of `pos` on the same floor, excluding
    /// `exclude`.
    pub fn spectators_in_range(&self, pos: Position, exclude: u32, rx: i32, ry: i32) -> (r: Vec<u32>)
        requires
            self.wf(),
        ensures
            r@ == self@.in_range(pos, exclude, rx as int, ry as int),
    {
        let ghost order = self.players@.order;
        let ghost f = self@.near(pos, exclude, rx as int, ry as int);
        let mut r: Vec<u32> = Vec::new();
        assert(order.take(0).filter(f) =~= Seq::empty()) by {
            reveal(Seq::filter);
        }
        let mut i: usize = 0;
        while i < self.players.len()
            invariant
                self.wf(),
                i <= order.len(),
                order == self.players@.order,
                f == self@.near(pos, exclude, rx as int, ry as int),
                r@ == order.take(i as int).filter(f),
            decreases order.len() - i,
        {
            let id = self.players.id_at(i);
            let p = self.players.entry_at(i);
            proof {
                lemma_filter_step(order, i as int, f);
            }
            if id != exclude && p.position.z == pos.z && distance(p.position.x, pos.x) <= rx
                && distance(p.position.y, pos.y) <= ry {
                r.push(id);
            }
            i = i + 1;
        }
        assert(order.take(order.len() as int) =~= order);
        r
    }

    /// Does any creature (player or monster) exist with this id?
    pub fn creature_exists(&self, id: u32) -> (r: bool)
        requires
            self.wf(),
        ensures
            r == self@.creature_exists(id),
    {
        self.players.contains(id) || self.monsters.contains(id)
    }

    /// Look up any creature's position.
    pub fn creature_position(&self, id: u32) -> (r: Option<Position>)
        requires
            self.wf(),
        ensures
            r == self@.creature_position(id),
    {
        match self.players.get(id) {
            Some(p) => Some(p.position),
            None => match self.monsters.get(id) {
                Some(m) => Some(m.position),
                None => None,
            },
        }
    }

    /// Look up any creature's name, players first.
    pub fn creature_name(&self, id: u32) -> (r: Option<&String>)
        requires
            self.wf(),
        ensures
            self@.creature_name(id) == (match r {
                Some(s) => Some(s@),
                None => None,
            }),
    {
        match self.players.get(id) {
            Some(p) => Some(&p.name),
            None => match self.monsters.get(id) {
                Some(m) => Some(&m.name),
                None => None,
            },
        }
    }

    /// Walk speed of any creature, 200 where there is none.
    pub fn creature_speed(&self, id: u32) -> (r: u16)
        requires
            self.wf(),
        ensures
            r == (if self@.players.has(id) {
                self@.players.at(id).speed
            } else if self@.monsters.has(id) {
                self@.monsters.at(id).speed
            } else {
                200
            }),
    {
        match self.players.get(id) {
            Some(p) => p.speed,
            None => match self.monsters.get(id) {
                Some(m) => m.speed,
                None => 200,
            },
        }
    }

    /// Build what `viewer` is shown of `target`, the short form if its client knows the
    /// target already, and record that it now does. `None` if either is gone; the viewer
    /// must be a player.
    pub fn introduce(&mut self, viewer: u32, target: u32) -> (r: Option<CreatureThing>)
        requires
            old(self).wf(),
        ensures
            final(self).wf(),
            final(self)@ == old(self)@.introduced(viewer, target),
            match r {
                Some(c) => old(self)@.can_introduce(viewer, target) && c@ == old(self)@.shown(
                    viewer,
                    target,
                ),
                None => !old(self)@.can_introduce(viewer, target),
            },
    {
        let mut thing = match self.players.get(target) {
            Some(p) => CreatureThing {
                known: false,
                id: target,
                name: p.name.clone(),
                health_percent: health_percent_of(p.health, p.max_health),
                direction: p.direction.to_byte(),
                outfit: p.outfit,
                speed: p.speed,
                creature_type: 0,
                walkthrough: if p.is_ghost {
                    1
                } else {
                    0
                },
            },
            None => match self.monsters.get(target) {
                Some(m) => CreatureThing {
                    known: false,
                    id: target,
                    name: m.name.clone(),
                    health_percent: m.health_percent(),
                    direction: m.direction.to_byte(),
                    outfit: Outfit {
                        look_type: m.look_type,
                        head: 0,
                        body: 0,
                        legs: 0,
                        feet: 0,
                        addons: 0,
                        mount: 0,
                    },
                    speed: m.speed,
                    creature_type: 1,
                    walkthrough: 0,
                },
                None => {
                    return None;
                },
            },
        };
        proof {
            if self.players@.has(viewer) {
                law_set(
                    self.players@,
                    viewer,
                    PlayerModel {
                        known: self.players@.at(viewer).known.insert(target),
                        ..self.players@.at(viewer)
                    },
                );
            }
        }
        match self.players.get_mut(viewer) {
            Some(v) => {
                let fresh = v.known.insert(target);
                thing.known = !fresh;
            },
            None => {
                return None;
            },
        }
        Some(thing)
    }

    /// Is a player other than `exclude` standing on `pos`?
    pub fn tile_occupied(&self, pos: Position, exclude: u32) -> (r: bool)
        requires
            self.wf(),
        ensures
            r == self@.occupied(pos, exclude),
    {
        let ghost order = self.players@.order;
        let mut i: usize = 0;
        while i < self.players.len()
            invariant
                self.wf(),
                i <= order.len(),
                order == self.players@.order,
                forall|j: int|
                    0 <= j < i ==> !((#[trigger] order[j]) != exclude && self.players@.at(
                        order[j],
                    ).position == pos),
            decreases order.len() - i,
        {
            let id = self.players.id_at(i);
            let p = self.players.entry_at(i);
            if id != exclude && p.position == pos {
                assert(self@.players.has(id));
                return true;
            }
            i = i + 1;
        }
        proof {
            if self@.occupied(pos, exclude) {
                let id = choose|id: u32| #[trigger]
                    self@.players.has(id) && id != exclude && self@.players.at(id).position == pos;
                assert(order.contains(id));
                let j = order.index_of(id);
                assert(order[j] == id);
            }
        }
        false
    }

    fn count_on(&self, pos: Position, exclude: Option<u32>) -> (n: usize)
        requires
            self.wf(),
        ensures
            n == (if self@.crowd(pos, exclude) <= 10 {
                self@.crowd(pos, exclude)
            } else {
                10
            }),
    {
        let ps = self.players_on(pos, exclude);
        let ms = self.monsters_on(pos, exclude);
        if ps.len() > 10 || ms.len() > 10 || ps.len() + ms.len() > 10 {
            10
        } else {
            ps.len() + ms.len()
        }
    }

    fn players_on(&self, pos: Position, exclude: Option<u32>) -> (r: Vec<u32>)
        requires
            self.wf(),
        ensures
            r@ == self@.players.order.filter(self@.player_on(pos, exclude)),
    {
        let ghost order = self.players@.order;
        let ghost f = self@.player_on(pos, exclude);
        let mut r: Vec<u32> = Vec::new();
        assert(order.take(0).filter(f) =~= Seq::empty()) by {
            reveal(Seq::filter);
        }
        let mut i: usize = 0;
        while i < self.players.len()
            invariant
                self.wf(),
                i <= order.len(),
                order == self.players@.order,
                f == self@.player_on(pos, exclude),
                r@ == order.take(i as int).filter(f),
            decreases order.len() - i,
        {
            let id = self.players.id_at(i);
            let p = self.players.entry_at(i);
            proof {
                lemma_filter_step(order, i as int, f);
            }
            let other = match exclude {
                Some(e) => id != e,
                None => true,
            };
            if other && p.position == pos {
                r.push(id);
            }
            i = i + 1;
        }
        assert(order.take(order.len() as int) =~= order);
        r
    }

    fn monsters_on(&self, pos: Position, exclude: Option<u32>) -> (r: Vec<u32>)
        requires
            self.wf(),
        ensures
            r@ == self@.monsters.order.filter(self@.monster_on(pos, exclude)),
    {
        let ghost order = self.monsters@.order;
        let ghost f = self@.monster_on(pos, exclude);
        let mut r: Vec<u32> = Vec::new();
        assert(order.take(0).filter(f) =~= Seq::empty()) by {
            reveal(Seq::filter);
        }
        let mut i: usize = 0;
        while i < self.monsters.len()
            invariant
                self.wf(),
                i <= order.len(),
                order == self.monsters@.order,
                f == self@.monster_on(pos, exclude),
                r@ == order.take(i as int).filter(f),
            decreases order.len() - i,
        {
            let id = self.monsters.id_at(i);
            let m = self.monsters.entry_at(i);
            proof {
                lemma_filter_step(order, i as int, f);
            }
            let other = match exclude {
                Some(e) => id != e,
                None => true,
            };
            if other && m.position == pos {
                r.push(id);
            }
            i = i + 1;
        }
        assert(order.take(order.len() as int) =~= order);
        r
    }

    /// Ids of monsters standing on `pos`.
    pub fn monsters_at(&self, pos: Position) -> (r: Vec<u32>)
        requires
            self.wf(),
        ensures
            r@ == self@.monsters.order.filter(self@.monster_on(pos, None)),
    {
        self.monsters_on(pos, None)
    }

    /// The stack position that a creature with id `exclude` occupies on `pos`, above the
    /// tile's base and the other creatures there, 10 at most.
    pub fn creature_stackpos_on(&self, pos: Position, exclude: u32) -> (r: u8)
        requires
            self.wf(),
        ensures
            r == self@.stackpos_on(pos, exclude),
    {
        let base: usize = self.map.creature_stackpos(pos) as usize;
        let others: usize = self.count_on(pos, Some(exclude));
        let n: usize = base + others;
        if n <= 10 {
            n as u8
        } else {
            10
        }
    }

    /// Ids of creatures (players and monsters) standing on `pos`, in id order.
    pub fn creatures_on(&self, pos: Position) -> (r: Vec<u32>)
        requires
            self.wf(),
        ensures
            r@ == self@.creatures_on(pos),
    {
        let mut all = self.players_on(pos, None);
        let mut ms = self.monsters_on(pos, None);
        all.append(&mut ms);
        sort_ids(&all)
    }

    /// The spawn tile, or the nearest walkable and unoccupied tile in expanding square rings
    /// around it. Falls back to the spawn itself if nothing free is found.
    pub fn free_spawn(&self) -> (p: Position)
        requires
            self.wf(),
        ensures
            p == self@.free_near(self@.map.spawn_point(), u32::MAX),
    {
        self.free_spawn_near(self.map.spawn(), u32::MAX)
    }

    /// `origin`, or the nearest walkable tile around it on which no player other than
    /// `exclude` stands. Falls back to `origin` if nothing free is found.
    pub fn free_spawn_near(&self, origin: Position, exclude: u32) -> (p: Position)
        requires
            self.wf(),
        ensures
            p == self@.free_near(origin, exclude),
    {
        if self.map.is_walkable(origin) && !self.tile_occupied(origin, exclude) {
            return origin;
        }
        let mut r: i32 = 1;
        while r <= 5
            invariant
                self.wf(),
                1 <= r <= 6,
                self@.free_near(origin, exclude) == self@.search(
                    origin,
                    exclude,
                    r as int,
                    -r as int,
                    -r as int,
                ),
            decreases 6 - r,
        {
            let mut dy: i32 = -r;
            while dy <= r
                invariant
                    self.wf(),
                    1 <= r <= 5,
                    -r <= dy <= r + 1,
                    self@.free_near(origin, exclude) == self@.search(
                        origin,
                        exclude,
                        r as int,
                        dy as int,
                        -r as int,
                    ),
                decreases r + 1 - dy,
            {
                let mut dx: i32 = -r;
                while dx <= r
                    invariant
                        self.wf(),
                        1 <= r <= 5,
                        -r <= dy <= r,
                        -r <= dx <= r + 1,
                        self@.free_near(origin, exclude) == self@.search(
                            origin,
                            exclude,
                            r as int,
                            dy as int,
                            dx as int,
                        ),
                    decreases r + 1 - dx,
                {
                    if dx == r || dx == -r || dy == r || dy == -r {
                        match origin.offset(dx, dy) {
                            Some(p) => {
                                if self.map.is_walkable(p) && !self.tile_occupied(p, exclude) {
                                    return p;
                                }
                            },
                            None => {},
                        }
                    }
                    dx = dx + 1;
                }
                dy = dy + 1;
            }
            r = r + 1;
        }
        origin
    }

    /// Ensure that `pos` has a stack of its own in the overlay, copying that of the map on
    /// first touch. `false` if the tile has no stack at all.
    pub fn materialize(&mut self, pos: Position) -> (ok: bool)
        requires
            old(self).wf(),
        ensures
            final(self).wf(),
            final(self)@ == old(self)@.materialized(pos),
            ok == (old(self)@.stack(pos) is Some),
            ok ==> final(self)@.changed(pos) == old(self)@.stack(pos),
    {
        let key = key_of(pos);
        if self.dynamic.contains_key(&key) {
            return true;
        }
        match self.map.tile_stack_clone(pos) {
            Some(st) => {
                assert(self.map.stack_at(pos) == Some(st@));
                self.dynamic.insert(key, st);
                assert(overlay_view(self.dynamic@) =~= overlay_view(old(self).dynamic@).insert(
                    key,
                    st@,
                ));
                true
            },
            None => false,
        }
    }

    /// Replace the stack of a changed tile.
    pub fn put_stack(&mut self, pos: Position, st: TileStack)
        requires
            old(self).wf(),
            st@.wf(),
        ensures
            final(self).wf(),
            final(self)@ == old(self)@.with_stack(pos, st@),
    {
        let key = key_of(pos);
        self.dynamic.insert(key, st);
        assert(overlay_view(self.dynamic@) =~= overlay_view(old(self).dynamic@).insert(key, st@));
    }

    /// Take the stack of a changed tile out, to be put back changed.
    pub fn take_stack(&mut self, pos: Position) -> (r: Option<TileStack>)
        requires
            old(self).wf(),
        ensures
            final(self).wf(),
            match r {
                Some(st) => old(self)@.changed(pos) == Some(st@) && final(self)@ == (World {
                    overlay: old(self)@.overlay.remove(tile_key(pos)),
                    ..old(self)@
                }),
                None => old(self)@.changed(pos) is None && final(self)@ == old(self)@,
            },
    {
        let key = key_of(pos);
        let r = self.dynamic.remove(&key);
        match &r {
            Some(st) => {
                assert(overlay_view(self.dynamic@) =~= overlay_view(old(self).dynamic@).remove(
                    key,
                ));
            },
            None => {
                assert(overlay_view(self.dynamic@) =~= overlay_view(old(self).dynamic@));
                assert(self@ =~= old(self)@);
            },
        }
        r
    }

    /// The runtime stack of a tile that has been changed.
    pub fn changed_stack(&self, pos: Position) -> (r: Option<&TileStack>)
        requires
            self.wf(),
        ensures
            self@.changed(pos) == (match r {
                Some(st) => Some(st@),
                None => None,
            }),
    {
        self.dynamic.get(&key_of(pos))
    }

    /// The stack of a tile as it is now.
    pub fn tile(&self, pos: Position) -> (r: Option<&TileStack>)
        requires
            self.wf(),
        ensures
            self@.stack(pos) == (match r {
                Some(st) => Some(st@),
                None => None,
            }),
    {
        match self.dynamic.get(&key_of(pos)) {
            Some(st) => Some(st),
            None => self.map.tile(pos),
        }
    }

    /// Server id at stack index `idx` on `pos` (runtime changes win over the map).
    pub fn merged_server_id(&self, pos: Position, idx: usize) -> (r: Option<u16>)
        requires
            self.wf(),
        ensures
            r == (match self@.thing(pos, idx as int) {
                Some(t) => Some(t.server_id),
                None => None,
            }),
    {
        match self.tile(pos) {
            Some(st) => if idx < st.things.len() {
                Some(st.things[idx].server_id)
            } else {
                None
            },
            None => None,
        }
    }

    /// Stack count at stack index `idx` on `pos` (runtime changes win over the map).
    pub fn merged_count(&self, pos: Position, idx: usize) -> (r: Option<u8>)
        requires
            self.wf(),
        ensures
            r == (match self@.thing(pos, idx as int) {
                Some(t) => t.count,
                None => None,
            }),
    {
        match self.tile(pos) {
            Some(st) => if idx < st.things.len() {
                st.things[idx].count
            } else {
                None
            },
            None => None,
        }
    }

    /// Items below a creature on `pos` (runtime changes win over the map).
    pub fn merged_pre_creature_len(&self, pos: Position) -> (n: usize)
        requires
            self.wf(),
        ensures
            n == self@.pre(pos),
    {
        match self.tile(pos) {
            Some(st) => st.pre_creature_len,
            None => 0,
        }
    }

    /// One message to each of `ids` in turn.
    pub fn push_all(&mut self, ids: &Vec<u32>, packet: &Packet)
        requires
            old(self).wf(),
        ensures
            final(self).wf(),
            final(self)@ == old(self)@.push_all(ids@, packet@),
            old(self)@.only_told(final(self)@),
    {
        let mut i: usize = 0;
        assert(ids@.skip(0) =~= ids@);
        while i < ids.len()
            invariant
                i <= ids@.len(),
                self.wf(),
                old(self)@.only_told(self@),
                old(self)@.push_all(ids@, packet@) == self@.push_all(ids@.skip(i as int), packet@),
            decreases ids@.len() - i,
        {
            assert(ids@.skip(i as int).drop_first() =~= ids@.skip(i + 1));
            let ghost before = self@;
            self.push(ids[i], packet.copy());
            proof {
                lemma_only_told_trans(old(self)@, before, self@);
            }
            i = i + 1;
        }
    }

    /// One message to each of `ids`, lost where a session cannot take it.
    pub fn offer_all(&mut self, ids: &Vec<u32>, packet: &Packet)
        requires
            old(self).wf(),
        ensures
            final(self).wf(),
            final(self)@ == old(self)@.offer_all(ids@, packet@),
            old(self)@.only_told(final(self)@),
    {
        let mut i: usize = 0;
        assert(ids@.skip(0) =~= ids@);
        while i < ids.len()
            invariant
                i <= ids@.len(),
                self.wf(),
                old(self)@.only_told(self@),
                old(self)@.offer_all(ids@, packet@) == self@.offer_all(
                    ids@.skip(i as int),
                    packet@,
                ),
            decreases ids@.len() - i,
        {
            assert(ids@.skip(i as int).drop_first() =~= ids@.skip(i + 1));
            let ghost before = self@;
            self.offer(ids[i], packet.copy());
            proof {
                lemma_only_told_trans(old(self)@, before, self@);
            }
            i = i + 1;
        }
    }

    /// Show creature `who` on `pos` to each of `ids`.
    pub fn show_creature(&mut self, ids: &Vec<u32>, who: u32, pos: Position)
        requires
            old(self).wf(),
        ensures
            final(self).wf(),
            final(self)@ == old(self)@.shown_to(ids@, who, pos),
            old(self)@.only_told(final(self)@),
    {
        let mut i: usize = 0;
        assert(ids@.skip(0) =~= ids@);
        while i < ids.len()
            invariant
                i <= ids@.len(),
                self.wf(),
                old(self)@.only_told(self@),
                old(self)@.shown_to(ids@, who, pos) == self@.shown_to(
                    ids@.skip(i as int),
                    who,
                    pos,
                ),
            decreases ids@.len() - i,
        {
            assert(ids@.skip(i as int).drop_first() =~= ids@.skip(i + 1));
            let s: u32 = ids[i];
            let ghost before = self@;
            proof {
                lemma_introduced(self@, s, who);
                lemma_only_told_trans(old(self)@, before, before.introduced(s, who));
            }
            match self.introduce(s, who) {
                Some(creature) => {
                    let stackpos: u8 = self.creature_stackpos_on(pos, who);
                    let ghost mid = self@;
                    self.push(s, Packet::AddTileCreature { position: pos, stackpos, creature });
                    proof {
                        lemma_only_told_trans(old(self)@, mid, self@);
                    }
                },
                None => {},
            }
            i = i + 1;
        }
    }

    /// Tell each of `ids` that creature `gone` is gone.
    pub fn tell_gone(&mut self, ids: &Vec<u32>, gone: u32)
        requires
            old(self).wf(),
        ensures
            final(self).wf(),
            final(self)@ == old(self)@.gone_told(ids@, gone),
            old(self)@.only_told(final(self)@),
    {
        let mut i: usize = 0;
        assert(ids@.skip(0) =~= ids@);
        while i < ids.len()
            invariant
                i <= ids@.len(),
                self.wf(),
                old(self)@.only_told(self@),
                old(self)@.gone_told(ids@, gone) == self@.gone_told(ids@.skip(i as int), gone),
            decreases ids@.len() - i,
        {
            assert(ids@.skip(i as int).drop_first() =~= ids@.skip(i + 1));
            let ghost a = self@;
            self.push(ids[i], Packet::RemoveCreature { id: gone });
            let ghost b = self@;
            self.forget(ids[i], gone);
            proof {
                lemma_only_told_trans(old(self)@, a, b);
                lemma_forget(b, ids@[i as int], gone);
                lemma_only_told_trans(old(self)@, b, self@);
            }
            i = i + 1;
        }
    }

    /// A message that is lost where the session cannot take it.
    pub fn offer(&mut self, id: u32, packet: Packet)
        requires
            old(self).wf(),
        ensures
            final(self).wf(),
            final(self)@ == old(self)@.offer(id, packet@),
            old(self)@.only_told(final(self)@),
    {
        proof {
            lemma_offer(self@, id, packet@);
            if self.players@.has(id) {
                law_set(
                    self.players@,
                    id,
                    PlayerModel {
                        session: self.players@.at(id).session.offered(packet@),
                        ..self.players@.at(id)
                    },
                );
            }
        }
        match self.players.get_mut(id) {
            Some(p) => {
                p.session.try_send(packet);
            },
            None => {},
        }
    }

    /// A line in the status bar of one player.
    pub fn push_status_message(&mut self, id: u32, text: &str)
        requires
            old(self).wf(),
        ensures
            final(self).wf(),
            final(self)@ == old(self)@.status(id, text@),
            old(self)@.only_told(final(self)@),
    {
        let bytes = text.as_bytes_vec();
        self.push(id, Packet::TextMessage { mode: MSG_STATUS_SMALL, text: bytes });
    }

    /// Tell a player why a move was rejected.
    pub fn push_cannot_move(&mut self, id: u32, text: &str)
        requires
            old(self).wf(),
        ensures
            final(self).wf(),
            final(self)@ == old(self)@.status(id, text@),
            old(self)@.only_told(final(self)@),
    {
        self.push_status_message(id, text);
    }

    /// A green description to one player, cut to 255 bytes.
    pub fn push_info_descr(&mut self, id: u32, text: &str)
        requires
            old(self).wf(),
        ensures
            final(self).wf(),
            final(self)@ == old(self)@.describe(id, text@),
            old(self)@.only_told(final(self)@),
    {
        let bytes = capped_bytes(text);
        self.push(id, Packet::TextMessage { mode: MSG_INFO_DESCR, text: bytes });
    }

    /// A blue console line to one player, cut to 255 bytes.
    pub fn push_console_blue(&mut self, id: u32, text: &str)
        requires
            old(self).wf(),
        ensures
            final(self).wf(),
            final(self)@ == old(self)@.console(id, text@),
            old(self)@.only_told(final(self)@),
    {
        let bytes = capped_bytes(text);
        self.push(id, Packet::TextMessage { mode: MSG_CONSOLE_BLUE, text: bytes });
    }
}

} // verus!
