//! Steps and turns.

use vstd::prelude::*;

use super::model::lemma_set_monster;
use super::model::lemma_set_player;
use super::model::sees;
use super::model::World;
use super::state::MonsterModel;
use super::state::PlayerModel;
use super::Game;
use crate::registry::lemma_filter_from;
use crate::registry::lemma_filter_step;
use crate::wire::Packet;
use crate::wire::PacketModel;
use crate::wire::PlacedCreature;
use crate::Direction;
use crate::Position;

verus! {

impl World {
    /// Player `id` turns to `d`, and everyone who sees it is told.
    #[verifier::opaque]
    pub open spec fn turned(self, id: u32, d: Direction) -> World {
        if self.players.has(id) {
            let p = PacketModel::CreatureTurn { id, direction: d.byte() };
            let w = self.set_player(id, PlayerModel { direction: d, ..self.players.at(id) }).push(
                id,
                p,
            );
            w.push_all(w.spectators(self.players.at(id).position, id), p)
        } else {
            self
        }
    }

    /// Player `id` may step onto `to`: a walkable tile on which no one else stands. Ghosts and
    /// those without clipping pass walls, items and creatures, and need no more than ground.
    pub open spec fn may_enter(self, id: u32, to: Position) -> bool {
        if self.players.at(id).is_ghost || self.players.at(id).noclip {
            self.map.stack_at(to) is Some
        } else {
            self.is_free(to, id)
        }
    }

    /// Where a step of player `id` in direction `d` leads, if it is possible.
    pub open spec fn step_to(self, id: u32, d: Direction) -> Option<Position> {
        match self.players.at(id).position.shifted(d.dx(), d.dy()) {
            Some(to) if self.may_enter(id, to) => Some(to),
            _ => None,
        }
    }

    pub open spec fn step_watcher(self, id: u32, from: Position, to: Position) -> spec_fn(
        u32,
    ) -> bool {
        |k: u32| self.watches(k, from, id) || self.watches(k, to, id)
    }

    /// Those who see a step of creature `id` begin or end.
    pub open spec fn step_watchers(self, id: u32, from: Position, to: Position) -> Seq<u32> {
        self.players.order.filter(self.step_watcher(id, from, to))
    }

    /// Player `s` is told of a step of `id`: as a move if it sees both ends, else as an
    /// arrival or as a departure, after which it no longer knows `id`. A departure names the
    /// creature, not its place on the tile, which others may share.
    pub open spec fn step_seen(self, s: u32, id: u32, from: Position, to: Position) -> World {
        if !self.players.has(s) {
            self
        } else {
            let at = self.players.at(s).position;
            if sees(at, from) && sees(at, to) {
                self.push(s, PacketModel::CreatureMove { id, to })
            } else if sees(at, to) {
                self.shown_to(seq![s], id, to)
            } else {
                self.gone_told(seq![s], id)
            }
        }
    }

    /// Each of `ids` is told of a step of `id`.
    pub open spec fn step_told(self, ids: Seq<u32>, id: u32, from: Position, to: Position) -> World
        decreases ids.len(),
    {
        if ids.len() == 0 {
            self
        } else {
            self.step_seen(ids[0], id, from, to).step_told(ids.drop_first(), id, from, to)
        }
    }

    pub open spec fn lost_from(self, to: Position) -> spec_fn(u32) -> bool {
        |k: u32| !sees(to, self.players.at(k).position)
    }

    /// The players that `id` saw from `from` and no longer sees from `to`.
    pub open spec fn lost_from_view(self, id: u32, from: Position, to: Position) -> Seq<u32> {
        self.visible_from(from, id).filter(self.lost_from(to))
    }

    /// Player `id`'s client knows none of `gone` any more.
    pub open spec fn all_forgotten(self, id: u32, gone: Seq<u32>) -> World
        decreases gone.len(),
    {
        if gone.len() == 0 {
            self
        } else {
            self.forget(id, gone[0]).all_forgotten(id, gone.drop_first())
        }
    }

    /// Player `id`, who has stepped, forgets whom it no longer sees and is shown what it sees
    /// now.
    pub open spec fn view_moved(self, id: u32, from: Position, to: Position) -> World {
        let w = self.all_forgotten(id, self.lost_from_view(id, from, to));
        let others = w.visible_from(to, id);
        w.all_seen(id, others).push(
            id,
            PacketModel::WalkUpdate { id, from, to, others: w.sights(id, others) },
        )
    }

    /// Player `id` takes a step in direction `d`, away from containers on the ground that are
    /// then out of reach. A step that is not possible turns no one; only the player is told,
    /// who keeps facing where it did.
    #[verifier::opaque]
    pub open spec fn stepped(self, id: u32, d: Direction) -> World {
        if !self.players.has(id) {
            self
        } else {
            let p = self.players.at(id);
            match self.step_to(id, d) {
                None => self.push(id, PacketModel::CancelWalk { direction: p.direction.byte() }),
                Some(to) => {
                    let w = self.set_player(id, PlayerModel { direction: d, position: to, ..p });
                    w.step_told(w.step_watchers(id, p.position, to), id, p.position, to).view_moved(
                        id,
                        p.position,
                        to,
                    ).reach_checked(id)
                },
            }
        }
    }
}

impl World {
    /// Player `id` is put on `to`, whatever is there: those who saw it go lose it, those who see
    /// it come are shown it, and it is shown what it sees there.
    #[verifier::opaque]
    pub open spec fn teleported(self, id: u32, to: Position) -> World {
        if !self.players.has(id) || self.players.at(id).position == to {
            self
        } else {
            let from = self.players.at(id).position;
            let w = self.set_player(id, PlayerModel { position: to, ..self.players.at(id) });
            let left = w.gone_told(w.spectators(from, id), id);
            left.shown_to(left.spectators(to, id), id, to).view_moved(id, from, to).reach_checked(
                id,
            )
        }
    }

    /// Where a step of monster `id` in direction `d` leads, if it is possible.
    pub open spec fn monster_step_to(self, id: u32, d: Direction) -> Option<Position> {
        match self.monsters.at(id).position.shifted(d.dx(), d.dy()) {
            Some(to) if self.is_free(to, id) => Some(to),
            _ => None,
        }
    }

    /// Monster `id` takes a step in direction `d` where that is possible, and those who see it
    /// are told.
    pub open spec fn monster_stepped(self, id: u32, d: Direction) -> World {
        if !self.monsters.has(id) {
            self
        } else {
            let m = self.monsters.at(id);
            match self.monster_step_to(id, d) {
                None => self,
                Some(to) => {
                    let w = self.set_monster(id, MonsterModel { direction: d, position: to, ..m });
                    w.step_told(w.step_watchers(id, m.position, to), id, m.position, to)
                },
            }
        }
    }
}

/// Whoever is put where it stands stays, and nothing else happens.
pub proof fn law_teleport_to_own_tile(w: World, id: u32)
    requires
        w.players.has(id),
    ensures
        w.teleported(id, w.players.at(id).position) == w,
{
    reveal(World::teleported);
}

/// A monster never steps onto a tile that is not walkable or on which a player stands.
pub proof fn law_monsters_step_on_free_tiles(w: World, id: u32, d: Direction)
    requires
        w.monster_step_to(id, d) is Some,
    ensures
        w.map.walkable(w.monster_step_to(id, d)->0),
        !w.occupied(w.monster_step_to(id, d)->0, id),
{
}

/// A step that is not possible moves and turns no one.
pub proof fn law_blocked_step_stays(w: World, id: u32, d: Direction)
    requires
        w.wf(),
        w.players.has(id),
        w.step_to(id, d) is None,
    ensures
        w.only_told(w.stepped(id, d)),
        w.stepped(id, d).players.has(id) ==> w.stepped(id, d).players.at(id).position
            == w.players.at(id).position && w.stepped(id, d).players.at(id).direction
            == w.players.at(id).direction,
{
    reveal(World::stepped);
    super::model::law_push(
        w,
        id,
        PacketModel::CancelWalk { direction: w.players.at(id).direction.byte() },
    );
}

/// A step never ends on a tile that is not walkable or on which someone else stands, but for
/// those who walk through everything, and always on one with ground.
pub proof fn law_steps_end_on_free_tiles(w: World, id: u32, d: Direction)
    requires
        w.step_to(id, d) is Some,
    ensures
        w.map.stack_at(w.step_to(id, d)->0) is Some,
        !w.players.at(id).is_ghost && !w.players.at(id).noclip ==> w.map.walkable(
            w.step_to(id, d)->0,
        ) && !w.occupied(w.step_to(id, d)->0, id),
{
}

/// Neither walls nor creatures stop a ghost or a player without clipping.
pub proof fn law_nothing_stops_ghosts(w: World, id: u32, d: Direction, to: Position)
    requires
        w.players.at(id).is_ghost || w.players.at(id).noclip,
        w.players.at(id).position.shifted(d.dx(), d.dy()) == Some(to),
        w.map.stack_at(to) is Some,
    ensures
        w.step_to(id, d) == Some(to),
{
}

impl Game {
    /// Turn player `id` and tell everyone who sees it.
    pub fn do_turn(&mut self, id: u32, direction: Direction)
        requires
            old(self).wf(),
        ensures
            final(self).wf(),
            final(self)@ == old(self)@.turned(id, direction),
    {
        proof {
            reveal(World::turned);
        }
        proof {
            if self@.players.has(id) {
                lemma_set_player(self@, id, PlayerModel { direction, ..self@.players.at(id) });
            }
        }
        let pos = match self.players.get_mut(id) {
            Some(p) => {
                p.direction = direction;
                p.position
            },
            None => {
                return;
            },
        };
        let packet = Packet::CreatureTurn { id, direction: direction.to_byte() };
        self.push(id, packet.copy());
        let ids = self.spectators(pos, id);
        self.push_all(&ids, &packet);
    }

    fn step_dest(&self, id: u32, from: Position, direction: Direction) -> (r: Option<Position>)
        requires
            self.wf(),
            self@.players.has(id),
            from == self@.players.at(id).position,
        ensures
            r == self@.step_to(id, direction),
    {
        let (dx, dy) = direction.delta();
        let to = match from.offset(dx, dy) {
            Some(to) => to,
            None => {
                return None;
            },
        };
        let passes = match self.players.get(id) {
            Some(p) => p.is_ghost || p.noclip,
            None => false,
        };
        let open = if passes {
            self.map.has_ground(to)
        } else {
            self.map.is_walkable(to) && !self.tile_occupied(to, id)
        };
        if open {
            Some(to)
        } else {
            None
        }
    }

    fn list_step_watchers(&self, id: u32, from: Position, to: Position) -> (r: Vec<u32>)
        requires
            self.wf(),
        ensures
            r@ == self@.step_watchers(id, from, to),
    {
        let unseen = match self.players.get(id) {
            Some(p) => p.is_ghost,
            None => false,
        };
        let ghost order = self.players@.order;
        let ghost f = self@.step_watcher(id, from, to);
        let mut r: Vec<u32> = Vec::new();
        assert(order.take(0).filter(f) =~= Seq::empty()) by {
            reveal(Seq::filter);
        }
        let mut i: usize = 0;
        while i < self.players.len()
            invariant
                self.wf(),
                i <= order.len(),
                order == self.players@.order,
                unseen == self@.is_ghost(id),
                f == self@.step_watcher(id, from, to),
                r@ == order.take(i as int).filter(f),
            decreases order.len() - i,
        {
            let k: u32 = self.players.id_at(i);
            let p = self.players.entry_at(i);
            proof {
                lemma_filter_step(order, i as int, f);
            }
            if k != id && (Game::can_see(p.position, from) || Game::can_see(p.position, to)) && (
            !unseen || p.gamemaster) {
                r.push(k);
            }
            i = i + 1;
        }
        assert(order.take(order.len() as int) =~= order);
        r
    }

    fn tell_step(&mut self, ids: &Vec<u32>, id: u32, from: Position, to: Position)
        requires
            old(self).wf(),
        ensures
            final(self).wf(),
            final(self)@ == old(self)@.step_told(ids@, id, from, to),
    {
        let mut i: usize = 0;
        assert(ids@.skip(0) =~= ids@);
        while i < ids.len()
            invariant
                i <= ids@.len(),
                self.wf(),
                old(self)@.step_told(ids@, id, from, to) == self@.step_told(
                    ids@.skip(i as int),
                    id,
                    from,
                    to,
                ),
            decreases ids@.len() - i,
        {
            assert(ids@.skip(i as int).drop_first() =~= ids@.skip(i + 1));
            let s: u32 = ids[i];
            match self.players.get(s) {
                Some(p) => {
                    let sees_from = Game::can_see(p.position, from);
                    let sees_to = Game::can_see(p.position, to);
                    if sees_from && sees_to {
                        self.push(s, Packet::CreatureMove { id, to });
                    } else if sees_to {
                        let mut only: Vec<u32> = Vec::new();
                        only.push(s);
                        assert(only@ =~= seq![s]);
                        self.show_creature(&only, id, to);
                    } else {
                        let mut only: Vec<u32> = Vec::new();
                        only.push(s);
                        assert(only@ =~= seq![s]);
                        self.tell_gone(&only, id);
                    }
                },
                None => {},
            }
            i = i + 1;
        }
    }

    fn list_lost(&self, id: u32, from: Position, to: Position) -> (r: Vec<u32>)
        requires
            self.wf(),
        ensures
            r@ == self@.lost_from_view(id, from, to),
    {
        let seen = self.visible_from(from, id);
        let ghost f = self@.lost_from(to);
        let mut r: Vec<u32> = Vec::new();
        assert(seen@.take(0).filter(f) =~= Seq::empty()) by {
            reveal(Seq::filter);
        }
        proof {
            assert forall|k: u32| seen@.contains(k) implies self@.players.has(k) by {
                lemma_filter_from(self@.players.order, self@.seen(from, id), k);
            }
        }
        let mut i: usize = 0;
        while i < seen.len()
            invariant
                self.wf(),
                i <= seen@.len(),
                forall|k: u32| seen@.contains(k) ==> self@.players.has(k),
                f == self@.lost_from(to),
                r@ == seen@.take(i as int).filter(f),
            decreases seen@.len() - i,
        {
            let k: u32 = seen[i];
            assert(seen@.contains(k));
            proof {
                lemma_filter_step(seen@, i as int, f);
            }
            match self.players.get(k) {
                Some(p) => {
                    if !Game::can_see(to, p.position) {
                        r.push(k);
                    }
                },
                None => {},
            }
            i = i + 1;
        }
        assert(seen@.take(seen@.len() as int) =~= seen@);
        r
    }

    fn forget_all(&mut self, id: u32, gone: &Vec<u32>)
        requires
            old(self).wf(),
        ensures
            final(self).wf(),
            final(self)@ == old(self)@.all_forgotten(id, gone@),
    {
        let mut i: usize = 0;
        assert(gone@.skip(0) =~= gone@);
        while i < gone.len()
            invariant
                i <= gone@.len(),
                self.wf(),
                old(self)@.all_forgotten(id, gone@) == self@.all_forgotten(
                    id,
                    gone@.skip(i as int),
                ),
            decreases gone@.len() - i,
        {
            assert(gone@.skip(i as int).drop_first() =~= gone@.skip(i + 1));
            self.forget(id, gone[i]);
            i = i + 1;
        }
    }

    /// Let player `id` take a step in direction `direction`.
    pub fn do_move(&mut self, id: u32, direction: Direction)
        requires
            old(self).wf(),
        ensures
            final(self).wf(),
            final(self)@ == old(self)@.stepped(id, direction),
    {
        proof {
            reveal(World::stepped);
        }
        let (from, facing) = match self.players.get(id) {
            Some(p) => (p.position, p.direction),
            None => {
                return;
            },
        };
        let to = match self.step_dest(id, from, direction) {
            Some(to) => to,
            None => {
                self.push(id, Packet::CancelWalk { direction: facing.to_byte() });
                return;
            },
        };
        proof {
            lemma_set_player(
                self@,
                id,
                PlayerModel { direction, position: to, ..self@.players.at(id) },
            );
        }
        match self.players.get_mut(id) {
            Some(p) => {
                p.direction = direction;
                p.position = to;
            },
            None => {},
        }
        let ids = self.list_step_watchers(id, from, to);
        self.tell_step(&ids, id, from, to);
        self.move_view(id, from, to);
        self.auto_close_ground_containers(id);
    }

    /// Show player `id`, who has come from `from` to `to`, what it sees there.
    fn move_view(&mut self, id: u32, from: Position, to: Position)
        requires
            old(self).wf(),
        ensures
            final(self).wf(),
            final(self)@ == old(self)@.view_moved(id, from, to),
    {
        let lost = self.list_lost(id, from, to);
        self.forget_all(id, &lost);
        let others = self.visible_from(to, id);
        let mut shown: Vec<PlacedCreature> = Vec::new();
        self.see_all(id, &others, &mut shown);
        self.push(id, Packet::WalkUpdate { id, from, to, others: shown });
    }

    /// Put player `id` on `to`, whatever is there, and tell everyone who sees it go or come.
    pub fn do_teleport(&mut self, id: u32, to: Position)
        requires
            old(self).wf(),
        ensures
            final(self).wf(),
            final(self)@ == old(self)@.teleported(id, to),
    {
        proof {
            reveal(World::teleported);
        }
        let from = match self.players.get(id) {
            Some(p) => p.position,
            None => {
                return;
            },
        };
        if from == to {
            return;
        }
        proof {
            lemma_set_player(self@, id, PlayerModel { position: to, ..self@.players.at(id) });
        }
        match self.players.get_mut(id) {
            Some(p) => {
                p.position = to;
            },
            None => {},
        }
        let ids = self.spectators(from, id);
        self.tell_gone(&ids, id);
        let ids = self.spectators(to, id);
        self.show_creature(&ids, id, to);
        self.move_view(id, from, to);
        self.auto_close_ground_containers(id);
    }

    /// Let monster `id` take a step in direction `direction`, and tell everyone who sees it.
    pub fn do_move_monster(&mut self, id: u32, direction: Direction)
        requires
            old(self).wf(),
        ensures
            final(self).wf(),
            final(self)@ == old(self)@.monster_stepped(id, direction),
    {
        let from = match self.monsters.get(id) {
            Some(m) => m.position,
            None => {
                return;
            },
        };
        let (dx, dy) = direction.delta();
        let to = match from.offset(dx, dy) {
            Some(to) => to,
            None => {
                return;
            },
        };
        if !self.map.is_walkable(to) || self.tile_occupied(to, id) {
            return;
        }
        proof {
            lemma_set_monster(
                self@,
                id,
                MonsterModel { direction, position: to, ..self@.monsters.at(id) },
            );
        }
        match self.monsters.get_mut(id) {
            Some(m) => {
                m.direction = direction;
                m.position = to;
            },
            None => {},
        }
        let ids = self.list_step_watchers(id, from, to);
        self.tell_step(&ids, id, from, to);
    }
}

} // verus!
