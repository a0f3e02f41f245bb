//! Walking: which steps are taken, where they end, and who is told of them.

use vstd::prelude::*;

use super::law_step_moves_one;
use super::law_teleport_moves_one;
use super::lemma_reach_only_shut;
use super::lemma_step_seen;
use super::lemma_step_told;
use super::lemma_view_moved;
use super::super::commands::Command;
use super::super::model::law_gone_told;
use super::super::model::law_push;
use super::super::model::law_push_all;
use super::super::model::law_shown_to;
use super::super::model::lemma_forget;
use super::super::model::lemma_introduced;
use super::super::model::lemma_keeps_players_trans;
use super::super::model::lemma_only_told_trans;
use super::super::model::sees;
use super::super::model::World;
use super::super::state::MonsterModel;
use super::super::state::PlayerModel;
use super::told::hears;
use super::told::law_messages_arrive;
use super::told::law_messages_reach_all;
use super::told::lemma_hears_earlier;
use super::told::lemma_hears_later;
use super::told::lemma_remembers_trans;
use super::told::remembers;
use crate::registry::law_set;
use crate::wire::PacketModel;
use crate::Direction;
use crate::Position;

verus! {

/// `to` is the tile next to `from` in direction `d`: rows count from north to south, columns from
/// west to east.
pub open spec fn next_to(from: Position, d: Direction, to: Position) -> bool {
    &&& to.z == from.z
    &&& match d {
        Direction::North => to.x == from.x && to.y == from.y - 1,
        Direction::NorthEast => to.x == from.x + 1 && to.y == from.y - 1,
        Direction::East => to.x == from.x + 1 && to.y == from.y,
        Direction::SouthEast => to.x == from.x + 1 && to.y == from.y + 1,
        Direction::South => to.x == from.x && to.y == from.y + 1,
        Direction::SouthWest => to.x == from.x - 1 && to.y == from.y + 1,
        Direction::West => to.x == from.x - 1 && to.y == from.y,
        Direction::NorthWest => to.x == from.x - 1 && to.y == from.y - 1,
    }
}

/// No player but `id` stands on `to`.
pub open spec fn no_other_on(w: World, id: u32, to: Position) -> bool {
    forall|k: u32| #[trigger] w.players.has(k) && k != id ==> w.players.at(k).position != to
}

/// Everyone but `id` is as before, but for what they were told.
pub open spec fn others_stay(w: World, later: World, id: u32) -> bool {
    forall|k: u32|
        #![trigger later.players.has(k)]
        #![trigger later.players.at(k)]
        later.players.has(k) && k != id ==> w.players.has(k) && later.players.at(k) == (
        PlayerModel {
            session: later.players.at(k).session,
            known: later.players.at(k).known,
            ..w.players.at(k)
        })
}

/// In every direction a step to a walkable tile on which no other player stands is taken: the
/// player is then on that tile and faces that way, with all it has, and no one else has moved.
pub proof fn law_open_steps_are_taken(w: World, id: u32, d: Direction, to: Position)
    requires
        w.wf(),
        w.players.has(id),
        next_to(w.players.at(id).position, d, to),
        w.map.walkable(to),
        no_other_on(w, id, to),
    ensures
        w.step_to(id, d) == Some(to),
        ({
            let p = w.players.at(id);
            let later = w.handled(Command::Move { id, direction: d }).0;
            &&& w.keeps_players(later)
            &&& later.players.has(id) ==> {
                let q = later.players.at(id);
                &&& q.position == to
                &&& q.direction == d
                &&& q.health == p.health && q.max_health == p.max_health
                &&& q.inventory == p.inventory
                &&& q.go_to_position is None && q.follow_target is None && q.walk.len() == 0
            }
            &&& others_stay(w, later, id)
            &&& later.monsters == w.monsters
            &&& later.overlay == w.overlay
        }),
{
    lemma_step_taken(w, id, d, to);
}

/// Whoever walks through everything needs no more than ground to step on.
pub proof fn law_ghosts_step_on_ground(w: World, id: u32, d: Direction, to: Position)
    requires
        w.wf(),
        w.players.has(id),
        w.players.at(id).is_ghost || w.players.at(id).noclip,
        next_to(w.players.at(id).position, d, to),
        w.map.stack_at(to) is Some,
    ensures
        ({
            let later = w.handled(Command::Move { id, direction: d }).0;
            &&& w.keeps_players(later)
            &&& later.players.has(id) ==> later.players.at(id).position == to
                && later.players.at(id).direction == d
            &&& others_stay(w, later, id)
        }),
{
    lemma_step_taken(w, id, d, to);
}

proof fn lemma_step_taken(w: World, id: u32, d: Direction, to: Position)
    requires
        w.wf(),
        w.players.has(id),
        next_to(w.players.at(id).position, d, to),
        ({
            let p = w.players.at(id);
            ||| w.map.walkable(to) && no_other_on(w, id, to)
            ||| (p.is_ghost || p.noclip) && w.map.stack_at(to) is Some
        }),
    ensures
        w.step_to(id, d) == Some(to),
        ({
            let p = w.players.at(id);
            let later = w.handled(Command::Move { id, direction: d }).0;
            let u = w.walk_cleared(id);
            &&& later == u.stepped(id, d)
            &&& u.wf()
            &&& u.players.has(id)
            &&& u.step_to(id, d) == Some(to)
            &&& u.players.at(id).position == p.position
            &&& w.keeps_players(later)
            &&& later.players.has(id) ==> {
                let q = later.players.at(id);
                &&& q.position == to
                &&& q.direction == d
                &&& q.health == p.health && q.max_health == p.max_health
                &&& q.inventory == p.inventory
                &&& q.go_to_position is None && q.follow_target is None && q.walk.len() == 0
            }
            &&& others_stay(w, later, id)
            &&& later.monsters == w.monsters
            &&& later.overlay == w.overlay
        }),
{
    let p = w.players.at(id);
    let r = PlayerModel {
        go_to_position: None,
        failed_repaths: None,
        follow_target: None,
        walk: Seq::empty(),
        ..p
    };
    law_set(w.players, id, r);
    let u = w.walk_cleared(id);
    assert(u == w.set_player(id, r));
    super::super::model::lemma_set_player(w, id, r);
    assert(p.position.shifted(d.dx(), d.dy()) == Some(to));
    assert(w.step_to(id, d) == Some(to));
    assert(no_other_on(w, id, to) ==> no_other_on(u, id, to)) by {
        if no_other_on(w, id, to) {
            assert forall|k: u32| #[trigger] u.players.has(k) && k != id implies u.players.at(
                k,
            ).position != to by {
                assert(w.players.has(k));
            }
        }
    }
    assert(u.step_to(id, d) == Some(to));
    law_step_moves_one(u, id, d);
    let q = PlayerModel { direction: d, position: to, ..r };
    law_set(u.players, id, q);
    let v = u.set_player(id, q);
    let later = u.stepped(id, d);
    assert(w.keeps_players(v));
    lemma_keeps_players_trans(w, v, later);
}

/// A step onto a tile that is not walkable, or on which someone else stands, is refused: the
/// player stays where it is, faces where it did, and is told so.
pub proof fn law_blocked_steps_are_refused(w: World, id: u32, d: Direction, to: Position)
    requires
        w.wf(),
        w.players.has(id),
        next_to(w.players.at(id).position, d, to),
        !w.players.at(id).is_ghost && !w.players.at(id).noclip,
        !w.map.walkable(to) || !no_other_on(w, id, to),
    ensures
        ({
            let p = w.players.at(id);
            let later = w.handled(Command::Move { id, direction: d }).0;
            &&& w.keeps_players(later)
            &&& later.players.has(id) ==> later.players.at(id).position == p.position
                && later.players.at(id).direction == p.direction
            &&& hears(
                w,
                later,
                id,
                PacketModel::CancelWalk { direction: p.direction.byte() },
            )
            &&& others_stay(w, later, id)
        }),
{
    reveal(World::stepped);
    let p = w.players.at(id);
    let r = PlayerModel {
        go_to_position: None,
        failed_repaths: None,
        follow_target: None,
        walk: Seq::empty(),
        ..p
    };
    law_set(w.players, id, r);
    let u = w.walk_cleared(id);
    assert(u == w.set_player(id, r));
    assert(p.position.shifted(d.dx(), d.dy()) == Some(to));
    if !no_other_on(w, id, to) {
        let k = choose|k: u32| #[trigger]
            w.players.has(k) && k != id && w.players.at(k).position == to;
        assert(u.players.has(k) && u.players.at(k).position == to);
        assert(u.occupied(to, id));
    }
    assert(u.step_to(id, d) is None);
    let m = PacketModel::CancelWalk { direction: p.direction.byte() };
    law_messages_arrive(u, id, m);
    law_push(u, id, m);
    assert(w.keeps_players(u));
    lemma_keeps_players_trans(w, u, u.push(id, m));
}

/// `p` shows creature `id` on `pos`.
pub open spec fn shows_on(p: PacketModel, id: u32, pos: Position) -> bool {
    p matches PacketModel::AddTileCreature { position, creature, .. } && position == pos
        && creature.id == id
}

/// Player `k` has learnt, since `before`, that `id` went from `from` to `to`: as a move where it
/// sees both, as an arrival or a departure where it sees one of them.
pub open spec fn learns_step(
    before: World,
    later: World,
    k: u32,
    id: u32,
    from: Position,
    to: Position,
) -> bool {
    let at = before.players.at(k).position;
    &&& sees(at, from) && sees(at, to) ==> hears(
        before,
        later,
        k,
        PacketModel::CreatureMove { id, to },
    )
    &&& sees(at, to) && !sees(at, from) && later.creature_exists(id) ==> exists|p: PacketModel|
        shows_on(p, id, to) && #[trigger] hears(before, later, k, p)
    &&& sees(at, from) && !sees(at, to) ==> hears(
        before,
        later,
        k,
        PacketModel::RemoveCreature { id },
    )
}

proof fn lemma_step_seen_learnt(w: World, k: u32, id: u32, from: Position, to: Position)
    requires
        w.players.wf(),
        w.players.has(k),
    ensures
        learns_step(w, w.step_seen(k, id, from, to), k, id, from, to),
{
    let at = w.players.at(k).position;
    let later = w.step_seen(k, id, from, to);
    if sees(at, from) && sees(at, to) {
        law_messages_arrive(w, k, PacketModel::CreatureMove { id, to });
    } else if sees(at, to) {
        assert(seq![k][0] == k);
        assert(seq![k].drop_first().len() == 0);
        reveal_with_fuel(World::shown_to, 2);
        if w.can_introduce(k, id) {
            let a = w.introduced(k, id);
            let p = PacketModel::AddTileCreature {
                position: to,
                stackpos: a.stackpos_on(to, id),
                creature: w.shown(k, id),
            };
            lemma_introduced(w, k, id);
            law_messages_arrive(a, k, p);
            assert(later == a.push(k, p));
            assert(shows_on(p, id, to));
            assert(hears(w, later, k, p));
        }
    } else {
        assert(seq![k][0] == k);
        assert(seq![k].drop_first().len() == 0);
        reveal_with_fuel(World::gone_told, 2);
        let p = PacketModel::RemoveCreature { id };
        law_messages_arrive(w, k, p);
        let a = w.push(k, p);
        law_push(w, k, p);
        lemma_forget(a, k, id);
        assert(later == a.forget(k, id));
        lemma_hears_later(w, a, later, k, p);
    }
}

/// What was learnt of a step stays learnt.
proof fn lemma_learns_later(
    a: World,
    b: World,
    c: World,
    k: u32,
    id: u32,
    from: Position,
    to: Position,
)
    requires
        learns_step(a, b, k, id, from, to),
        remembers(b, c),
        c.creature_exists(id) ==> b.creature_exists(id),
    ensures
        learns_step(a, c, k, id, from, to),
{
    let at = a.players.at(k).position;
    if sees(at, from) && sees(at, to) {
        lemma_hears_later(a, b, c, k, PacketModel::CreatureMove { id, to });
    } else if sees(at, to) {
        if c.creature_exists(id) {
            let p = choose|p: PacketModel| shows_on(p, id, to) && #[trigger] hears(a, b, k, p);
            lemma_hears_later(a, b, c, k, p);
            assert(shows_on(p, id, to) && hears(a, c, k, p));
        }
    } else if sees(at, from) {
        lemma_hears_later(a, b, c, k, PacketModel::RemoveCreature { id });
    }
}

/// What is learnt of a step after other messages is learnt.
proof fn lemma_learns_earlier(
    a: World,
    b: World,
    c: World,
    k: u32,
    id: u32,
    from: Position,
    to: Position,
)
    requires
        remembers(a, b),
        remembers(b, c),
        c.players.has(k) ==> a.players.at(k).position == b.players.at(k).position,
        c.players.has(k) ==> learns_step(b, c, k, id, from, to),
    ensures
        learns_step(a, c, k, id, from, to),
{
    let at = a.players.at(k).position;
    let here = PacketModel::AddTileCreature {
        position: to,
        stackpos: 0,
        creature: crate::wire::CreatureModel { id, ..a.creature_look(id, false) },
    };
    if !c.players.has(k) {
        assert(shows_on(here, id, to) && hears(a, c, k, here));
    } else if sees(at, from) && sees(at, to) {
        lemma_hears_earlier(a, b, c, k, PacketModel::CreatureMove { id, to });
    } else if sees(at, to) {
        if c.creature_exists(id) {
            let p = choose|p: PacketModel| shows_on(p, id, to) && #[trigger] hears(b, c, k, p);
            lemma_hears_earlier(a, b, c, k, p);
            assert(shows_on(p, id, to) && hears(a, c, k, p));
        }
    } else if sees(at, from) {
        lemma_hears_earlier(a, b, c, k, PacketModel::RemoveCreature { id });
    }
}

proof fn lemma_step_learnt(
    w: World,
    ids: Seq<u32>,
    id: u32,
    from: Position,
    to: Position,
    k: u32,
)
    requires
        w.players.wf(),
        ids.contains(k),
    ensures
        w.players.has(k) ==> learns_step(w, w.step_told(ids, id, from, to), k, id, from, to),
    decreases ids.len(),
{
    if w.players.has(k) {
        let a = w.step_seen(ids[0], id, from, to);
        let c = w.step_told(ids, id, from, to);
        lemma_step_seen(w, ids[0], id, from, to);
        lemma_step_told(a, ids.drop_first(), id, from, to);
        if ids[0] == k {
            lemma_step_seen_learnt(w, k, id, from, to);
            lemma_learns_later(w, a, c, k, id, from, to);
        } else {
            let i = ids.index_of(k);
            assert(ids.drop_first()[i - 1] == k);
            lemma_step_learnt(a, ids.drop_first(), id, from, to, k);
            lemma_learns_earlier(w, a, c, k, id, from, to);
        }
    }
}

/// Everyone who may see the walker and sees where it comes from or where it goes learns of its
/// step.
pub proof fn law_steps_are_seen(w: World, id: u32, d: Direction, to: Position, k: u32)
    requires
        w.wf(),
        w.players.has(id),
        w.players.has(k),
        k != id,
        !w.players.at(id).is_ghost || w.players.at(k).gamemaster,
        next_to(w.players.at(id).position, d, to),
        w.map.walkable(to),
        no_other_on(w, id, to),
    ensures
        learns_step(
            w,
            w.handled(Command::Move { id, direction: d }).0,
            k,
            id,
            w.players.at(id).position,
            to,
        ),
{
    reveal(World::stepped);
    lemma_step_taken(w, id, d, to);
    let from = w.players.at(id).position;
    let u = w.walk_cleared(id);
    let later = u.stepped(id, d);
    let q = PlayerModel { direction: d, position: to, ..u.players.at(id) };
    law_set(u.players, id, q);
    let a = u.set_player(id, q);
    assert(a.players.has(k) && a.players.at(k) == w.players.at(k));
    let ids = a.step_watchers(id, from, to);
    lemma_step_told(a, ids, id, from, to);
    let b = a.step_told(ids, id, from, to);
    lemma_view_moved(b, id, from, to);
    let f = b.view_moved(id, from, to);
    lemma_reach_only_shut(f, id);
    assert(later == f.reach_checked(id));
    lemma_remembers_trans(b, f, later);
    let at = w.players.at(k).position;
    if sees(at, from) || sees(at, to) {
        let order = a.players.order;
        assert(order.contains(k));
        order.lemma_filter_contains(a.step_watcher(id, from, to), order.index_of(k));
        assert(ids.contains(k));
        lemma_step_learnt(a, ids, id, from, to, k);
        lemma_learns_later(a, b, later, k, id, from, to);
        assert(learns_step(w, later, k, id, from, to)) by {
            if sees(at, to) && !sees(at, from) && later.creature_exists(id) {
                let p = choose|p: PacketModel|
                    shows_on(p, id, to) && #[trigger] hears(a, later, k, p);
                assert(shows_on(p, id, to) && hears(w, later, k, p));
            }
        }
    }
}

/// `p` tells player `id` that it walked from `from` to `to`.
pub open spec fn shows_walk(p: PacketModel, id: u32, from: Position, to: Position) -> bool {
    p matches PacketModel::WalkUpdate { id: who, from: a, to: b, .. } && who == id && a == from
        && b == to
}

/// Whoever takes a step is shown it, from where it was to where it is.
pub proof fn law_walkers_are_shown_their_steps(w: World, id: u32, d: Direction, to: Position)
    requires
        w.wf(),
        w.players.has(id),
        next_to(w.players.at(id).position, d, to),
        w.map.walkable(to),
        no_other_on(w, id, to),
    ensures
        exists|p: PacketModel|
            shows_walk(p, id, w.players.at(id).position, to) && #[trigger] hears(
                w,
                w.handled(Command::Move { id, direction: d }).0,
                id,
                p,
            ),
{
    reveal(World::stepped);
    lemma_step_taken(w, id, d, to);
    let from = w.players.at(id).position;
    let u = w.walk_cleared(id);
    let later = u.stepped(id, d);
    let q = PlayerModel { direction: d, position: to, ..u.players.at(id) };
    law_set(u.players, id, q);
    let a = u.set_player(id, q);
    let ids = a.step_watchers(id, from, to);
    lemma_step_told(a, ids, id, from, to);
    let b = a.step_told(ids, id, from, to);
    let f = b.view_moved(id, from, to);
    let p = lemma_view_shown(b, id, from, to);
    lemma_view_moved(b, id, from, to);
    lemma_reach_only_shut(f, id);
    assert(later == f.reach_checked(id));
    lemma_hears_later(b, f, later, id, p);
    lemma_remembers_trans(b, f, later);
    lemma_hears_earlier(a, b, later, id, p);
    assert(hears(w, later, id, p));
}

proof fn lemma_view_shown(w: World, id: u32, from: Position, to: Position) -> (p: PacketModel)
    requires
        w.players.wf(),
    ensures
        shows_walk(p, id, from, to),
        hears(w, w.view_moved(id, from, to), id, p),
{
    let lost = w.lost_from_view(id, from, to);
    super::lemma_all_forgotten(w, id, lost);
    let c = w.all_forgotten(id, lost);
    let others = c.visible_from(to, id);
    super::lemma_all_seen(c, id, others);
    let e = c.all_seen(id, others);
    let p = PacketModel::WalkUpdate { id, from, to, others: c.sights(id, others) };
    law_messages_arrive(e, id, p);
    lemma_only_told_trans(w, c, e);
    lemma_hears_earlier(w, e, e.push(id, p), id, p);
    p
}

/// In every direction a monster's step to a walkable tile without players is taken, and no one
/// but the monster is elsewhere then.
pub proof fn law_open_monster_steps_are_taken(w: World, id: u32, d: Direction, to: Position)
    requires
        w.wf(),
        w.monsters.has(id),
        next_to(w.monsters.at(id).position, d, to),
        w.map.walkable(to),
        no_other_on(w, id, to),
    ensures
        ({
            let later = w.monster_stepped(id, d);
            &&& w.keeps_players(later)
            &&& later.monsters.has(id)
            &&& later.monsters.at(id) == (MonsterModel {
                position: to,
                direction: d,
                ..w.monsters.at(id)
            })
            &&& forall|k: u32|
                #![trigger later.monsters.has(k)]
                #![trigger later.monsters.at(k)]
                {
                    &&& later.monsters.has(k) == w.monsters.has(k)
                    &&& k != id && w.monsters.has(k) ==> later.monsters.at(k) == w.monsters.at(k)
                }
            &&& forall|k: u32|
                #![trigger later.players.at(k)]
                later.players.has(k) ==> w.players.has(k) && later.players.at(k).position
                    == w.players.at(k).position
        }),
{
    let m = w.monsters.at(id);
    assert(m.position.shifted(d.dx(), d.dy()) == Some(to));
    assert(w.monster_step_to(id, d) == Some(to));
    let q = MonsterModel { direction: d, position: to, ..m };
    law_set(w.monsters, id, q);
    let a = w.set_monster(id, q);
    let ids = a.step_watchers(id, m.position, to);
    lemma_step_told(a, ids, id, m.position, to);
}

/// Everyone who sees where a monster comes from or where it goes learns of its step.
pub proof fn law_monster_steps_are_seen(w: World, id: u32, d: Direction, to: Position, k: u32)
    requires
        w.wf(),
        w.monsters.has(id),
        w.players.has(k),
        k != id,
        !w.players.has(id),
        next_to(w.monsters.at(id).position, d, to),
        w.map.walkable(to),
        no_other_on(w, id, to),
    ensures
        learns_step(w, w.monster_stepped(id, d), k, id, w.monsters.at(id).position, to),
{
    let m = w.monsters.at(id);
    let from = m.position;
    assert(m.position.shifted(d.dx(), d.dy()) == Some(to));
    assert(w.monster_step_to(id, d) == Some(to));
    let q = MonsterModel { direction: d, position: to, ..m };
    law_set(w.monsters, id, q);
    let a = w.set_monster(id, q);
    let ids = a.step_watchers(id, from, to);
    let at = w.players.at(k).position;
    let later = w.monster_stepped(id, d);
    if sees(at, from) || sees(at, to) {
        let order = a.players.order;
        assert(order.contains(k));
        order.lemma_filter_contains(a.step_watcher(id, from, to), order.index_of(k));
        lemma_step_learnt(a, ids, id, from, to, k);
        assert(learns_step(w, later, k, id, from, to)) by {
            if sees(at, to) && !sees(at, from) && later.creature_exists(id) {
                let p = choose|p: PacketModel|
                    shows_on(p, id, to) && #[trigger] hears(a, later, k, p);
                assert(shows_on(p, id, to) && hears(w, later, k, p));
            }
        }
    }
}

/// A turn leaves the player where it is, facing the other way; it and everyone who may see it and
/// does is told the direction's number.
pub proof fn law_turns_are_seen(w: World, id: u32, d: Direction, k: u32)
    requires
        w.wf(),
        w.players.has(id),
        w.players.has(k),
        k == id || sees(w.players.at(k).position, w.players.at(id).position) && (!w.players.at(
            id,
        ).is_ghost || w.players.at(k).gamemaster),
    ensures
        ({
            let later = w.handled(Command::Turn { id, direction: d }).0;
            &&& w.keeps_players(later)
            &&& later.players.has(id) ==> later.players.at(id).direction == d
                && later.players.at(id).position == w.players.at(id).position
            &&& others_stay(w, later, id)
            &&& hears(w, later, k, PacketModel::CreatureTurn { id, direction: d.byte() })
        }),
{
    reveal(World::turned);
    let p = PacketModel::CreatureTurn { id, direction: d.byte() };
    let q = PlayerModel { direction: d, ..w.players.at(id) };
    let pos = w.players.at(id).position;
    law_set(w.players, id, q);
    let a = w.set_player(id, q);
    law_messages_arrive(a, id, p);
    law_push(a, id, p);
    let b = a.push(id, p);
    let ids = b.spectators(pos, id);
    law_push_all(b, ids, p);
    let later = b.push_all(ids, p);
    assert(later == w.handled(Command::Turn { id, direction: d }).0);
    lemma_only_told_trans(a, b, later);
    assert(w.keeps_players(a));
    lemma_keeps_players_trans(w, a, later);
    if k == id {
        lemma_hears_later(a, b, later, k, p);
    } else if b.players.has(k) {
        let order = b.players.order;
        assert(order.contains(k));
        order.lemma_filter_contains(b.watcher(pos, id), order.index_of(k));
        law_messages_reach_all(b, ids, p, k);
        lemma_hears_earlier(a, b, later, k, p);
    }
}

/// Whoever is put elsewhere stands there, and no one else has moved.
pub proof fn law_teleports_arrive(w: World, id: u32, to: Position)
    requires
        w.wf(),
        w.players.has(id),
    ensures
        ({
            let later = w.teleported(id, to);
            &&& w.keeps_players(later)
            &&& remembers(w, later)
            &&& later.players.wf()
            &&& later.players.has(id) ==> later.players.at(id).position == to
                && later.players.at(id).inventory == w.players.at(id).inventory
                && later.players.at(id).health == w.players.at(id).health
            &&& others_stay(w, later, id)
            &&& later.monsters == w.monsters
            &&& later.overlay == w.overlay
        }),
{
    law_teleport_moves_one(w, id, to);
    let q = PlayerModel { position: to, ..w.players.at(id) };
    law_set(w.players, id, q);
    let a = w.set_player(id, q);
    let later = w.teleported(id, to);
    assert(w.keeps_players(a));
    lemma_keeps_players_trans(w, a, later);
}

/// Whoever sees only where someone came from is told that it is gone, and whoever sees where it
/// was put is shown it there, as long as it is there.
pub proof fn law_teleports_are_seen(w: World, id: u32, to: Position, k: u32)
    requires
        w.wf(),
        w.players.has(id),
        w.players.has(k),
        k != id,
        w.players.at(id).position != to,
        !w.players.at(id).is_ghost || w.players.at(k).gamemaster,
    ensures
        ({
            let at = w.players.at(k).position;
            let later = w.teleported(id, to);
            &&& sees(at, w.players.at(id).position) ==> hears(
                w,
                later,
                k,
                PacketModel::RemoveCreature { id },
            )
            &&& sees(at, to) && later.players.has(id) ==> exists|p: PacketModel|
                shows_on(p, id, to) && #[trigger] hears(w, later, k, p)
        }),
{
    reveal(World::teleported);
    let from = w.players.at(id).position;
    let q = PlayerModel { position: to, ..w.players.at(id) };
    law_set(w.players, id, q);
    let a = w.set_player(id, q);
    let at = w.players.at(k).position;
    let gone = a.spectators(from, id);
    let m = PacketModel::RemoveCreature { id };
    law_gone_told(a, gone, id);
    let b = a.gone_told(gone, id);
    let here = b.spectators(to, id);
    law_shown_to(b, here, id, to);
    let c = b.shown_to(here, id, to);
    lemma_view_moved(c, id, from, to);
    let f = c.view_moved(id, from, to);
    lemma_reach_only_shut(f, id);
    let later = w.teleported(id, to);
    assert(later == f.reach_checked(id));
    lemma_remembers_trans(c, f, later);
    lemma_remembers_trans(b, c, later);
    lemma_remembers_trans(a, b, later);
    if sees(at, from) {
        let order = a.players.order;
        assert(order.contains(k));
        order.lemma_filter_contains(a.watcher(from, id), order.index_of(k));
        lemma_gone_heard(a, gone, id, k);
        lemma_hears_later(a, b, later, k, m);
        assert(hears(w, later, k, m));
    }
    if sees(at, to) && later.players.has(id) {
        if b.players.has(k) {
            let order = b.players.order;
            assert(order.contains(k));
            order.lemma_filter_contains(b.watcher(to, id), order.index_of(k));
            assert(f.players.has(id));
            assert(c.players.has(id));
            let p = lemma_arrival_heard(b, here, id, to, k);
            lemma_hears_later(b, c, later, k, p);
            lemma_hears_earlier(a, b, later, k, p);
            assert(shows_on(p, id, to) && hears(w, later, k, p));
        } else {
            let p = PacketModel::AddTileCreature {
                position: to,
                stackpos: 0,
                creature: w.creature_look(id, false),
            };
            assert(shows_on(p, id, to) && hears(w, later, k, p));
        }
    }
}

/// Each of `ids` is told that `id` is gone.
pub proof fn lemma_gone_heard(w: World, ids: Seq<u32>, id: u32, k: u32)
    requires
        w.players.wf(),
        ids.contains(k),
    ensures
        hears(w, w.gone_told(ids, id), k, PacketModel::RemoveCreature { id }),
    decreases ids.len(),
{
    let p = PacketModel::RemoveCreature { id };
    let a = w.push(ids[0], p);
    law_push(w, ids[0], p);
    lemma_forget(a, ids[0], id);
    let b = a.forget(ids[0], id);
    let c = w.gone_told(ids, id);
    lemma_only_told_trans(w, a, b);
    law_gone_told(b, ids.drop_first(), id);
    if ids[0] == k {
        law_messages_arrive(w, k, p);
        lemma_hears_later(w, a, b, k, p);
        lemma_hears_later(w, b, c, k, p);
    } else {
        let i = ids.index_of(k);
        assert(ids.drop_first()[i - 1] == k);
        lemma_gone_heard(b, ids.drop_first(), id, k);
        lemma_hears_earlier(w, b, c, k, p);
    }
}

/// Each of `ids` is shown `id` on `pos`, where it is there until all are told.
pub proof fn lemma_arrival_heard(
    w: World,
    ids: Seq<u32>,
    id: u32,
    pos: Position,
    k: u32,
) -> (p: PacketModel)
    requires
        w.players.wf(),
        ids.contains(k),
        w.shown_to(ids, id, pos).creature_exists(id),
    ensures
        shows_on(p, id, pos),
        hears(w, w.shown_to(ids, id, pos), k, p),
    decreases ids.len(),
{
    let s = ids[0];
    let c = w.shown_to(ids, id, pos);
    law_shown_to(w, ids, id, pos);
    let a = w.introduced(s, id);
    let p = PacketModel::AddTileCreature {
        position: pos,
        stackpos: a.stackpos_on(pos, id),
        creature: w.shown(s, id),
    };
    lemma_introduced(w, s, id);
    law_push(a, s, p);
    lemma_only_told_trans(w, a, a.push(s, p));
    let b = if w.can_introduce(s, id) {
        a.push(s, p)
    } else {
        w
    };
    assert(w.only_told(b));
    law_shown_to(b, ids.drop_first(), id, pos);
    if s == k {
        if w.can_introduce(s, id) {
            law_messages_arrive(a, k, p);
            lemma_hears_earlier(w, a, b, k, p);
            lemma_hears_later(w, b, c, k, p);
        }
        p
    } else {
        let i = ids.index_of(k);
        assert(ids.drop_first()[i - 1] == k);
        let r = lemma_arrival_heard(b, ids.drop_first(), id, pos, k);
        lemma_hears_earlier(w, b, c, k, r);
        r
    }
}

} // verus!
