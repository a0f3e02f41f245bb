//! Walking by oneself: setting out, going on step by step, and giving up.

use vstd::prelude::*;
use vstd::utf8::encode_utf8;

use super::law_step_moves_one;
use super::lemma_status;
use super::super::autowalk::walk_end;
use super::super::commands::Command;
use super::super::model::law_push;
use super::super::model::lemma_keeps_players_trans;
use super::super::model::lemma_set_player;
use super::super::model::sees;
use super::super::model::World;
use super::super::state::MonsterModel;
use super::super::state::PlayerModel;
use super::super::step_interval;
use super::super::windows::close;
use super::told::hears;
use super::told::law_messages_arrive;
use super::walks::law_open_monster_steps_are_taken;
use super::walks::next_to;
use super::walks::no_other_on;
use super::walks::others_stay;
use crate::registry::law_set;
use crate::wire::PacketModel;
use crate::Direction;
use crate::Position;

verus! {

/// No step leads nowhere, and each further step leads to the tile next to where the others end.
pub proof fn law_steps_add_up(
    start: Position,
    steps: Seq<Direction>,
    end: Position,
    d: Direction,
    to: Position,
)
    requires
        walk_end(start, steps) == Some(end),
        next_to(end, d, to),
    ensures
        walk_end(start, Seq::empty()) == Some(start),
        walk_end(start, steps.push(d)) == Some(to),
{
    assert(steps.push(d).drop_last() =~= steps);
    assert(end.shifted(d.dx(), d.dy()) == Some(to));
}

/// `target` can be walked to from `from`: another walkable tile in view on the same floor, neither
/// end in a protection zone.
pub open spec fn within_walk(w: World, from: Position, target: Position) -> bool {
    &&& from != target
    &&& from.z == target.z
    &&& sees(from, target)
    &&& w.map.walkable(target)
    &&& !w.map.zone_at(from) && !w.map.zone_at(target)
}

/// Player `id` was told `text` since `before`.
pub open spec fn reads(before: World, later: World, id: u32, text: Seq<char>) -> bool {
    hears(before, later, id, PacketModel::TextMessage { mode: 21, text: encode_utf8(text) })
}

/// Whoever wants to go to a place to which there is a way sets out on it, and follows no one.
/// Where there is none it stays, and is told so.
pub proof fn law_travellers_set_out(
    w: World,
    id: u32,
    target: Position,
    hunts: Seq<Seq<Direction>>,
    way: Seq<Direction>,
)
    requires
        w.wf(),
        w.players.has(id),
        within_walk(w, w.players.at(id).position, target),
    ensures
        ({
            let p = w.players.at(id);
            let later = w.led(Command::GoToPosition { id, target }, hunts, seq![way]);
            let q = later.players.at(id);
            &&& w.keeps_players(later)
            &&& others_stay(w, later, id)
            &&& way.len() > 0 ==> later.players.has(id) && q == (PlayerModel {
                go_to_position: Some(target),
                follow_target: None,
                walk: way,
                ..p
            })
            &&& way.len() == 0 ==> reads(w, later, id, "There is no way."@)
            &&& way.len() == 0 && later.players.has(id) ==> q.go_to_position is None
                && q.follow_target is None && q.position == p.position
        }),
{
    reveal(World::travel_wished);
    lemma_travel(w, id, target, way);
    assert(seq![way][0] == way);
}

/// Steps that are asked for lead to where they end, by whatever way there is.
pub proof fn law_steps_lead_to_their_end(
    w: World,
    id: u32,
    steps: Vec<Direction>,
    target: Position,
    hunts: Seq<Seq<Direction>>,
    way: Seq<Direction>,
)
    requires
        w.wf(),
        w.players.has(id),
        walk_end(w.players.at(id).position, steps@) == Some(target),
        within_walk(w, w.players.at(id).position, target),
        w.players.at(id).go_to_position != Some(target) || w.players.at(id).walk.len() == 0,
        way.len() > 0,
    ensures
        ({
            let p = w.players.at(id);
            let later = w.led(Command::GoToSteps { id, steps }, hunts, seq![way]);
            &&& later.players.has(id)
            &&& later.players.at(id) == (PlayerModel {
                go_to_position: Some(target),
                follow_target: None,
                walk: way,
                ..p
            })
            &&& others_stay(w, later, id)
        }),
{
    reveal(World::travel_wished);
    reveal(World::steps_wished);
    lemma_travel(w, id, target, way);
    assert(seq![way][0] == way);
}

proof fn lemma_travel(w: World, id: u32, target: Position, way: Seq<Direction>)
    requires
        w.wf(),
        w.players.has(id),
        within_walk(w, w.players.at(id).position, target),
    ensures
        ({
            let p = w.players.at(id);
            let later = w.travel_settled(id, target, way);
            let q = later.players.at(id);
            &&& w.keeps_players(later)
            &&& others_stay(w, later, id)
            &&& way.len() > 0 ==> later.players.has(id) && q == (PlayerModel {
                go_to_position: Some(target),
                follow_target: None,
                walk: way,
                ..p
            })
            &&& way.len() == 0 ==> reads(w, later, id, "There is no way."@)
            &&& way.len() == 0 && later.players.has(id) ==> q.go_to_position is None
                && q.follow_target is None && q.position == p.position
        }),
{
    reveal(World::travel_wished);
    let p = w.players.at(id);
    let r = PlayerModel { follow_target: None, go_to_position: Some(target), ..p };
    law_set(w.players, id, r);
    let a = w.set_player(id, r);
    if way.len() > 0 {
        law_set(a.players, id, PlayerModel { walk: way, ..r });
    } else {
        let s = PlayerModel { go_to_position: None, failed_repaths: None, ..r };
        law_set(a.players, id, s);
        let b = a.set_player(id, s);
        let m = PacketModel::TextMessage { mode: 21, text: encode_utf8("There is no way."@) };
        law_messages_arrive(b, id, m);
        law_push(b, id, m);
        assert(w.keeps_players(b));
        lemma_keeps_players_trans(w, b, b.push(id, m));
    }
}

/// Whoever wants to go to another floor, into or out of a protection zone, or where it cannot
/// walk, is told so, and nothing else happens.
pub proof fn law_bad_goals_are_refused(
    w: World,
    id: u32,
    target: Position,
    hunts: Seq<Seq<Direction>>,
    ways: Seq<Seq<Direction>>,
)
    requires
        w.wf(),
        w.players.has(id),
    ensures
        ({
            let from = w.players.at(id).position;
            let zone = w.map.zone_at(from) || w.map.zone_at(target);
            let later = w.led(Command::GoToPosition { id, target }, hunts, ways);
            &&& zone || from.z == target.z && !w.map.walkable(target) ==> w.only_told(later)
                && reads(w, later, id, "You cannot walk there."@)
            &&& !zone && from.z != target.z ==> w.only_told(later) && reads(
                w,
                later,
                id,
                "You cannot walk to a different floor."@,
            )
        }),
{
    reveal(World::travel_wished);
    let there = "You cannot walk there."@;
    let floor = "You cannot walk to a different floor."@;
    lemma_status(w, id, there);
    lemma_status(w, id, floor);
    law_messages_arrive(w, id, PacketModel::TextMessage { mode: 21, text: encode_utf8(there) });
    law_messages_arrive(w, id, PacketModel::TextMessage { mode: 21, text: encode_utf8(floor) });
}

/// Whoever wants to follow someone on its floor who is not yet beside it does so from then on, by
/// the way that was found, and goes nowhere else.
pub proof fn law_followers_set_out(
    w: World,
    id: u32,
    t: u32,
    hunts: Seq<Seq<Direction>>,
    way: Seq<Direction>,
)
    requires
        w.wf(),
        w.players.has(id),
        t != 0,
        t != id,
        w.creature_position(t) matches Some(at) && at.z == w.players.at(id).position.z && !close(
            w.players.at(id).position,
            at,
        ),
    ensures
        ({
            let p = w.players.at(id);
            let later = w.led(Command::FollowTarget { id, target_id: t }, hunts, seq![way]);
            &&& later.players.has(id)
            &&& later.players.at(id) == (PlayerModel {
                follow_target: Some(t),
                go_to_position: None,
                failed_repaths: None,
                walk: if way.len() > 0 {
                    way
                } else {
                    p.walk
                },
                ..p
            })
            &&& others_stay(w, later, id)
            &&& later.monsters == w.monsters
        }),
{
    reveal(World::follow_wished);
    let p = w.players.at(id);
    let r = PlayerModel {
        follow_target: Some(t),
        go_to_position: None,
        failed_repaths: None,
        ..p
    };
    law_set(w.players, id, r);
    let a = w.set_player(id, r);
    law_set(a.players, id, PlayerModel { walk: way, ..r });
    assert(seq![way][0] == way);
}

/// Whoever wants to follow no one no longer does, and has no steps left.
pub proof fn law_followers_stop(
    w: World,
    id: u32,
    hunts: Seq<Seq<Direction>>,
    ways: Seq<Seq<Direction>>,
)
    requires
        w.wf(),
        w.players.has(id),
    ensures
        ({
            let later = w.led(Command::FollowTarget { id, target_id: 0 }, hunts, ways);
            &&& later.players.has(id)
            &&& later.players.at(id) == (PlayerModel {
                follow_target: None,
                walk: Seq::empty(),
                ..w.players.at(id)
            })
            &&& others_stay(w, later, id)
        }),
{
    reveal(World::follow_wished);
    let r = PlayerModel { follow_target: None, walk: Seq::empty(), ..w.players.at(id) };
    law_set(w.players, id, r);
}

/// A creature may take its next step after `elapsed` milliseconds: a hundred seconds divided by
/// its speed must be over, and no less than 200 and no more than 2000 milliseconds.
pub open spec fn may_step_again(elapsed: int, speed: u16) -> bool {
    elapsed >= 2000 || elapsed >= 200 && (elapsed + 1) * speed > 100_000
}

pub proof fn lemma_step_interval(elapsed: int, speed: u16)
    requires
        elapsed >= 0,
    ensures
        may_step_again(elapsed, speed) <==> elapsed >= step_interval(speed),
{
    let s: int = if speed >= 1 {
        speed as int
    } else {
        1
    };
    let raw = 100_000int / s;
    assert(raw * s <= 100_000 < (raw + 1) * s) by (nonlinear_arith)
        requires
            s >= 1,
            raw == 100_000int / s,
    ;
    if elapsed >= raw {
        assert((elapsed + 1) * s >= (raw + 1) * s) by (nonlinear_arith)
            requires
                elapsed >= raw,
                s >= 1,
        ;
    } else {
        assert((elapsed + 1) * s <= raw * s) by (nonlinear_arith)
            requires
                elapsed < raw,
                s >= 1,
        ;
    }
    if speed == 0 {
        assert(raw == 100_000);
    }
}

/// Who walks by itself and may take its next step does: it is on the next tile of its way, with the
/// rest of its way before it, and the time of the step is noted.
pub proof fn law_walkers_go_on(w: World, id: u32, found: Seq<Direction>, way: Seq<Direction>, to: Position)
    requires
        w.wf(),
        w.players.has(id),
        ({
            let p = w.players.at(id);
            &&& p.follow_target is None && p.go_to_position is Some
            &&& p.go_to_position != Some(p.position)
            &&& way == if p.walk.len() > 0 {
                p.walk
            } else {
                found
            }
            &&& way.len() > 0
            &&& next_to(p.position, way[0], to)
            &&& !w.map.zone_at(p.position) && !w.map.zone_at(to)
            &&& p.last_walk_ms <= w.now_ms
            &&& may_step_again(w.now_ms - p.last_walk_ms, p.speed)
        }),
        w.map.walkable(to),
        no_other_on(w, id, to),
    ensures
        ({
            let p = w.players.at(id);
            let later = w.player_thought(id, found);
            let q = later.players.at(id);
            &&& w.keeps_players(later)
            &&& later.players.has(id) ==> {
                &&& q.position == to
                &&& q.direction == way[0]
                &&& q.walk == way.drop_first()
                &&& q.last_walk_ms == w.now_ms
                &&& q.failed_repaths is None
                &&& q.go_to_position == p.go_to_position
                &&& q.inventory == p.inventory && q.health == p.health
            }
            &&& others_stay(w, later, id)
            &&& later.monsters == w.monsters && later.overlay == w.overlay
        }),
{
    let p = w.players.at(id);
    lemma_step_interval(w.now_ms - p.last_walk_ms, p.speed);
    assert(p.position.shifted(way[0].dx(), way[0].dy()) == Some(to));
    lemma_way_step(w, id, way, to);
    assert(w.player_plan(id).0 == w);
    assert(w.player_way(id, found) == way);
    assert(w.player_thought(id, found) == w.went_on(id, found));
    assert(w.went_on(id, found) == w.with_way(id, way.drop_first()).stepped(
        id,
        way[0],
    ).step_noted(id, p.position));
}

/// Who follows someone in view on its floor, not yet beside it, and may take its next step does.
pub proof fn law_followers_go_on(
    w: World,
    id: u32,
    t: u32,
    found: Seq<Direction>,
    way: Seq<Direction>,
    to: Position,
)
    requires
        w.wf(),
        w.players.has(id),
        ({
            let p = w.players.at(id);
            &&& p.follow_target == Some(t)
            &&& w.creature_position(t) matches Some(at) && at.z == p.position.z && sees(
                p.position,
                at,
            ) && !close(p.position, at)
            &&& way == if p.walk.len() > 0 {
                p.walk
            } else {
                found
            }
            &&& way.len() > 0
            &&& next_to(p.position, way[0], to)
            &&& !w.map.zone_at(p.position)
            &&& p.last_walk_ms <= w.now_ms
            &&& may_step_again(w.now_ms - p.last_walk_ms, p.speed)
        }),
        w.map.walkable(to),
        no_other_on(w, id, to),
    ensures
        ({
            let later = w.player_thought(id, found);
            let q = later.players.at(id);
            &&& w.keeps_players(later)
            &&& later.players.has(id) ==> {
                &&& q.position == to
                &&& q.direction == way[0]
                &&& q.walk == way.drop_first()
                &&& q.last_walk_ms == w.now_ms
                &&& q.follow_target == Some(t)
            }
            &&& others_stay(w, later, id)
        }),
{
    let p = w.players.at(id);
    lemma_step_interval(w.now_ms - p.last_walk_ms, p.speed);
    assert(p.position.shifted(way[0].dx(), way[0].dy()) == Some(to));
    lemma_way_step(w, id, way, to);
    assert(w.player_plan(id).0 == w);
    assert(w.player_way(id, found) == way);
    assert(w.player_thought(id, found) == w.went_on(id, found));
    assert(w.went_on(id, found) == w.with_way(id, way.drop_first()).stepped(
        id,
        way[0],
    ).step_noted(id, p.position));
}

proof fn lemma_way_step(w: World, id: u32, way: Seq<Direction>, to: Position)
    requires
        w.wf(),
        w.players.has(id),
        way.len() > 0,
        next_to(w.players.at(id).position, way[0], to),
        w.map.walkable(to),
        no_other_on(w, id, to),
    ensures
        ({
            let p = w.players.at(id);
            let later = w.with_way(id, way.drop_first()).stepped(id, way[0]).step_noted(
                id,
                p.position,
            );
            let q = later.players.at(id);
            &&& w.keeps_players(later)
            &&& later.players.has(id) ==> {
                &&& q.position == to
                &&& q.direction == way[0]
                &&& q.walk == way.drop_first()
                &&& q.last_walk_ms == w.now_ms
                &&& q.failed_repaths is None
                &&& q.go_to_position == p.go_to_position && q.follow_target == p.follow_target
                &&& q.inventory == p.inventory && q.health == p.health
            }
            &&& others_stay(w, later, id)
            &&& later.monsters == w.monsters && later.overlay == w.overlay
        }),
{
    let p = w.players.at(id);
    let d = way[0];
    let r = PlayerModel { walk: way.drop_first(), ..p };
    law_set(w.players, id, r);
    lemma_set_player(w, id, r);
    let u = w.with_way(id, way.drop_first());
    assert(u == w.set_player(id, r));
    assert(p.position.shifted(d.dx(), d.dy()) == Some(to));
    assert(no_other_on(u, id, to)) by {
        assert forall|k: u32| #[trigger] u.players.has(k) && k != id implies u.players.at(
            k,
        ).position != to by {
            assert(w.players.has(k));
        }
    }
    assert(u.step_to(id, d) == Some(to));
    law_step_moves_one(u, id, d);
    let q = PlayerModel { direction: d, position: to, ..r };
    law_set(u.players, id, q);
    let v = u.set_player(id, q);
    let s = u.stepped(id, d);
    assert(w.keeps_players(v));
    lemma_keeps_players_trans(w, v, s);
    if s.players.has(id) {
        law_set(
            s.players,
            id,
            PlayerModel { last_walk_ms: s.now_ms, failed_repaths: None, ..s.players.at(id) },
        );
        let later = s.step_noted(id, p.position);
        assert(s.players.at(id).position == to);
        assert(s.keeps_players(later));
        lemma_keeps_players_trans(w, s, later);
        assert forall|k: u32|
            #![trigger later.players.has(k)]
            #![trigger later.players.at(k)]
            later.players.has(k) && k != id implies w.players.has(k) && later.players.at(k) == (
        PlayerModel {
            session: later.players.at(k).session,
            known: later.players.at(k).known,
            ..w.players.at(k)
        }) by {
            assert(s.players.has(k));
            assert(v.players.has(k));
        }
    }
}

/// Who may not yet take its next step waits where it is and keeps its way.
pub proof fn law_walkers_wait(w: World, id: u32, found: Seq<Direction>)
    requires
        w.wf(),
        w.players.has(id),
        ({
            let p = w.players.at(id);
            &&& p.follow_target is None && p.go_to_position is Some
            &&& p.go_to_position != Some(p.position)
            &&& p.walk.len() > 0
            &&& !w.map.zone_at(p.position)
            &&& p.last_walk_ms <= w.now_ms
            &&& !may_step_again(w.now_ms - p.last_walk_ms, p.speed)
        }),
    ensures
        w.player_thought(id, found).players.has(id),
        w.player_thought(id, found).players.at(id) == w.players.at(id),
        others_stay(w, w.player_thought(id, found), id),
{
    let p = w.players.at(id);
    lemma_step_interval(w.now_ms - p.last_walk_ms, p.speed);
    law_set(w.players, id, p);
    assert(w.player_way(id, found) == p.walk);
    assert(w.went_on(id, found) == w.with_way(id, p.walk));
}

/// Who has come to where it wanted to go walks no further.
pub proof fn law_travellers_arrive(w: World, id: u32, found: Seq<Direction>)
    requires
        w.wf(),
        w.players.has(id),
        w.players.at(id).follow_target is None,
        w.players.at(id).go_to_position == Some(w.players.at(id).position),
    ensures
        ({
            let later = w.player_thought(id, found);
            &&& later.players.has(id)
            &&& later.players.at(id) == (PlayerModel {
                go_to_position: None,
                failed_repaths: None,
                walk: Seq::empty(),
                ..w.players.at(id)
            })
            &&& others_stay(w, later, id)
        }),
{
    let r = PlayerModel {
        go_to_position: None,
        failed_repaths: None,
        walk: Seq::empty(),
        ..w.players.at(id)
    };
    law_set(w.players, id, r);
}

/// A monster that has steps left, or has found a way to whom it chases, takes the next one, and
/// has the others before it.
pub proof fn law_monsters_go_on(w: World, id: u32, found: Seq<Direction>, way: Seq<Direction>, to: Position)
    requires
        w.wf(),
        w.monsters.has(id),
        ({
            let m = w.monsters.at(id);
            &&& m.walk.len() == 0 ==> (m.follow_target matches Some(t) && (w.creature_position(
                t,
            ) matches Some(at) && at.z == m.position.z)) && way == found
            &&& m.walk.len() > 0 ==> way == m.walk && found.len() == 0
            &&& way.len() > 0
            &&& next_to(m.position, way[0], to)
        }),
        w.map.walkable(to),
        no_other_on(w, id, to),
    ensures
        ({
            let later = w.monster_thought(id, found);
            &&& w.keeps_players(later)
            &&& later.monsters.has(id)
            &&& later.monsters.at(id) == (MonsterModel {
                position: to,
                direction: way[0],
                walk: way.drop_first(),
                ..w.monsters.at(id)
            })
            &&& forall|k: u32|
                #![trigger later.monsters.at(k)]
                k != id && w.monsters.has(k) ==> later.monsters.has(k) && later.monsters.at(k)
                    == w.monsters.at(k)
        }),
{
    let m = w.monsters.at(id);
    let r = MonsterModel { walk: way.drop_first(), ..m };
    law_set(w.monsters, id, r);
    let u = w.set_monster(id, r);
    assert(w.monster_way(id, found) == way);
    assert(w.monster_set_out(id, found) == u);
    super::super::model::lemma_set_monster(w, id, r);
    assert(no_other_on(u, id, to)) by {
        assert forall|k: u32| #[trigger] u.players.has(k) && k != id implies u.players.at(
            k,
        ).position != to by {
            assert(w.players.has(k));
        }
    }
    law_open_monster_steps_are_taken(u, id, way[0], to);
    let later = u.monster_stepped(id, way[0]);
    assert(w.monster_thought(id, found) == later);
    assert forall|k: u32|
        #![trigger later.monsters.at(k)]
        k != id && w.monsters.has(k) implies later.monsters.has(k) && later.monsters.at(k)
        == w.monsters.at(k) by {
        assert(u.monsters.has(k));
    }
}

/// In a tick everyone who walks by itself has a turn, and no one else; so does each monster whose
/// id has the last digit of that tick.
pub proof fn law_every_walker_has_a_turn(w: World, id: u32, bucket: u8)
    requires
        w.wf(),
    ensures
        w.walkers().contains(id) <==> w.players.has(id) && (w.players.at(id).follow_target is Some
            || w.players.at(id).go_to_position is Some),
        w.in_bucket(bucket).contains(id) <==> w.monsters.has(id) && id % 10 == bucket as u32,
{
    let order = w.players.order;
    if w.walkers().contains(id) {
        crate::registry::lemma_filter_from(order, w.walks(), id);
        assert(order.contains(id));
    } else if w.players.has(id) && w.walks()(id) {
        assert(order.contains(id));
        order.lemma_filter_contains(w.walks(), order.index_of(id));
    }
    let f = |k: u32| k % 10 == bucket as u32;
    let monsters = w.monsters.order;
    if w.in_bucket(bucket).contains(id) {
        crate::registry::lemma_filter_from(monsters, f, id);
        assert(monsters.contains(id));
    } else if w.monsters.has(id) && id % 10 == bucket as u32 {
        assert(monsters.contains(id));
        monsters.lemma_filter_contains(f, monsters.index_of(id));
    }
}

} // verus!
