//! What deaths leave behind: loot, records, and monsters that come again.

use vstd::prelude::*;

use super::lemma_pool_left;
use super::lemma_splashed;
use super::lemma_told_item;
use super::super::combat::fights;
use super::super::combat::splash;
use super::super::combat::Outcome;
use super::super::items::law_with_stack;
use super::super::model::law_gone_told;
use super::super::model::law_shown_to;
use super::super::model::lemma_offer;
use super::super::model::World;
use super::super::state::MonsterDrop;
use super::super::state::SpawnModel;
use super::super::ITEM_FULLSPLASH;
use crate::map::stack::lemma_units_insert;
use crate::map::StackThing;
use crate::registry::law_add_last;
use crate::registry::law_set;
use crate::registry::lemma_filter_from;
use crate::wire::WireItem;
use crate::Position;

verus! {

/// How many pieces of `sid` the loot has that chance would have dropped: of stackables as many as
/// the entry says, and of anything else one.
pub open spec fn pieces_won(w: World, loot: Seq<MonsterDrop>, drops: Seq<bool>, sid: u16) -> int
    decreases loot.len(),
{
    if loot.len() == 0 {
        0
    } else {
        let n = loot.len() - 1;
        let d = loot[n];
        pieces_won(w, loot.drop_last(), drops, sid) + (if n < drops.len() && drops[n] && d.item_id
            == sid {
            if w.map.meta_at(sid)->0.stackable {
                d.count as int
            } else {
                1
            }
        } else {
            0
        })
    }
}

/// There is nothing unknown in the loot, and at least one piece of each.
pub open spec fn all_known(w: World, loot: Seq<MonsterDrop>) -> bool {
    forall|i: int|
        0 <= i < loot.len() ==> w.map.meta_at((#[trigger] loot[i]).item_id) is Some && loot[i].count
            >= 1
}

/// The tile `pos` has a ground and so many things that `n` more find room.
pub open spec fn has_room(w: World, pos: Position, n: int) -> bool {
    w.stack(pos) matches Some(st) && st.things.len() + n <= 10 && st.pre <= st.things.len()
}

proof fn lemma_one_drop(
    w: World,
    pos: Position,
    d: MonsterDrop,
    dropped: bool,
    sid: u16,
    other: Position,
)
    requires
        w.players.wf(),
        w.map.meta_at(d.item_id) is Some,
        d.count >= 1,
        has_room(w, pos, 1),
        other != pos,
    ensures
        ({
            let later = w.loot_dropped(pos, d, dropped);
            &&& later.players.wf()
            &&& later.map == w.map
            &&& later.stack(other) == w.stack(other)
            &&& later.stack(pos) matches Some(st) && st.pre == w.stack(pos)->0.pre
                && st.things.len() <= w.stack(pos)->0.things.len() + 1 && st.pre
                <= st.things.len()
            &&& later.pieces_on(pos, sid) == w.pieces_on(pos, sid) + (if dropped && d.item_id
                == sid {
                if w.map.meta_at(sid)->0.stackable {
                    d.count as int
                } else {
                    1
                }
            } else {
                0
            })
        }),
{
    if dropped {
        let st = w.stack(pos)->0;
        let m = w.map.meta_at(d.item_id)->0;
        let count = if m.stackable {
            Some(d.count)
        } else {
            None
        };
        let item = WireItem { client_id: m.client_id, subtype: count, animated: m.animated };
        let t = StackThing { item, server_id: d.item_id, count };
        let a = w.topped_with(pos, t);
        law_with_stack(w, pos, st.with_front(t), other);
        lemma_units_insert(st.things, st.pre as int, t, sid);
        lemma_told_item(a, pos, a.front_slot(pos), item, false);
    }
}

proof fn lemma_all_drops(
    w: World,
    pos: Position,
    loot: Seq<MonsterDrop>,
    drops: Seq<bool>,
    sid: u16,
    other: Position,
)
    requires
        w.players.wf(),
        all_known(w, loot),
        has_room(w, pos, loot.len() as int),
        other != pos,
    ensures
        ({
            let later = w.looted(pos, loot, drops);
            &&& later.players.wf()
            &&& later.map == w.map
            &&& later.stack(other) == w.stack(other)
            &&& later.stack(pos) matches Some(st) && st.pre == w.stack(pos)->0.pre
                && st.things.len() <= w.stack(pos)->0.things.len() + loot.len() && st.pre
                <= st.things.len()
            &&& later.pieces_on(pos, sid) == w.pieces_on(pos, sid) + pieces_won(
                w,
                loot,
                drops,
                sid,
            )
        }),
    decreases loot.len(),
{
    if loot.len() > 0 {
        let n = loot.len() - 1;
        let rest = loot.drop_last();
        assert forall|i: int| 0 <= i < rest.len() implies w.map.meta_at(
            (#[trigger] rest[i]).item_id,
        ) is Some && rest[i].count >= 1 by {
            assert(rest[i] == loot[i]);
        }
        lemma_all_drops(w, pos, rest, drops, sid, other);
        let a = w.looted(pos, rest, drops);
        assert(w.map.meta_at(loot[n].item_id) is Some);
        lemma_one_drop(a, pos, loot[n], n < drops.len() && drops[n], sid, other);
    }
}

/// When a monster dies, all of its loot that chance would have dropped lies on its tile, piece for
/// piece, as long as there is room. Other tiles stay as they are.
pub proof fn law_loot_lies_there(
    w: World,
    victim: u32,
    now: u64,
    drops: Seq<bool>,
    sid: u16,
    other: Position,
)
    requires
        w.wf(),
        w.monsters.has(victim),
        all_known(w, w.monsters.at(victim).loot),
        has_room(w, w.monsters.at(victim).position, w.monsters.at(victim).loot.len() as int + 1),
        sid != ITEM_FULLSPLASH,
        other != w.monsters.at(victim).position,
    ensures
        ({
            let m = w.monsters.at(victim);
            let later = w.monster_died(victim, now, drops);
            &&& !later.monsters.has(victim)
            &&& later.pieces_on(m.position, sid) == w.pieces_on(m.position, sid) + pieces_won(
                w,
                m.loot,
                drops,
                sid,
            )
            &&& later.stack(other) == w.stack(other)
        }),
{
    super::law_dead_monsters_are_replaced(w, victim, now, drops);
    let m = w.monsters.at(victim);
    let pos = m.position;
    let st = w.stack(pos)->0;
    let wet = match w.monster_fluid(victim) {
        Some(fluid) => w.splashed(pos, ITEM_FULLSPLASH, fluid),
        None => w,
    };
    match w.monster_fluid(victim) {
        Some(fluid) => {
            let t = splash(ITEM_FULLSPLASH, fluid);
            lemma_splashed(w, pos, ITEM_FULLSPLASH, fluid);
            let a = w.topped_with(pos, t);
            law_with_stack(w, pos, st.with_front(t), other);
            lemma_units_insert(st.things, st.pre as int, t, sid);
            lemma_told_item(a, pos, a.front_slot(pos), t.item, false);
        },
        None => {},
    }
    assert(wet.map == w.map);
    assert(wet.pieces_on(pos, sid) == w.pieces_on(pos, sid));
    assert(wet.stack(other) == w.stack(other));
    assert(has_room(wet, pos, m.loot.len() as int));
    let calm = wet.unfought(victim, false);
    assert(calm.players.wf());
    let ids = calm.spectators(pos, u32::MAX);
    law_gone_told(calm, ids, victim);
    let told = calm.gone_told(ids, victim);
    let gone = World { monsters: told.monsters.without(victim), ..told };
    let due = match m.spawn_id {
        Some(s) => gone.respawn_due(s, now),
        None => gone,
    };
    assert(due.stack(pos) == wet.stack(pos));
    assert(due.stack(other) == wet.stack(other));
    lemma_all_drops(due, pos, m.loot, drops, sid, other);
    lemma_won(due, w, m.loot, drops, sid);
}

proof fn lemma_won(a: World, b: World, loot: Seq<MonsterDrop>, drops: Seq<bool>, sid: u16)
    requires
        a.map == b.map,
    ensures
        pieces_won(a, loot, drops, sid) == pieces_won(b, loot, drops, sid),
    decreases loot.len(),
{
    if loot.len() > 0 {
        lemma_won(a, b, loot.drop_last(), drops, sid);
    }
}

/// A player who dies is gone. Where records are kept, the last one puts it into the temple, in
/// full health and otherwise as it was, unless it left before because its session could take no
/// more messages.
pub proof fn law_the_dead_wake_in_the_temple(w: World, victim: u32)
    requires
        w.wf(),
        w.players.has(victim),
        w.saves is Some,
    ensures
        ({
            let p = w.players.at(victim);
            let later = w.died(victim);
            let r = later.saves->0.last();
            &&& !later.players.has(victim)
            &&& later.saves is Some
            &&& later.saves->0.len() > w.saves->0.len()
            &&& {
                ||| later.left_full(victim, w.left.len() as int)
                ||| {
                    &&& r.name == p.name
                    &&& r.position == w.map.spawn_point()
                    &&& r.health == p.max_health && r.max_health == p.max_health
                    &&& r.direction == p.direction
                    &&& r.outfit == p.outfit && r.sex == p.sex
                }
            }
        }),
{
    super::law_death_removes(w, victim);
    let m = crate::wire::PacketModel::DeathWindow;
    lemma_offer(w, victim, m);
    let a = w.offer(victim, m);
    assert(a.players.has(victim)) by {
        law_set(
            w.players,
            victim,
            super::super::state::PlayerModel {
                session: w.players.at(victim).session.offered(m),
                ..w.players.at(victim)
            },
        );
    }
    let b = a.unfought(victim, true);
    assert(b.players.wf());
    assert(b.players.has(victim));
    let c = b.pool_left(victim);
    lemma_pool_left(b, victim);
    let pos = b.players.at(victim).position;
    let ids = c.spectators(pos, victim);
    law_gone_told(c, ids, victim);
    let e = c.gone_told(ids, victim);
    let later = w.died(victim);
    assert(later == e.buried(victim));
    assert(a.saves == w.saves && b.saves == a.saves);
    assert(b.keeps_players(World { overlay: b.overlay, ..c }));
    assert(c.keeps_players(e));
    if e.players.has(victim) {
        assert(c.players.has(victim));
    } else if c.players.has(victim) {
        assert(e.left_full(victim, c.left.len() as int));
        let i = choose|i: int|
            c.left.len() <= i < e.left.len() && #[trigger] e.left[i].0 == victim
                && !e.left[i].1.accepts();
        assert(later.left[i].0 == victim);
    } else {
        let v = World { overlay: b.overlay, ..c };
        assert(!v.players.has(victim));
        assert(v.left_full(victim, b.left.len() as int));
        let i = choose|i: int|
            b.left.len() <= i < v.left.len() && #[trigger] v.left[i].0 == victim
                && !v.left[i].1.accepts();
        assert(later.left[i] == v.left[i]);
        assert(later.left[i].0 == victim);
    }
}

/// `k` is a monster that was not there before, and that comes from spawn `sid`.
pub open spec fn is_newborn(w: World, later: World, sid: u32, k: u32) -> bool {
    &&& later.monsters.has(k) && !w.monsters.has(k)
    &&& later.monsters.at(k).spawn_id == Some(sid)
    &&& later.monsters.at(k).position == w.spawns.at(sid).position
    &&& later.monsters.at(k).health == w.spawns.at(sid).kind.health
    &&& later.monsters.at(k).max_health == w.spawns.at(sid).kind.max_health
    &&& later.monsters.at(k).name == w.spawns.at(sid).kind.name
}

/// The spawns of `later` are those of `w`, which wait or do not.
spec fn same_spawns(w: World, later: World) -> bool {
    &&& later.spawns.order == w.spawns.order
    &&& forall|s: u32|
        #![trigger later.spawns.at(s)]
        #![trigger later.spawns.has(s)]
        {
            &&& later.spawns.has(s) == w.spawns.has(s)
            &&& w.spawns.has(s) ==> later.spawns.at(s) == (SpawnModel {
                respawn_at_ms: later.spawns.at(s).respawn_at_ms,
                ..w.spawns.at(s)
            })
        }
}

proof fn lemma_respawned(w: World, sid: u32)
    requires
        w.wf(),
        w.spawns.has(sid),
        w.next_monster_id < u32::MAX,
    ensures
        ({
            let later = w.respawned(sid);
            &&& later.wf()
            &&& later.next_monster_id == w.next_monster_id + 1
            &&& same_spawns(w, later)
            &&& later.spawns.at(sid).respawn_at_ms is None
            &&& forall|s: u32|
                #![trigger later.spawns.at(s)]
                s != sid ==> later.spawns.at(s) == w.spawns.at(s)
            &&& is_newborn(w, later, sid, w.next_monster_id)
            &&& forall|k: u32|
                #![trigger later.monsters.at(k)]
                #![trigger later.monsters.has(k)]
                w.monsters.has(k) ==> later.monsters.has(k) && later.monsters.at(k)
                    == w.monsters.at(k)
        }),
{
    let s = w.spawns.at(sid);
    let m = s.kind.newborn(s.position, Some(sid));
    assert(!w.monsters.has(w.next_monster_id));
    law_add_last(w.monsters, w.next_monster_id, m);
    law_set(w.spawns, sid, SpawnModel { respawn_at_ms: None, ..s });
    let u = World {
        spawns: w.spawns.set(sid, SpawnModel { respawn_at_ms: None, ..s }),
        ..w
    };
    let a = u.monster_added(m);
    assert(a.wf());
    let ids = a.spectators(s.position, u32::MAX);
    law_shown_to(a, ids, w.next_monster_id, s.position);
    super::super::model::lemma_only_told_wf(a, w.respawned(sid));
}

proof fn lemma_all_respawned(w: World, sids: Seq<u32>, sid: u32)
    requires
        w.wf(),
        forall|i: int| 0 <= i < sids.len() ==> w.spawns.has(#[trigger] sids[i]),
        w.next_monster_id + sids.len() <= u32::MAX,
    ensures
        ({
            let later = w.all_respawned(sids);
            &&& same_spawns(w, later)
            &&& later.next_monster_id == w.next_monster_id + sids.len()
            &&& forall|k: u32|
                #![trigger later.monsters.at(k)]
                #![trigger later.monsters.has(k)]
                w.monsters.has(k) ==> later.monsters.has(k) && later.monsters.at(k)
                    == w.monsters.at(k)
            &&& sids.contains(sid) ==> {
                &&& later.spawns.at(sid).respawn_at_ms is None
                &&& exists|k: u32| #[trigger] is_newborn(w, later, sid, k)
            }
            &&& !sids.contains(sid) ==> later.spawns.at(sid) == w.spawns.at(sid)
        }),
    decreases sids.len(),
{
    if sids.len() > 0 {
        let rest = sids.drop_first();
        assert(w.spawns.has(sids[0]));
        lemma_respawned(w, sids[0]);
        let a = w.respawned(sids[0]);
        assert forall|i: int| 0 <= i < rest.len() implies a.spawns.has(#[trigger] rest[i]) by {
            assert(w.spawns.has(sids[i + 1]));
        }
        lemma_all_respawned(a, rest, sid);
        let later = w.all_respawned(sids);
        if rest.contains(sid) {
            let i = rest.index_of(sid);
            assert(sids[i + 1] == sid);
            let k = choose|k: u32| #[trigger] is_newborn(a, later, sid, k);
            assert(is_newborn(w, later, sid, k)) by {
                if w.monsters.has(k) {
                    assert(a.monsters.has(k));
                }
                assert(w.spawns.has(sid)) by {
                    assert(w.spawns.has(sids[i + 1]));
                }
                assert(a.spawns.at(sid).position == w.spawns.at(sid).position);
            }
        } else if sids.contains(sid) {
            let i = sids.index_of(sid);
            if i > 0 {
                assert(rest[i - 1] == sid);
            }
            assert(sids[0] == sid);
            assert(is_newborn(w, later, sid, w.next_monster_id)) by {
                assert(a.monsters.has(w.next_monster_id));
                let _ = later.monsters.at(w.next_monster_id);
            }
        } else {
            assert(sids[0] != sid);
        }
    }
}

/// Every spawn that is due gives one more monster, where the spawn is and as healthy as its kind,
/// and waits for no other; those that are not due stay as they are. No monster is lost.
pub proof fn law_due_spawns_give_monsters(w: World, now: u64, sid: u32)
    requires
        w.wf(),
        w.spawns.has(sid),
        w.next_monster_id + w.spawns.count() <= u32::MAX,
    ensures
        ({
            let later = w.respawn_all(now);
            let due = w.spawns.at(sid).respawn_at_ms matches Some(t) && t <= now;
            &&& due ==> later.spawns.at(sid).respawn_at_ms is None && exists|k: u32| #[trigger]
                is_newborn(w, later, sid, k)
            &&& !due ==> later.spawns.at(sid) == w.spawns.at(sid)
            &&& forall|k: u32|
                #![trigger later.monsters.at(k)]
                #![trigger later.monsters.has(k)]
                w.monsters.has(k) ==> later.monsters.has(k) && later.monsters.at(k)
                    == w.monsters.at(k)
        }),
{
    let order = w.spawns.order;
    let f = w.is_due(now);
    let sids = order.filter(f);
    order.lemma_filter_len(f);
    assert forall|i: int| 0 <= i < sids.len() implies w.spawns.has(#[trigger] sids[i]) by {
        lemma_filter_from(order, f, sids[i]);
        assert(order.contains(sids[i]));
    }
    lemma_all_respawned(w, sids, sid);
    if f(sid) {
        assert(order.contains(sid));
        order.lemma_filter_contains(f, order.index_of(sid));
    } else if sids.contains(sid) {
        lemma_filter_from(order, f, sid);
    }
}

proof fn lemma_no_fights(order: Seq<u32>, target: spec_fn(u32) -> Option<u32>)
    requires
        forall|i: int| 0 <= i < order.len() ==> target(#[trigger] order[i]) is None,
    ensures
        fights(order, target).len() == 0,
    decreases order.len(),
{
    if order.len() > 0 {
        assert(target(order[order.len() - 1]) is None);
        assert forall|i: int| 0 <= i < order.drop_last().len() implies target(
            #[trigger] order.drop_last()[i],
        ) is None by {
            assert(order.drop_last()[i] == order[i]);
        }
        lemma_no_fights(order.drop_last(), target);
    }
}

/// A tick in which no one fights gives the monsters that are due, and does nothing else to those
/// who are there.
pub proof fn law_quiet_ticks_give_monsters(
    w: World,
    now: u64,
    po: Seq<Outcome>,
    mo: Seq<Outcome>,
    sid: u32,
)
    requires
        w.wf(),
        w.spawns.has(sid),
        w.next_monster_id + w.spawns.count() <= u32::MAX,
        forall|k: u32| #[trigger] w.players.has(k) ==> w.players.at(k).attacking is None,
        forall|k: u32| #[trigger] w.monsters.has(k) ==> w.monsters.at(k).attacking is None,
    ensures
        ({
            let later = w.fought(now, po, mo);
            let due = w.spawns.at(sid).respawn_at_ms matches Some(t) && t <= now;
            &&& due ==> later.spawns.at(sid).respawn_at_ms is None && exists|k: u32| #[trigger]
                is_newborn(w, later, sid, k)
            &&& !due ==> later.spawns.at(sid) == w.spawns.at(sid)
            &&& forall|k: u32|
                #![trigger later.monsters.at(k)]
                #![trigger later.monsters.has(k)]
                w.monsters.has(k) ==> later.monsters.has(k) && later.monsters.at(k)
                    == w.monsters.at(k)
        }),
{
    reveal(World::fought);
    assert forall|i: int| 0 <= i < w.players.order.len() implies w.player_target()(
        #[trigger] w.players.order[i],
    ) is None by {
        assert(w.players.order.contains(w.players.order[i]));
        assert(w.players.has(w.players.order[i]));
    }
    assert forall|i: int| 0 <= i < w.monsters.order.len() implies w.monster_target()(
        #[trigger] w.monsters.order[i],
    ) is None by {
        assert(w.monsters.order.contains(w.monsters.order[i]));
        assert(w.monsters.has(w.monsters.order[i]));
    }
    lemma_no_fights(w.players.order, w.player_target());
    lemma_no_fights(w.monsters.order, w.monster_target());
    law_due_spawns_give_monsters(w, now, sid);
}

} // verus!
