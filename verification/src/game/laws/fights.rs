//! What fights do, by numbers: how much health a hit takes, who sees it, who swings, and what
//! deaths leave behind.

use vstd::prelude::*;

use super::lemma_looted;
use super::lemma_splashed;
use super::lemma_told_item;
use super::super::combat::fights;
use super::super::combat::hit_text;
use super::super::combat::splash;
use super::super::combat::Outcome;
use super::super::model::extends;
use super::super::model::law_ascending;
use super::super::model::law_gone_told;
use super::super::model::law_push;
use super::super::model::law_push_all;
use super::super::model::lemma_offer;
use super::super::model::lemma_only_told_trans;
use super::super::model::sees;
use super::super::model::World;
use super::super::state::MonsterDrop;
use super::super::state::MonsterModel;
use super::super::state::PlayerModel;
use super::super::windows::close;
use super::super::ITEM_FULLSPLASH;
use super::super::ITEM_SMALLSPLASH;
use super::told::hears;
use super::told::law_messages_arrive;
use super::told::law_messages_reach_all;
use super::told::lemma_hears_earlier;
use super::told::lemma_hears_later;
use super::told::lemma_remembers_trans;
use super::told::remembers;
use crate::map::StackThing;
use crate::registry::law_set;
use crate::registry::law_without;
use crate::wire::DamageRole;
use crate::wire::Effect;
use crate::wire::PacketModel;
use crate::wire::Stats;
use crate::wire::WireItem;
use crate::Position;
use vstd::utf8::encode_utf8;

verus! {

/// Whoever sees a tile is among those who are told of what happens there.
pub proof fn law_onlookers_are_told(w: World, pos: Position, k: u32)
    requires
        w.players.wf(),
        w.players.has(k),
        sees(w.players.at(k).position, pos),
    ensures
        w.audience(pos).contains(k),
{
    broadcast use vstd::seq_lib::group_to_multiset_ensures;

    let f = w.onlooker(pos);
    let order = w.players.order;
    assert(order.contains(k));
    order.lemma_filter_contains(f, order.index_of(k));
    let s = order.filter(f);
    law_ascending(s);
    assert(s.to_multiset().count(k) > 0);
    assert(w.audience(pos).to_multiset().count(k) > 0);
}

proof fn lemma_hit_told(
    w: World,
    ids: Seq<u32>,
    attacker: u32,
    victim: Option<u32>,
    pos: Position,
    applied: u32,
    victim_name: Seq<char>,
    attacker_name: Seq<char>,
)
    requires
        w.players.wf(),
    ensures
        w.only_told(
            w.hit_told(ids, attacker, victim, pos, applied, victim_name, attacker_name),
        ),
        forall|k: u32| #[trigger]
            ids.contains(k) ==> hears(
                w,
                w.hit_told(ids, attacker, victim, pos, applied, victim_name, attacker_name),
                k,
                number_shown(k, attacker, victim, pos, applied, victim_name, attacker_name),
            ),
    decreases ids.len(),
{
    if ids.len() > 0 {
        let p = number_shown(ids[0], attacker, victim, pos, applied, victim_name, attacker_name);
        law_push(w, ids[0], p);
        law_messages_arrive(w, ids[0], p);
        let a = w.push(ids[0], p);
        let rest = ids.drop_first();
        lemma_hit_told(a, rest, attacker, victim, pos, applied, victim_name, attacker_name);
        let c = w.hit_told(ids, attacker, victim, pos, applied, victim_name, attacker_name);
        lemma_only_told_trans(w, a, c);
        assert forall|k: u32| #[trigger] ids.contains(k) implies hears(
            w,
            c,
            k,
            number_shown(k, attacker, victim, pos, applied, victim_name, attacker_name),
        ) by {
            let q = number_shown(k, attacker, victim, pos, applied, victim_name, attacker_name);
            if k == ids[0] {
                lemma_hears_later(w, a, c, k, q);
            } else {
                let i = ids.index_of(k);
                assert(rest[i - 1] == k);
                assert(rest.contains(k));
                lemma_hears_earlier(w, a, c, k, q);
            }
        }
    }
}

/// The number of a hit as player `k` is shown it.
pub open spec fn number_shown(
    k: u32,
    attacker: u32,
    victim: Option<u32>,
    pos: Position,
    applied: u32,
    victim_name: Seq<char>,
    attacker_name: Seq<char>,
) -> PacketModel {
    let role = if k == attacker {
        DamageRole::Dealt
    } else if victim == Some(k) {
        DamageRole::Received
    } else {
        DamageRole::Others
    };
    PacketModel::DamageText {
        role,
        position: pos,
        value: applied,
        text: encode_utf8(hit_text(role, applied, victim_name, attacker_name)),
    }
}

/// Player `k`, if it is still there in `later`, was shown the number of a hit since `before`.
pub open spec fn hears_number(
    before: World,
    later: World,
    k: u32,
    role: DamageRole,
    pos: Position,
    value: u32,
) -> bool {
    exists|text: Seq<u8>| #[trigger]
        hears(before, later, k, PacketModel::DamageText { role, position: pos, value, text })
}

/// The hits of others and one's own.
pub open spec fn dealt_by(own: bool) -> DamageRole {
    if own {
        DamageRole::Dealt
    } else {
        DamageRole::Others
    }
}

proof fn lemma_splash_told(w: World, pos: Position, item_id: u16, fluid: u8)
    requires
        w.players.wf(),
    ensures
        w.only_told(World { overlay: w.overlay, ..w.splashed(pos, item_id, fluid) }),
        remembers(w, w.splashed(pos, item_id, fluid)),
{
    match w.stack(pos) {
        Some(st) if st.things.len() < 10 => {
            let u = w.topped_with(pos, splash(item_id, fluid));
            lemma_told_item(u, pos, u.front_slot(pos), splash(item_id, fluid).item, false);
        },
        _ => {},
    }
}

proof fn lemma_loot_told(w: World, pos: Position, loot: Seq<MonsterDrop>, drops: Seq<bool>)
    requires
        w.players.wf(),
    ensures
        w.only_told(World { overlay: w.overlay, ..w.looted(pos, loot, drops) }),
        remembers(w, w.looted(pos, loot, drops)),
    decreases loot.len(),
{
    if loot.len() > 0 {
        let n = loot.len() - 1;
        let a = w.looted(pos, loot.drop_last(), drops);
        lemma_loot_told(w, pos, loot.drop_last(), drops);
        let d = loot[n];
        let c = w.looted(pos, loot, drops);
        match (a.stack(pos), a.map.meta_at(d.item_id)) {
            (Some(st), Some(m)) if n < drops.len() && drops[n] && st.things.len() < 10 => {
                let count = if m.stackable {
                    Some(d.count)
                } else {
                    None
                };
                let item = WireItem { client_id: m.client_id, subtype: count, animated: m.animated };
                let u = a.topped_with(pos, StackThing { item, server_id: d.item_id, count });
                lemma_told_item(u, pos, u.front_slot(pos), item, false);
                let bare = World { overlay: w.overlay, ..u };
                let told = World { overlay: w.overlay, ..c };
                assert(bare == World { overlay: w.overlay, ..a });
                assert(bare.only_told(told));
                lemma_only_told_trans(w, bare, told);
                lemma_remembers_trans(w, a, c);
            },
            _ => {},
        }
    }
}

/// The death of a monster as others see it: messages wait where they did, and the only thing
/// about players that changes besides is whom they fight.
proof fn lemma_monster_died(w: World, victim: u32, now: u64, drops: Seq<bool>)
    requires
        w.players.wf(),
        w.monsters.wf(),
        w.monsters.has(victim),
    ensures
        w.monster_died(victim, now, drops).players.wf(),
        w.monster_died(victim, now, drops).monsters.wf(),
        remembers(w, w.monster_died(victim, now, drops)),
        !w.monster_died(victim, now, drops).monsters.has(victim),
        forall|k: u32|
            #![trigger w.monster_died(victim, now, drops).monsters.has(k)]
            k != victim ==> (w.monster_died(victim, now, drops).monsters.has(k)
                <==> w.monsters.has(k)),
        forall|k: u32|
            #![trigger w.monster_died(victim, now, drops).monsters.at(k)]
            k != victim && w.monsters.has(k) ==> w.monster_died(
                victim,
                now,
                drops,
            ).monsters.at(k).health == w.monsters.at(k).health,
        forall|k: u32|
            #![trigger w.monster_died(victim, now, drops).players.at(k)]
            w.monster_died(victim, now, drops).players.has(k) ==> {
                let q = w.monster_died(victim, now, drops).players.at(k);
                q == (PlayerModel {
                    session: q.session,
                    known: q.known,
                    attacking: q.attacking,
                    ..w.players.at(k)
                })
            },
{
    let m = w.monsters.at(victim);
    let wet = match w.monster_fluid(victim) {
        Some(fluid) => w.splashed(m.position, ITEM_FULLSPLASH, fluid),
        None => w,
    };
    match w.monster_fluid(victim) {
        Some(fluid) => {
            lemma_splash_told(w, m.position, ITEM_FULLSPLASH, fluid);
            lemma_splashed(w, m.position, ITEM_FULLSPLASH, fluid);
        },
        None => {},
    }
    let calm = wet.unfought(victim, false);
    assert(calm.players.wf());
    assert(calm.monsters.wf());
    let ids = calm.spectators(m.position, u32::MAX);
    law_gone_told(calm, ids, victim);
    let told = calm.gone_told(ids, victim);
    law_without(told.monsters, victim);
    let gone = World { monsters: told.monsters.without(victim), ..told };
    let due = match m.spawn_id {
        Some(sid) => gone.respawn_due(sid, now),
        None => gone,
    };
    lemma_looted(due, m.position, m.loot, drops);
    lemma_loot_told(due, m.position, m.loot, drops);
    let later = due.looted(m.position, m.loot, drops);
    assert(remembers(wet, calm));
    lemma_remembers_trans(w, wet, calm);
    lemma_remembers_trans(w, calm, told);
    assert(remembers(told, due));
    lemma_remembers_trans(w, told, due);
    lemma_remembers_trans(w, due, later);
    assert forall|k: u32| #![trigger later.players.at(k)] later.players.has(k) implies ({
        let q = later.players.at(k);
        q == (PlayerModel {
            session: q.session,
            known: q.known,
            attacking: q.attacking,
            ..w.players.at(k)
        })
    }) by {
        assert((World { overlay: due.overlay, ..later }).players.has(k));
        assert(told.players.has(k));
        assert(calm.players.has(k));
        assert((World { overlay: w.overlay, ..wet }).players.has(k));
    }
    assert forall|k: u32| #![trigger later.monsters.at(k)] k != victim && w.monsters.has(
        k,
    ) implies later.monsters.at(k).health == w.monsters.at(k).health by {
        assert(calm.monsters.at(k).health == w.monsters.at(k).health);
        assert(told.monsters.without(victim).at(k) == told.monsters.at(k));
    }
}

/// A hit on a monster takes as much health as it is worth: one that is worth less than the
/// monster has leaves it alive with exactly the rest, and any other kills it. Its other numbers,
/// all other monsters and the health of all players stay as they are, and a monster that fought
/// no one fights the attacker from then on.
pub proof fn law_hits_take_health(
    w: World,
    attacker: u32,
    victim: u32,
    dmg: i32,
    now: u64,
    drops: Seq<bool>,
)
    requires
        w.players.wf(),
        w.monsters.wf(),
        w.monsters.has(victim),
        w.monsters.at(victim).health > 0,
    ensures
        ({
            let m = w.monsters.at(victim);
            let later = w.monster_hit(attacker, victim, dmg, now, drops);
            &&& later.monsters.has(victim) <==> dmg < m.health
            &&& later.monsters.has(victim) ==> later.monsters.at(victim) == (MonsterModel {
                health: (if dmg > 0 {
                    m.health - dmg
                } else {
                    m.health as int
                }) as u32,
                attacking: if m.attacking is None {
                    Some(attacker)
                } else {
                    m.attacking
                },
                last_attack_ms: if m.attacking is None {
                    0
                } else {
                    m.last_attack_ms
                },
                ..m
            })
            &&& forall|k: u32|
                #![trigger later.monsters.has(k)]
                k != victim ==> (later.monsters.has(k) <==> w.monsters.has(k))
            &&& forall|k: u32|
                #![trigger later.monsters.at(k)]
                k != victim && w.monsters.has(k) ==> later.monsters.at(k).health
                    == w.monsters.at(k).health
            &&& forall|k: u32|
                #![trigger later.players.at(k)]
                later.players.has(k) ==> w.players.has(k) && later.players.at(k).health
                    == w.players.at(k).health
        }),
{
    let m = w.monsters.at(victim);
    let later = w.monster_hit(attacker, victim, dmg, now, drops);
    lemma_monster_hit(w, attacker, victim, dmg, now, drops);
}

/// The steps of a hit on a monster, each of which only adds messages.
proof fn lemma_monster_hit(
    w: World,
    attacker: u32,
    victim: u32,
    dmg: i32,
    now: u64,
    drops: Seq<bool>,
)
    requires
        w.players.wf(),
        w.monsters.wf(),
        w.monsters.has(victim),
        w.monsters.at(victim).health > 0,
    ensures
        w.monster_hit(attacker, victim, dmg, now, drops).players.wf(),
        w.monster_hit(attacker, victim, dmg, now, drops).monsters.wf(),
        ({
            let m = w.monsters.at(victim);
            let later = w.monster_hit(attacker, victim, dmg, now, drops);
            let left = (if dmg >= m.health {
                0
            } else if dmg > 0 {
                m.health - dmg
            } else {
                m.health as int
            }) as u32;
            &&& later.monsters.has(victim) <==> dmg < m.health
            &&& later.monsters.has(victim) ==> later.monsters.at(victim) == (MonsterModel {
                health: left,
                attacking: if m.attacking is None {
                    Some(attacker)
                } else {
                    m.attacking
                },
                last_attack_ms: if m.attacking is None {
                    0
                } else {
                    m.last_attack_ms
                },
                ..m
            })
            &&& forall|k: u32|
                #![trigger later.monsters.has(k)]
                k != victim ==> (later.monsters.has(k) <==> w.monsters.has(k))
            &&& forall|k: u32|
                #![trigger later.monsters.at(k)]
                k != victim && w.monsters.has(k) ==> later.monsters.at(k).health
                    == w.monsters.at(k).health
            &&& forall|k: u32|
                #![trigger later.players.at(k)]
                later.players.has(k) ==> w.players.has(k) && later.players.at(k).health
                    == w.players.at(k).health
            &&& forall|k: u32|
                #![trigger w.players.at(k)]
                w.players.has(k) && sees(w.players.at(k).position, m.position) ==> {
                    &&& hears(
                        w,
                        later,
                        k,
                        PacketModel::CreatureHealth {
                            id: victim,
                            health: left,
                            max_health: m.max_health,
                        },
                    )
                    &&& dmg > 0 ==> hears_number(w, later, k, dealt_by(k == attacker), m.position, (m.health - left) as u32)
                }
        }),
{
    let m = w.monsters.at(victim);
    let later = w.monster_hit(attacker, victim, dmg, now, drops);
    let left = (if dmg >= m.health {
        0
    } else if dmg > 0 {
        m.health - dmg
    } else {
        m.health as int
    }) as u32;
    let n = MonsterModel { health: left, ..m };
    law_set(w.monsters, victim, n);
    let a = w.set_monster(victim, n);
    let ids = a.audience(m.position);
    let health = PacketModel::CreatureHealth { id: victim, health: left, max_health: m.max_health };
    let blood = PacketModel::MagicEffect { position: m.position, effect: Effect::DrawBlood };
    let applied = (m.health - left) as u32;
    law_push_all(a, ids, health);
    let b = a.push_all(ids, health);
    law_push_all(b, ids, blood);
    let c = b.push_all(ids, blood);
    let vn = c.name_or_empty(victim);
    let an = c.name_or_empty(attacker);
    let victim_role: Option<u32> = None;
    lemma_hit_told(c, ids, attacker, victim_role, m.position, applied, vn, an);
    let d = c.damage_told(ids, attacker, victim, false, m.position, applied);
    assert(applied == 0 ==> d == c);
    assert(applied > 0 ==> d == c.hit_told(ids, attacker, victim_role, m.position, applied, vn, an));
    assert(c.only_told(d));
    lemma_only_told_trans(a, b, c);
    lemma_only_told_trans(a, c, d);
    let e = match d.monster_fluid(victim) {
        Some(fluid) => d.splashed(m.position, ITEM_SMALLSPLASH, fluid),
        None => d,
    };
    match d.monster_fluid(victim) {
        Some(fluid) => {
            lemma_splash_told(d, m.position, ITEM_SMALLSPLASH, fluid);
            lemma_splashed(d, m.position, ITEM_SMALLSPLASH, fluid);
        },
        None => {},
    }
    assert(remembers(d, e));
    assert(e.monsters == a.monsters);
    assert(e.players.wf());
    if left == 0 {
        lemma_monster_died(e, victim, now, drops);
    } else {
        law_set(e.monsters, victim, e.provoked(victim, attacker).monsters.at(victim));
    }
    assert(remembers(e, later));
    assert forall|k: u32| #![trigger later.players.at(k)] later.players.has(k) implies w.players.has(k)
        && later.players.at(k).health == w.players.at(k).health by {
        assert(e.players.has(k));
        assert((World { overlay: d.overlay, ..e }).players.has(k));
        assert(d.players.has(k));
        assert(a.players.has(k));
    }
    assert forall|k: u32|
        #![trigger w.players.at(k)]
        w.players.has(k) && sees(w.players.at(k).position, m.position) implies {
        &&& hears(w, later, k, health)
        &&& dmg > 0 ==> hears_number(w, later, k, dealt_by(k == attacker), m.position, applied)
    } by {
        law_onlookers_are_told(a, m.position, k);
        law_messages_reach_all(a, ids, health, k);
        assert(hears(w, b, k, health));
        lemma_hears_later(w, b, c, k, health);
        lemma_hears_later(w, c, d, k, health);
        lemma_hears_later(w, d, e, k, health);
        lemma_hears_later(w, e, later, k, health);
        if dmg > 0 {
            let shown = number_shown(k, attacker, victim_role, m.position, applied, vn, an);
            assert(ids.contains(k));
            assert(hears(c, d, k, shown));
            assert(remembers(w, c));
            lemma_hears_earlier(w, c, d, k, shown);
            lemma_hears_later(w, d, e, k, shown);
            lemma_hears_later(w, e, later, k, shown);
            let text = encode_utf8(hit_text(shown->DamageText_role, applied, vn, an));
            assert(hears(
                w,
                later,
                k,
                PacketModel::DamageText {
                    role: shown->DamageText_role,
                    position: m.position,
                    value: applied,
                    text,
                },
            ));
        }
    }
}

/// Everyone who sees a monster hit is told how much health it has left, and how much the hit
/// took: no more than it had.
pub proof fn law_hits_are_seen(
    w: World,
    attacker: u32,
    victim: u32,
    dmg: i32,
    now: u64,
    drops: Seq<bool>,
    k: u32,
)
    requires
        w.players.wf(),
        w.monsters.wf(),
        w.monsters.has(victim),
        w.monsters.at(victim).health > 0,
        dmg > 0,
        w.players.has(k),
        sees(w.players.at(k).position, w.monsters.at(victim).position),
    ensures
        ({
            let m = w.monsters.at(victim);
            let later = w.monster_hit(attacker, victim, dmg, now, drops);
            let taken = (if dmg >= m.health {
                m.health as int
            } else {
                dmg as int
            }) as u32;
            &&& hears(
                w,
                later,
                k,
                PacketModel::CreatureHealth {
                    id: victim,
                    health: (m.health - taken) as u32,
                    max_health: m.max_health,
                },
            )
            &&& hears_number(w, later, k, dealt_by(k == attacker), m.position, taken)
        }),
{
    lemma_monster_hit(w, attacker, victim, dmg, now, drops);
    let _ = w.players.at(k);
}

/// Monster `victim` hit by `attacker` `n` times in a row, for `dmg` each time.
pub open spec fn hit_times(
    w: World,
    attacker: u32,
    victim: u32,
    dmg: i32,
    now: u64,
    drops: Seq<bool>,
    n: nat,
) -> World
    decreases n,
{
    if n == 0 {
        w
    } else {
        hit_times(w, attacker, victim, dmg, now, drops, (n - 1) as nat).monster_hit(
            attacker,
            victim,
            dmg,
            now,
            drops,
        )
    }
}

/// Hits add up: as long as a monster has more health than all of them together are worth, that
/// much is gone, and the first that takes the rest kills it.
pub proof fn law_hits_add_up(
    w: World,
    attacker: u32,
    victim: u32,
    dmg: i32,
    now: u64,
    drops: Seq<bool>,
    n: nat,
)
    requires
        w.players.wf(),
        w.monsters.wf(),
        w.monsters.has(victim),
        w.monsters.at(victim).health > 0,
        dmg > 0,
        n * dmg < w.monsters.at(victim).health + dmg,
    ensures
        ({
            let later = hit_times(w, attacker, victim, dmg, now, drops, n);
            &&& later.players.wf()
            &&& later.monsters.wf()
            &&& n * dmg < w.monsters.at(victim).health ==> later.monsters.has(victim)
                && later.monsters.at(victim).health == w.monsters.at(victim).health - n * dmg
            &&& n * dmg >= w.monsters.at(victim).health ==> !later.monsters.has(victim)
        }),
    decreases n,
{
    if n == 0 {
        assert(n * dmg == 0) by (nonlinear_arith)
            requires
                n == 0,
        ;
    } else {
        let m = (n - 1) as nat;
        assert(m * dmg == n * dmg - dmg) by (nonlinear_arith)
            requires
                m == n - 1,
        ;
        law_hits_add_up(w, attacker, victim, dmg, now, drops, m);
        let before = hit_times(w, attacker, victim, dmg, now, drops, m);
        lemma_monster_hit(before, attacker, victim, dmg, now, drops);
    }
}

proof fn lemma_died(w: World, victim: u32)
    requires
        w.players.wf(),
    ensures
        w.died(victim).players.wf(),
        !w.died(victim).players.has(victim),
        remembers(w, w.died(victim)),
        forall|k: u32|
            #![trigger w.died(victim).players.at(k)]
            w.died(victim).players.has(k) ==> w.died(victim).players.at(k).health == w.players.at(
                k,
            ).health,
        forall|k: u32|
            #![trigger w.died(victim).monsters.has(k)]
            w.died(victim).monsters.has(k) <==> w.monsters.has(k),
        forall|k: u32|
            #![trigger w.died(victim).monsters.at(k)]
            w.monsters.has(k) ==> w.died(victim).monsters.at(k).health == w.monsters.at(k).health,
{
    lemma_offer(w, victim, PacketModel::DeathWindow);
    let a = w.offer(victim, PacketModel::DeathWindow);
    let b = a.unfought(victim, true);
    let later = w.died(victim);
    assert(b.players.wf());
    assert(remembers(a, b));
    lemma_remembers_trans(w, a, b);
    if b.players.has(victim) {
        let p = b.players.at(victim);
        super::lemma_pool_left(b, victim);
        let c = b.pool_left(victim);
        let ids = c.spectators(p.position, victim);
        law_gone_told(c, ids, victim);
        let e = c.gone_told(ids, victim);
        law_without(e.players, victim);
        assert(b.only_told(World { overlay: b.overlay, ..c }));
        assert(remembers(b, World { overlay: b.overlay, ..c }));
        assert(remembers(b, c)) by {
            assert forall|k: u32|
                #![trigger c.players.has(k)]
                #![trigger c.players.at(k)]
                c.players.has(k) implies b.players.has(k) && extends(
                c.players.at(k).session.queue,
                b.players.at(k).session.queue,
            ) by {
                assert((World { overlay: b.overlay, ..c }).players.has(k));
            }
        }
        lemma_remembers_trans(w, b, c);
        lemma_remembers_trans(w, c, e);
        assert(remembers(e, later));
        lemma_remembers_trans(w, e, later);
        assert forall|k: u32| #![trigger later.players.at(k)] later.players.has(k) implies later.players.at(
            k,
        ).health == w.players.at(k).health by {
            assert(e.players.has(k));
            assert((World { overlay: b.overlay, ..c }).players.has(k));
            assert(b.players.has(k));
            assert(a.players.has(k));
        }
    }
}

/// A hit on a player takes as much health as it is worth: one that is worth less than the player
/// has leaves it, if it is still there, with exactly the rest and otherwise as it was, and any
/// other ends its game. The health of all others stays as it is.
pub proof fn law_hits_take_player_health(w: World, attacker: u32, victim: u32, dmg: i32)
    requires
        w.players.wf(),
        w.players.has(victim),
        w.players.at(victim).health > 0,
    ensures
        ({
            let p = w.players.at(victim);
            let later = w.player_hit(attacker, victim, dmg);
            &&& dmg >= p.health ==> !later.players.has(victim)
            &&& later.players.has(victim) ==> later.players.at(victim) == (PlayerModel {
                health: (if dmg > 0 {
                    p.health - dmg
                } else {
                    p.health as int
                }) as u32,
                session: later.players.at(victim).session,
                known: later.players.at(victim).known,
                ..p
            })
            &&& forall|k: u32|
                #![trigger later.players.at(k)]
                k != victim && later.players.has(k) ==> w.players.has(k) && later.players.at(
                    k,
                ).health == w.players.at(k).health
            &&& forall|k: u32|
                #![trigger later.monsters.has(k)]
                later.monsters.has(k) <==> w.monsters.has(k)
            &&& forall|k: u32|
                #![trigger later.monsters.at(k)]
                w.monsters.has(k) ==> later.monsters.at(k).health == w.monsters.at(k).health
        }),
{
    lemma_player_hit(w, attacker, victim, dmg);
}

/// Everyone who sees a player hit is told how much health it has left, the player itself in its
/// own numbers, and the attacker how much the hit took: no more than it had.
pub proof fn law_player_hits_are_seen(w: World, attacker: u32, victim: u32, dmg: i32, k: u32)
    requires
        w.players.wf(),
        w.players.has(victim),
        w.players.at(victim).health > 0,
        dmg > 0,
        w.players.has(k),
        sees(w.players.at(k).position, w.players.at(victim).position),
    ensures
        ({
            let p = w.players.at(victim);
            let later = w.player_hit(attacker, victim, dmg);
            let taken = (if dmg >= p.health {
                p.health as int
            } else {
                dmg as int
            }) as u32;
            &&& hears(
                w,
                later,
                k,
                PacketModel::CreatureHealth {
                    id: victim,
                    health: (p.health - taken) as u32,
                    max_health: p.max_health,
                },
            )
            &&& later.players.has(victim) ==> hears(
                w,
                later,
                victim,
                PacketModel::Stats {
                    stats: Stats::of((p.health - taken) as u32, p.max_health, p.speed),
                },
            )
            &&& later.players.has(victim) && k != victim ==> hears_number(
                w,
                later,
                k,
                dealt_by(k == attacker),
                p.position,
                taken,
            )
        }),
{
    lemma_player_hit(w, attacker, victim, dmg);
    let _ = w.players.at(k);
}

#[verifier::rlimit(40)]
proof fn lemma_player_hit(w: World, attacker: u32, victim: u32, dmg: i32)
    requires
        w.players.wf(),
        w.players.has(victim),
        w.players.at(victim).health > 0,
    ensures
        ({
            let p = w.players.at(victim);
            let later = w.player_hit(attacker, victim, dmg);
            let left = (if dmg >= p.health {
                0
            } else if dmg > 0 {
                p.health - dmg
            } else {
                p.health as int
            }) as u32;
            &&& later.players.wf()
            &&& remembers(w, later)
            &&& dmg >= p.health ==> !later.players.has(victim)
            &&& later.players.has(victim) ==> later.players.at(victim) == (PlayerModel {
                health: left,
                session: later.players.at(victim).session,
                known: later.players.at(victim).known,
                ..p
            })
            &&& forall|k: u32|
                #![trigger later.players.at(k)]
                k != victim && later.players.has(k) ==> w.players.has(k) && later.players.at(
                    k,
                ).health == w.players.at(k).health
            &&& forall|k: u32|
                #![trigger later.monsters.has(k)]
                later.monsters.has(k) <==> w.monsters.has(k)
            &&& forall|k: u32|
                #![trigger later.monsters.at(k)]
                w.monsters.has(k) ==> later.monsters.at(k).health == w.monsters.at(k).health
            &&& later.players.has(victim) ==> hears(
                w,
                later,
                victim,
                PacketModel::Stats { stats: Stats::of(left, p.max_health, p.speed) },
            )
            &&& forall|k: u32|
                #![trigger w.players.at(k)]
                w.players.has(k) && sees(w.players.at(k).position, p.position) ==> {
                    &&& hears(
                        w,
                        later,
                        k,
                        PacketModel::CreatureHealth {
                            id: victim,
                            health: left,
                            max_health: p.max_health,
                        },
                    )
                    &&& dmg > 0 && k != victim && later.players.has(victim) ==> hears_number(
                        w,
                        later,
                        k,
                        dealt_by(k == attacker),
                        p.position,
                        (p.health - left) as u32,
                    )
                }
        }),
{
    let p = w.players.at(victim);
    let later = w.player_hit(attacker, victim, dmg);
    let left = (if dmg >= p.health {
        0
    } else if dmg > 0 {
        p.health - dmg
    } else {
        p.health as int
    }) as u32;
    let q = PlayerModel { health: left, ..p };
    law_set(w.players, victim, q);
    let a = w.set_player(victim, q);
    assert(remembers(w, a));
    let ids = a.audience(p.position);
    let health = PacketModel::CreatureHealth { id: victim, health: left, max_health: p.max_health };
    law_push_all(a, ids, health);
    let b = a.push_all(ids, health);
    lemma_remembers_trans(w, a, b);
    assert forall|k: u32|
        #![trigger w.players.at(k)]
        w.players.has(k) && sees(w.players.at(k).position, p.position) implies hears(
        w,
        b,
        k,
        health,
    ) by {
        law_onlookers_are_told(a, p.position, k);
        law_messages_reach_all(a, ids, health, k);
    }
    if b.players.has(victim) {
        let own = PacketModel::Stats { stats: Stats::of(left, p.max_health, p.speed) };
        let applied = (p.health - left) as u32;
        lemma_shown_hit(b, ids, attacker, victim, p.position, own, applied);
        let e = shown_hit(b, ids, attacker, victim, p.position, own, applied);
        lemma_only_told_trans(a, b, e);
        lemma_remembers_trans(w, b, e);
        lemma_hears_earlier(w, b, e, victim, own);
        let f = if e.players.has(victim) {
            match e.players.at(victim).race.fluid() {
                Some(fluid) => e.splashed(p.position, ITEM_SMALLSPLASH, fluid),
                None => e,
            }
        } else {
            e
        };
        if e.players.has(victim) {
            match e.players.at(victim).race.fluid() {
                Some(fluid) => {
                    lemma_splash_told(e, p.position, ITEM_SMALLSPLASH, fluid);
                    lemma_splashed(e, p.position, ITEM_SMALLSPLASH, fluid);
                },
                None => {},
            }
        }
        assert(e.only_told(World { overlay: e.overlay, ..f }));
        assert(remembers(e, f));
        assert(f.players.wf());
        assert(later == if left == 0 {
            f.died(victim)
        } else {
            f
        });
        if left == 0 {
            lemma_died(f, victim);
        }
        assert(remembers(f, later));
        lemma_remembers_trans(e, f, later);
        lemma_remembers_trans(w, e, later);
        lemma_hears_later(w, e, later, victim, own);
        assert forall|k: u32| #![trigger later.players.at(k)] later.players.has(k) implies w.players.has(
            k,
        ) && later.players.at(k).health == a.players.at(k).health by {
            assert(f.players.has(k));
            assert((World { overlay: e.overlay, ..f }).players.has(k));
            assert(e.players.has(k));
            assert(a.players.has(k));
        }
        if later.players.has(victim) {
            assert((World { overlay: e.overlay, ..f }).players.has(victim));
            assert(e.players.has(victim));
        }
        assert forall|k: u32|
            #![trigger w.players.at(k)]
            w.players.has(k) && sees(w.players.at(k).position, p.position) implies {
            &&& hears(w, later, k, health)
            &&& dmg > 0 && k != victim && later.players.has(victim) ==> hears_number(
                w,
                later,
                k,
                dealt_by(k == attacker),
                p.position,
                applied,
            )
        } by {
            assert(hears(w, b, k, health));
            lemma_remembers_trans(b, e, later);
            lemma_hears_later(w, b, later, k, health);
            if dmg > 0 && k != victim {
                law_onlookers_are_told(a, p.position, k);
                assert(ids.contains(k));
                assert(hears_number(b, e, k, dealt_by(k == attacker), p.position, applied));
                lemma_number_kept(w, b, e, later, k, dealt_by(k == attacker), p.position, applied);
            }
        }
    }
}

proof fn lemma_number_kept(
    w: World,
    b: World,
    e: World,
    later: World,
    k: u32,
    role: DamageRole,
    pos: Position,
    value: u32,
)
    requires
        remembers(w, b),
        remembers(b, e),
        remembers(e, later),
        hears_number(b, e, k, role, pos, value),
    ensures
        hears_number(w, later, k, role, pos, value),
{
    let text = choose|text: Seq<u8>| #[trigger]
        hears(b, e, k, PacketModel::DamageText { role, position: pos, value, text });
    let p = PacketModel::DamageText { role, position: pos, value, text };
    lemma_hears_earlier(w, b, e, k, p);
    lemma_hears_later(w, e, later, k, p);
}

/// What is shown of a hit on a player, once everyone knows how much health is left.
spec fn shown_hit(
    b: World,
    ids: Seq<u32>,
    attacker: u32,
    victim: u32,
    pos: Position,
    own: PacketModel,
    applied: u32,
) -> World {
    b.push(victim, own).push_all(
        ids,
        PacketModel::MagicEffect { position: pos, effect: Effect::DrawBlood },
    ).damage_told(ids, attacker, victim, true, pos, applied)
}

proof fn lemma_shown_hit(
    b: World,
    ids: Seq<u32>,
    attacker: u32,
    victim: u32,
    pos: Position,
    own: PacketModel,
    applied: u32,
)
    requires
        b.players.wf(),
    ensures
        ({
            let e = shown_hit(b, ids, attacker, victim, pos, own, applied);
            &&& b.only_told(e)
            &&& remembers(b, e)
            &&& hears(b, e, victim, own)
            &&& forall|k: u32| #[trigger]
                ids.contains(k) && k != victim && applied > 0 ==> hears_number(
                    b,
                    e,
                    k,
                    dealt_by(k == attacker),
                    pos,
                    applied,
                )
        }),
{
    let e = shown_hit(b, ids, attacker, victim, pos, own, applied);
    law_push(b, victim, own);
    law_messages_arrive(b, victim, own);
    let c = b.push(victim, own);
    let blood = PacketModel::MagicEffect { position: pos, effect: Effect::DrawBlood };
    law_push_all(c, ids, blood);
    let d = c.push_all(ids, blood);
    let vn = d.name_or_empty(victim);
    let an = d.name_or_empty(attacker);
    lemma_hit_told(d, ids, attacker, Some(victim), pos, applied, vn, an);
    assert(d.only_told(e));
    lemma_only_told_trans(b, c, d);
    lemma_only_told_trans(b, d, e);
    lemma_hears_later(b, c, d, victim, own);
    lemma_hears_later(b, d, e, victim, own);
    assert forall|k: u32| #[trigger] ids.contains(k) && k != victim && applied > 0 implies hears_number(
        b,
        e,
        k,
        dealt_by(k == attacker),
        pos,
        applied,
    ) by {
        let shown = number_shown(k, attacker, Some(victim), pos, applied, vn, an);
        assert(hears(d, e, k, shown));
        lemma_hears_earlier(b, d, e, k, shown);
        let role = dealt_by(k == attacker);
        let text = encode_utf8(hit_text(role, applied, vn, an));
        assert(hears(b, e, k, PacketModel::DamageText { role, position: pos, value: applied, text }));
    }
}

/// A player whose swing is due strikes what it fights, if that is next to it and no protection
/// zone is in the way, and then waits from this moment on.
pub proof fn law_due_swings_strike(w: World, a: u32, t: u32, now: u64, o: Outcome)
    requires
        w.wf(),
        w.players.has(a),
        w.creature_position(t) is Some,
        !w.map.zone_at(w.players.at(a).position),
        w.players.has(t) ==> !w.map.zone_at(w.players.at(t).position),
        now >= w.players.at(a).last_attack_ms + 2000,
        close(w.players.at(a).position, w.creature_position(t)->0),
        t != a,
    ensures
        ({
            let later = w.player_swing(a, t, now, o);
            let before = w.set_player(a, PlayerModel { last_attack_ms: now, ..w.players.at(a) });
            &&& w.players.has(t) ==> later == before.player_hit(a, t, o.dmg)
            &&& !w.players.has(t) ==> later == before.monster_hit(a, t, o.dmg, now, o.drops)
        }),
{
}

/// A monster whose swing is due strikes what it fights, if that is next to it and no protection
/// zone is in the way, and then waits from this moment on.
pub proof fn law_due_monsters_strike(w: World, a: u32, t: u32, now: u64, o: Outcome)
    requires
        w.wf(),
        w.monsters.has(a),
        w.creature_position(t) is Some,
        !w.map.zone_at(w.monsters.at(a).position),
        w.players.has(t) ==> !w.map.zone_at(w.players.at(t).position),
        now >= w.monsters.at(a).last_attack_ms + 2000,
        close(w.monsters.at(a).position, w.creature_position(t)->0),
        t != a,
    ensures
        ({
            let later = w.monster_swing(a, t, now, o);
            let before = w.set_monster(a, MonsterModel { last_attack_ms: now, ..w.monsters.at(a) });
            &&& w.players.has(t) ==> later == before.player_hit(a, t, o.dmg)
            &&& !w.players.has(t) ==> later == before.monster_hit(a, t, o.dmg, now, o.drops)
        }),
{
}

proof fn lemma_fights(order: Seq<u32>, target: spec_fn(u32) -> Option<u32>, a: u32)
    requires
        order.contains(a),
        target(a) is Some,
    ensures
        fights(order, target).contains((a, target(a)->0)),
    decreases order.len(),
{
    let rest = fights(order.drop_last(), target);
    let all = fights(order, target);
    if order.last() == a {
        assert(all[all.len() - 1] == (a, target(a)->0));
    } else {
        let i = order.index_of(a);
        assert(order.drop_last()[i] == a);
        lemma_fights(order.drop_last(), target, a);
        let j = rest.index_of((a, target(a)->0));
        assert(all[j] == (a, target(a)->0));
    }
}

/// Everyone who fights someone gets its chance in a tick.
pub proof fn law_every_fighter_gets_a_chance(w: World, a: u32)
    requires
        w.wf(),
    ensures
        w.players.has(a) && w.players.at(a).attacking is Some ==> w.player_fights().contains(
            (a, w.players.at(a).attacking->0),
        ),
        w.monsters.has(a) && w.monsters.at(a).attacking is Some ==> w.monster_fights().contains(
            (a, w.monsters.at(a).attacking->0),
        ),
{
    if w.players.has(a) && w.players.at(a).attacking is Some {
        assert(w.players.order.contains(a));
        lemma_fights(w.players.order, w.player_target(), a);
    }
    if w.monsters.has(a) && w.monsters.at(a).attacking is Some {
        assert(w.monsters.order.contains(a));
        lemma_fights(w.monsters.order, w.monster_target(), a);
    }
}

/// Aiming at a creature outside of a protection zone starts a fight with it, and the first swing
/// may come at once; aiming at nothing ends the fight.
pub proof fn law_aiming_starts_fights(w: World, id: u32, target: u32)
    requires
        w.wf(),
        w.players.has(id),
    ensures
        target == 0 ==> w.aimed(id, target).players.at(id).attacking is None,
        target != 0 && target != id && !w.map.zone_at(w.players.at(id).position)
            && w.creature_position(target) is Some ==> {
            let p = w.aimed(id, target).players.at(id);
            p.attacking == Some(target) && p.last_attack_ms == 0 && p.health == w.players.at(
                id,
            ).health
        },
        w.aimed(id, target).monsters == w.monsters,
{
    reveal(World::aimed);
    law_set(w.players, id, PlayerModel { attacking: None, ..w.players.at(id) });
    law_set(
        w.players,
        id,
        PlayerModel { attacking: Some(target), last_attack_ms: 0, ..w.players.at(id) },
    );
    super::lemma_status(w, id, "You may not attack while you are in a protection zone."@);
}

} // verus!
