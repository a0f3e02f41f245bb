//! Fights: targets, hits, deaths, loot and respawns.

use vstd::prelude::*;
use vstd::string::StrSliceExecFns;
use vstd::string::StringExecFns;
use vstd::utf8::encode_utf8;

use super::model::lemma_only_told_trans;
use super::model::lemma_set_monster;
use super::model::lemma_set_player;
use super::model::record;
use super::model::World;
use super::monster::copy_drops;
use super::state::MonsterDrop;
use super::state::MonsterModel;
use super::state::MonsterState;
use super::state::PlayerModel;
use super::state::RaceType;
use super::state::SaveModel;
use super::state::SpawnModel;
use super::windows::close;
use super::windows::in_close_range;
use super::Game;
use super::ITEM_FULLSPLASH;
use super::ITEM_SMALLSPLASH;
use super::MELEE_ATTACK_INTERVAL_MS;
use crate::combat::melee_damage;
use crate::combat::possible_damage;
use crate::combat::possible_drop;
use crate::combat::roll_drop;
use crate::map::StackThing;
use crate::registry::law_add_last;
use crate::registry::law_set;
use crate::registry::law_without;
use crate::registry::lemma_filter_step;
use crate::registry::Entries;
use crate::text::decimal;
use crate::text::to_decimal;
use crate::wire::DamageRole;
use crate::wire::Effect;
use crate::wire::Packet;
use crate::wire::PacketModel;
use crate::wire::Stats;
use crate::wire::WireItem;
use crate::Position;

verus! {

/// How many things lie on a tile before nothing more is spilled or dropped there.
pub const MAX_SPILL: usize = 10;

/// A splash of `fluid`.
pub open spec fn splash(item_id: u16, fluid: u8) -> StackThing {
    StackThing {
        item: WireItem { client_id: item_id, subtype: Some(fluid), animated: false },
        server_id: item_id,
        count: Some(fluid),
    }
}

fn make_splash(item_id: u16, fluid: u8) -> (t: StackThing)
    ensures
        t == splash(item_id, fluid),
{
    StackThing {
        item: WireItem { client_id: item_id, subtype: Some(fluid), animated: false },
        server_id: item_id,
        count: Some(fluid),
    }
}

/// What a hit is to session `sid`.
pub open spec fn role_of(sid: u32, attacker: u32, victim: Option<u32>) -> DamageRole {
    if sid == attacker {
        DamageRole::Dealt
    } else if Some(sid) == victim {
        DamageRole::Received
    } else {
        DamageRole::Others
    }
}

/// The line that goes with the number of a hit.
pub open spec fn hit_text(
    role: DamageRole,
    applied: u32,
    victim: Seq<char>,
    attacker: Seq<char>,
) -> Seq<char> {
    let n = decimal(applied as nat);
    match role {
        DamageRole::Dealt => "You deal "@ + n + " damage to "@ + victim + "."@,
        DamageRole::Received => "You lose "@ + n + " hitpoints due to an attack by "@ + attacker
            + "."@,
        DamageRole::Others => victim + " loses "@ + n + " hitpoints due to an attack by "@
            + attacker + "."@,
    }
}

fn make_hit_text(role: DamageRole, applied: u32, victim: &str, attacker: &str) -> (r: String)
    ensures
        r@ == hit_text(role, applied, victim@, attacker@),
{
    let n = to_decimal(applied as u64);
    match role {
        DamageRole::Dealt => "You deal ".to_string().concat(n.as_str()).concat(
            " damage to ",
        ).concat(victim).concat("."),
        DamageRole::Received => "You lose ".to_string().concat(n.as_str()).concat(
            " hitpoints due to an attack by ",
        ).concat(attacker).concat("."),
        DamageRole::Others => victim.to_string().concat(" loses ").concat(n.as_str()).concat(
            " hitpoints due to an attack by ",
        ).concat(attacker).concat("."),
    }
}

/// What is left of `health` after a hit of `dmg`. Negative damage counts as none.
pub open spec fn health_after(health: u32, dmg: i32) -> u32 {
    if dmg <= 0 {
        health
    } else if dmg >= health {
        0
    } else {
        (health - dmg) as u32
    }
}

fn hurt(health: u32, dmg: i32) -> (r: u32)
    ensures
        r == health_after(health, dmg),
{
    if dmg <= 0 {
        health
    } else if dmg as u32 >= health {
        0
    } else {
        health - dmg as u32
    }
}

/// Whoever swung at `last` may swing again at `now`.
pub open spec fn swing_due(last: u64, now: u64) -> bool {
    now - last >= MELEE_ATTACK_INTERVAL_MS
}

/// What chance decides in a swing: its damage, and which drops of a monster that it kills
/// are dropped.
pub ghost struct Outcome {
    pub dmg: i32,
    pub drops: Seq<bool>,
}

/// `drops` is a possible outcome of rolling for each entry of `loot`.
pub open spec fn possible_drops(loot: Seq<MonsterDrop>, drops: Seq<bool>) -> bool {
    &&& drops.len() == loot.len()
    &&& forall|i: int|
        0 <= i < loot.len() ==> possible_drop(
            (#[trigger] loot[i]).numerator,
            loot[i].denominator,
            drops[i],
        )
}

/// The pairs of attacker and target among `order`.
pub open spec fn fights(order: Seq<u32>, target: spec_fn(u32) -> Option<u32>) -> Seq<(u32, u32)>
    decreases order.len(),
{
    if order.len() == 0 {
        Seq::empty()
    } else {
        let rest = fights(order.drop_last(), target);
        match target(order.last()) {
            Some(t) => rest.push((order.last(), t)),
            None => rest,
        }
    }
}

impl World {
    /// Player `id` aims at `target`; 0 ends the fight. No one aims at themselves, from a
    /// protection zone, or at a creature that does not exist.
    #[verifier::opaque]
    pub open spec fn aimed(self, id: u32, target: u32) -> World {
        if target == 0 {
            self.player_stopped(id)
        } else if target == id || !self.players.has(id) {
            self
        } else if self.map.zone_at(self.players.at(id).position) {
            self.status(id, "You may not attack while you are in a protection zone."@)
        } else if !self.creature_exists(target) {
            self
        } else {
            self.set_player(
                id,
                PlayerModel {
                    attacking: Some(target),
                    last_attack_ms: 0,
                    ..self.players.at(id)
                },
            )
        }
    }

    /// Player `id` attacks no one.
    pub open spec fn player_stopped(self, id: u32) -> World {
        if self.players.has(id) {
            self.set_player(id, PlayerModel { attacking: None, ..self.players.at(id) })
        } else {
            self
        }
    }

    /// Monster `id` attacks no one.
    pub open spec fn monster_stopped(self, id: u32) -> World {
        if self.monsters.has(id) {
            self.set_monster(id, MonsterModel { attacking: None, ..self.monsters.at(id) })
        } else {
            self
        }
    }

    /// A splash on `pos`, unless the tile is full.
    pub open spec fn splashed(self, pos: Position, item_id: u16, fluid: u8) -> World {
        match self.stack(pos) {
            Some(st) if st.things.len() < MAX_SPILL => {
                let w = self.topped_with(pos, splash(item_id, fluid));
                w.told_item(pos, w.front_slot(pos), splash(item_id, fluid).item, false)
            },
            _ => self,
        }
    }

    /// One entry of a loot table: dropped on `pos` if chance would have it, the catalogue
    /// knows it and the tile has room.
    pub open spec fn loot_dropped(self, pos: Position, d: MonsterDrop, dropped: bool) -> World {
        match (self.stack(pos), self.map.meta_at(d.item_id)) {
            (Some(st), Some(m)) if dropped && st.things.len() < MAX_SPILL => {
                let count = if m.stackable {
                    Some(d.count)
                } else {
                    None
                };
                let item = WireItem { client_id: m.client_id, subtype: count, animated: m.animated };
                let w = self.topped_with(pos, StackThing { item, server_id: d.item_id, count });
                w.told_item(pos, w.front_slot(pos), item, false)
            },
            _ => self,
        }
    }

    /// The entries of a loot table in turn; entry `i` is dropped if `drops[i]`.
    pub open spec fn looted(self, pos: Position, loot: Seq<MonsterDrop>, drops: Seq<bool>) -> World
        decreases loot.len(),
    {
        if loot.len() == 0 {
            self
        } else {
            let n = loot.len() - 1;
            self.looted(pos, loot.drop_last(), drops).loot_dropped(
                pos,
                loot[n],
                n < drops.len() && drops[n],
            )
        }
    }

    /// No one attacks `victim` any more, and the victim, where `own` says so, no one.
    pub open spec fn unfought(self, victim: u32, own: bool) -> World {
        World {
            players: Entries {
                order: self.players.order,
                of: Map::new(
                    |id: u32| self.players.has(id),
                    |id: u32|
                        PlayerModel {
                            attacking: if self.players.at(id).attacking == Some(victim) || (own
                                && id == victim) {
                                None
                            } else {
                                self.players.at(id).attacking
                            },
                            ..self.players.at(id)
                        },
                ),
            },
            monsters: Entries {
                order: self.monsters.order,
                of: Map::new(
                    |id: u32| self.monsters.has(id),
                    |id: u32|
                        MonsterModel {
                            attacking: if self.monsters.at(id).attacking == Some(victim) {
                                None
                            } else {
                                self.monsters.at(id).attacking
                            },
                            ..self.monsters.at(id)
                        },
                ),
            },
            ..self
        }
    }

    /// Each of `ids` is shown the number of a hit.
    pub open spec fn hit_told(
        self,
        ids: Seq<u32>,
        attacker: u32,
        victim: Option<u32>,
        pos: Position,
        applied: u32,
        victim_name: Seq<char>,
        attacker_name: Seq<char>,
    ) -> World
        decreases ids.len(),
    {
        if ids.len() == 0 {
            self
        } else {
            let role = role_of(ids[0], attacker, victim);
            self.push(
                ids[0],
                PacketModel::DamageText {
                    role,
                    position: pos,
                    value: applied,
                    text: encode_utf8(hit_text(role, applied, victim_name, attacker_name)),
                },
            ).hit_told(
                ids.drop_first(),
                attacker,
                victim,
                pos,
                applied,
                victim_name,
                attacker_name,
            )
        }
    }

    /// The name of a creature, empty where there is none.
    pub open spec fn name_or_empty(self, id: u32) -> Seq<char> {
        match self.creature_name(id) {
            Some(n) => n,
            None => Seq::empty(),
        }
    }

    /// The numbers, where there are any to show.
    pub open spec fn damage_told(
        self,
        ids: Seq<u32>,
        attacker: u32,
        victim: u32,
        player: bool,
        pos: Position,
        applied: u32,
    ) -> World {
        if applied > 0 {
            self.hit_told(
                ids,
                attacker,
                if player {
                    Some(victim)
                } else {
                    None
                },
                pos,
                applied,
                self.name_or_empty(victim),
                self.name_or_empty(attacker),
            )
        } else {
            self
        }
    }

    /// Player `victim` dies: the death window, the end of all fights around it, a pool on the
    /// tile, and the end of the session. The record puts the player into the temple, in full
    /// health.
    pub open spec fn died(self, victim: u32) -> World {
        let w = self.offer(victim, PacketModel::DeathWindow).unfought(victim, true);
        if !w.players.has(victim) {
            w
        } else {
            let p = w.players.at(victim);
            w.pool_left(victim).gone_from(victim, p.position).buried(victim)
        }
    }

    /// The pool that the death of player `victim` leaves, shown to those who see it.
    pub open spec fn pool_left(self, victim: u32) -> World {
        let p = self.players.at(victim);
        match (p.race.fluid(), self.stack(p.position)) {
            (Some(fluid), Some(_)) => self.offer_all(
                self.spectators(p.position, victim),
                PacketModel::AddTileItem {
                    position: p.position,
                    stackpos: self.front_slot(p.position),
                    item: splash(ITEM_FULLSPLASH, fluid).item,
                },
            ).topped_with(p.position, splash(ITEM_FULLSPLASH, fluid)),
            _ => self,
        }
    }

    /// Everyone who sees `pos` is told that `id` is gone.
    pub open spec fn gone_from(self, id: u32, pos: Position) -> World {
        self.gone_told(self.spectators(pos, id), id)
    }

    /// A dead player leaves. The record puts it into the temple, in full health.
    pub open spec fn buried(self, id: u32) -> World {
        if self.players.has(id) {
            let p = self.players.at(id);
            self.removed(id).saved(
                SaveModel {
                    position: self.map.spawn_point(),
                    health: p.max_health,
                    ..record(p)
                },
            )
        } else {
            self
        }
    }

    /// `attacker` hits player `victim` for `dmg`.
    pub open spec fn player_hit(self, attacker: u32, victim: u32, dmg: i32) -> World {
        if !self.players.has(victim) {
            self
        } else {
            let v = self.players.at(victim);
            let left = health_after(v.health, dmg);
            let w = self.set_player(victim, PlayerModel { health: left, ..v });
            let ids = w.audience(v.position);
            let told = w.push_all(
                ids,
                PacketModel::CreatureHealth { id: victim, health: left, max_health: v.max_health },
            );
            if !told.players.has(victim) {
                told
            } else {
                let p = told.players.at(victim);
                let hit = told.push(
                    victim,
                    PacketModel::Stats { stats: Stats::of(p.health, p.max_health, p.speed) },
                ).push_all(
                    ids,
                    PacketModel::MagicEffect { position: v.position, effect: Effect::DrawBlood },
                ).damage_told(ids, attacker, victim, true, v.position, (v.health - left) as u32);
                let wet = if hit.players.has(victim) {
                    match hit.players.at(victim).race.fluid() {
                        Some(fluid) => hit.splashed(v.position, ITEM_SMALLSPLASH, fluid),
                        None => hit,
                    }
                } else {
                    hit
                };
                if left == 0 {
                    wet.died(victim)
                } else {
                    wet
                }
            }
        }
    }

    /// The fluid that monster `id` spills.
    pub open spec fn monster_fluid(self, id: u32) -> Option<u8> {
        if self.monsters.has(id) {
            match self.monsters.at(id).race {
                Some(race) => race.fluid(),
                None => None,
            }
        } else {
            None
        }
    }

    /// Monster `id` attacks `attacker` from now on, unless it is busy with someone.
    pub open spec fn provoked(self, id: u32, attacker: u32) -> World {
        if self.monsters.has(id) && self.monsters.at(id).attacking is None {
            self.set_monster(
                id,
                MonsterModel {
                    attacking: Some(attacker),
                    last_attack_ms: 0,
                    ..self.monsters.at(id)
                },
            )
        } else {
            self
        }
    }

    /// `attacker` hits monster `victim` for `dmg` at `now`.
    pub open spec fn monster_hit(
        self,
        attacker: u32,
        victim: u32,
        dmg: i32,
        now: u64,
        drops: Seq<bool>,
    ) -> World {
        if !self.monsters.has(victim) {
            self
        } else {
            let v = self.monsters.at(victim);
            let left = health_after(v.health, dmg);
            let w = self.set_monster(victim, MonsterModel { health: left, ..v });
            let ids = w.audience(v.position);
            let hit = w.push_all(
                ids,
                PacketModel::CreatureHealth { id: victim, health: left, max_health: v.max_health },
            ).push_all(
                ids,
                PacketModel::MagicEffect { position: v.position, effect: Effect::DrawBlood },
            ).damage_told(ids, attacker, victim, false, v.position, (v.health - left) as u32);
            let wet = match hit.monster_fluid(victim) {
                Some(fluid) => hit.splashed(v.position, ITEM_SMALLSPLASH, fluid),
                None => hit,
            };
            if left == 0 {
                wet.monster_died(victim, now, drops)
            } else {
                wet.provoked(victim, attacker)
            }
        }
    }

    /// Spawn `id` is due again its interval after `now`, if it has one.
    pub open spec fn respawn_due(self, id: u32, now: u64) -> World {
        if self.spawns.has(id) && self.spawns.at(id).respawn_interval_ms > 0 {
            World {
                spawns: self.spawns.set(
                    id,
                    SpawnModel {
                        respawn_at_ms: Some((now + self.spawns.at(id).respawn_interval_ms) as u64),
                        ..self.spawns.at(id)
                    },
                ),
                ..self
            }
        } else {
            self
        }
    }

    /// Monster `victim` dies at `now`: a pool on the tile, the end of all fights around it,
    /// its loot, and where it came from a spawn, a date for the next one.
    pub open spec fn monster_died(self, victim: u32, now: u64, drops: Seq<bool>) -> World {
        if !self.monsters.has(victim) {
            self
        } else {
            let m = self.monsters.at(victim);
            let wet = match self.monster_fluid(victim) {
                Some(fluid) => self.splashed(m.position, ITEM_FULLSPLASH, fluid),
                None => self,
            };
            let calm = wet.unfought(victim, false);
            let told = calm.gone_told(calm.spectators(m.position, u32::MAX), victim);
            let gone = World { monsters: told.monsters.without(victim), ..told };
            let due = match m.spawn_id {
                Some(sid) => gone.respawn_due(sid, now),
                None => gone,
            };
            due.looted(m.position, m.loot, drops)
        }
    }

    /// Creature `t` may not be attacked from `pos`: a protection zone is around the attacker,
    /// or around the target if it is a player.
    pub open spec fn protected(self, pos: Position, t: u32) -> bool {
        self.map.zone_at(pos) || (self.players.has(t) && self.map.zone_at(
            self.players.at(t).position,
        ))
    }

    /// Creature `t` is within reach of a swing from `pos`.
    pub open spec fn in_reach(self, pos: Position, t: u32) -> bool {
        close(pos, self.creature_position(t)->0)
    }

    /// `a` strikes `t`.
    pub open spec fn struck(self, a: u32, t: u32, now: u64, o: Outcome) -> World {
        if self.players.has(t) {
            self.player_hit(a, t, o.dmg)
        } else {
            self.monster_hit(a, t, o.dmg, now, o.drops)
        }
    }

    /// Player `a`, who fights `t`, gets a chance to swing. The fight ends where the target is
    /// gone, a protection zone is in the way, or the target is out of reach when a swing is due.
    pub open spec fn player_swing(self, a: u32, t: u32, now: u64, o: Outcome) -> World {
        if self.creature_position(t) is None {
            self.player_stopped(a)
        } else if !self.players.has(a) {
            self
        } else {
            let p = self.players.at(a);
            if self.protected(p.position, t) {
                self.player_stopped(a)
            } else if !swing_due(p.last_attack_ms, now) {
                self
            } else if !self.in_reach(p.position, t) {
                self.player_stopped(a)
            } else {
                self.set_player(a, PlayerModel { last_attack_ms: now, ..p }).struck(a, t, now, o)
            }
        }
    }

    /// Monster `a`, which fights `t`, gets a chance to swing. The fight ends where the target is
    /// gone or a protection zone is in the way.
    pub open spec fn monster_swing(self, a: u32, t: u32, now: u64, o: Outcome) -> World {
        if self.creature_position(t) is None {
            self.monster_stopped(a)
        } else if !self.monsters.has(a) {
            self
        } else {
            let m = self.monsters.at(a);
            if self.protected(m.position, t) {
                self.monster_stopped(a)
            } else if swing_due(m.last_attack_ms, now) && self.in_reach(m.position, t) {
                self.set_monster(a, MonsterModel { last_attack_ms: now, ..m }).struck(a, t, now, o)
            } else {
                self
            }
        }
    }

    /// What may drop when creature `t` is killed.
    pub open spec fn loot_of(self, t: u32) -> Seq<MonsterDrop> {
        if !self.players.has(t) && self.monsters.has(t) {
            self.monsters.at(t).loot
        } else {
            Seq::empty()
        }
    }

    /// `o` is a possible outcome of a swing of `a` at `t`.
    pub open spec fn possible(self, player: bool, a: u32, t: u32, o: Outcome) -> bool {
        &&& possible_damage(
            if player {
                self.players.at(a).max_melee
            } else {
                self.monsters.at(a).attack as i32
            },
            o.dmg,
        )
        &&& possible_drops(self.loot_of(t), o.drops)
    }

    pub open spec fn swing(self, player: bool, a: u32, t: u32, now: u64, o: Outcome) -> World {
        if player {
            self.player_swing(a, t, now, o)
        } else {
            self.monster_swing(a, t, now, o)
        }
    }

    /// The first `n` of `pairs` get a chance to swing, in turn.
    pub open spec fn swings(
        self,
        player: bool,
        pairs: Seq<(u32, u32)>,
        now: u64,
        os: Seq<Outcome>,
        n: int,
    ) -> World
        decreases n,
    {
        if n <= 0 {
            self
        } else {
            self.swings(player, pairs, now, os, n - 1).swing(
                player,
                pairs[n - 1].0,
                pairs[n - 1].1,
                now,
                os[n - 1],
            )
        }
    }

    /// Each of the first `n` outcomes is possible where it comes up.
    pub open spec fn all_possible(
        self,
        player: bool,
        pairs: Seq<(u32, u32)>,
        now: u64,
        os: Seq<Outcome>,
        n: int,
    ) -> bool
        decreases n,
    {
        n <= 0 || (self.all_possible(player, pairs, now, os, n - 1) && self.swings(
            player,
            pairs,
            now,
            os,
            n - 1,
        ).possible(player, pairs[n - 1].0, pairs[n - 1].1, os[n - 1]))
    }

    pub open spec fn player_target(self) -> spec_fn(u32) -> Option<u32> {
        |id: u32| self.players.at(id).attacking
    }

    pub open spec fn monster_target(self) -> spec_fn(u32) -> Option<u32> {
        |id: u32| self.monsters.at(id).attacking
    }

    /// The fights of all players.
    pub open spec fn player_fights(self) -> Seq<(u32, u32)> {
        fights(self.players.order, self.player_target())
    }

    /// The fights of all monsters.
    pub open spec fn monster_fights(self) -> Seq<(u32, u32)> {
        fights(self.monsters.order, self.monster_target())
    }

    /// Spawn `id` is due at `now`.
    pub open spec fn is_due(self, now: u64) -> spec_fn(u32) -> bool {
        |id: u32| self.spawns.at(id).respawn_at_ms matches Some(t) && t <= now
    }

    /// A monster of spawn `sid` appears, and those who see it are shown it.
    pub open spec fn respawned(self, sid: u32) -> World {
        if !self.spawns.has(sid) {
            self
        } else {
            let s = self.spawns.at(sid);
            let w = World {
                spawns: self.spawns.set(sid, SpawnModel { respawn_at_ms: None, ..s }),
                ..self
            };
            w.monster_added(s.kind.newborn(s.position, Some(sid))).shown_to(
                w.monster_added(s.kind.newborn(s.position, Some(sid))).spectators(
                    s.position,
                    u32::MAX,
                ),
                self.next_monster_id,
                s.position,
            )
        }
    }

    /// A new monster, under the next monster id.
    pub open spec fn monster_added(self, m: MonsterModel) -> World {
        World {
            monsters: self.monsters.add_last(self.next_monster_id, m),
            next_monster_id: (self.next_monster_id + 1) as u32,
            ..self
        }
    }

    /// A monster of each spawn in `sids` appears, in turn.
    pub open spec fn all_respawned(self, sids: Seq<u32>) -> World
        decreases sids.len(),
    {
        if sids.len() == 0 {
            self
        } else {
            self.respawned(sids[0]).all_respawned(sids.drop_first())
        }
    }

    /// The spawns that are due give a monster each.
    pub open spec fn respawn_all(self, now: u64) -> World {
        self.all_respawned(self.spawns.order.filter(self.is_due(now)))
    }

    /// A tick at `now`: all players in a fight may swing, then all monsters in one, then the
    /// spawns that are due give their monsters. `po` and `mo` are what chance decides.
    #[verifier::opaque]
    pub open spec fn fought(self, now: u64, po: Seq<Outcome>, mo: Seq<Outcome>) -> World {
        let pairs = self.player_fights();
        let w = self.swings(true, pairs, now, po, pairs.len() as int);
        let more = w.monster_fights();
        w.swings(false, more, now, mo, more.len() as int).respawn_all(now)
    }

    /// `po` and `mo` are possible in a tick at `now`.
    pub open spec fn fought_possibly(self, now: u64, po: Seq<Outcome>, mo: Seq<Outcome>) -> bool {
        let pairs = self.player_fights();
        let w = self.swings(true, pairs, now, po, pairs.len() as int);
        let more = w.monster_fights();
        &&& self.all_possible(true, pairs, now, po, pairs.len() as int)
        &&& w.all_possible(false, more, now, mo, more.len() as int)
    }

    /// The dates of the next respawns fit into the clock.
    pub open spec fn clock_fits(self, now: u64) -> bool {
        forall|id: u32|
            #![trigger self.spawns.at(id)]
            self.spawns.has(id) ==> now + self.spawns.at(id).respawn_interval_ms <= u64::MAX
    }

    /// `later` has the same spawns, dates apart, and has given out no more monster ids.
    pub open spec fn same_spawns(self, later: World) -> bool {
        &&& later.next_monster_id == self.next_monster_id
        &&& later.spawns.order == self.spawns.order
        &&& forall|id: u32|
            #![trigger later.spawns.has(id)]
            #![trigger later.spawns.at(id)]
            (later.spawns.has(id) <==> self.spawns.has(id)) && (self.spawns.has(id) ==> later.spawns.at(
                id,
            ) == (SpawnModel {
                respawn_at_ms: later.spawns.at(id).respawn_at_ms,
                ..self.spawns.at(id)
            }))
    }
}

proof fn lemma_same_spawns_trans(a: World, b: World, c: World)
    requires
        a.same_spawns(b),
        b.same_spawns(c),
    ensures
        a.same_spawns(c),
{
    assert forall|id: u32| #![trigger c.spawns.has(id)] (c.spawns.has(id) <==> a.spawns.has(id))
        && (a.spawns.has(id) ==> c.spawns.at(id) == (SpawnModel {
        respawn_at_ms: c.spawns.at(id).respawn_at_ms,
        ..a.spawns.at(id)
    })) by {
        assert(b.spawns.has(id) <==> a.spawns.has(id));
    }
    assert forall|id: u32| #![trigger c.spawns.at(id)] (c.spawns.has(id) <==> a.spawns.has(id))
        && (a.spawns.has(id) ==> c.spawns.at(id) == (SpawnModel {
        respawn_at_ms: c.spawns.at(id).respawn_at_ms,
        ..a.spawns.at(id)
    })) by {
        assert(c.spawns.has(id) <==> a.spawns.has(id));
    }
}

proof fn lemma_clock_fits(a: World, b: World, now: u64)
    requires
        a.same_spawns(b),
        a.clock_fits(now),
    ensures
        b.clock_fits(now),
{
    assert forall|id: u32| #![trigger b.spawns.at(id)] b.spawns.has(id) implies now
        + b.spawns.at(id).respawn_interval_ms <= u64::MAX by {
        assert(now + a.spawns.at(id).respawn_interval_ms <= u64::MAX);
    }
}

impl Game {
    /// Set or clear the melee target of player `id`.
    pub fn do_set_target(&mut self, id: u32, target_id: u32)
        requires
            old(self).wf(),
        ensures
            final(self).wf(),
            final(self)@ == old(self)@.aimed(id, target_id),
    {
        proof {
            reveal(World::aimed);
        }
        if target_id == 0 {
            self.stop_player(id);
            return;
        }
        if target_id == id {
            return;
        }
        let pos = match self.players.get(id) {
            Some(p) => p.position,
            None => {
                return;
            },
        };
        if self.map.is_protection_zone(pos) {
            self.push_status_message(
                id,
                "You may not attack while you are in a protection zone.",
            );
            return;
        }
        if !self.creature_exists(target_id) {
            return;
        }
        proof {
            lemma_set_player(
                self@,
                id,
                PlayerModel {
                    attacking: Some(target_id),
                    last_attack_ms: 0,
                    ..self@.players.at(id)
                },
            );
        }
        match self.players.get_mut(id) {
            Some(p) => {
                p.attacking = Some(target_id);
                p.last_attack_ms = 0;
            },
            None => {},
        }
    }

    fn stop_player(&mut self, id: u32)
        requires
            old(self).wf(),
        ensures
            final(self).wf(),
            final(self)@ == old(self)@.player_stopped(id),
    {
        proof {
            if self@.players.has(id) {
                lemma_set_player(
                    self@,
                    id,
                    PlayerModel { attacking: None, ..self@.players.at(id) },
                );
            }
        }
        match self.players.get_mut(id) {
            Some(p) => {
                p.attacking = None;
            },
            None => {},
        }
    }

    fn stop_monster(&mut self, id: u32)
        requires
            old(self).wf(),
        ensures
            final(self).wf(),
            final(self)@ == old(self)@.monster_stopped(id),
    {
        proof {
            if self@.monsters.has(id) {
                lemma_set_monster(
                    self@,
                    id,
                    MonsterModel { attacking: None, ..self@.monsters.at(id) },
                );
            }
        }
        match self.monsters.get_mut(id) {
            Some(m) => {
                m.attacking = None;
            },
            None => {},
        }
    }

    /// Leave a splash on `pos`, unless the tile is full.
    pub fn spawn_splash(&mut self, pos: Position, item_id: u16, fluid: u8)
        requires
            old(self).wf(),
        ensures
            final(self).wf(),
            final(self)@ == old(self)@.splashed(pos, item_id, fluid),
            old(self)@.same_spawns(final(self)@),
    {
        match self.tile(pos) {
            Some(st) => {
                if st.things.len() >= MAX_SPILL {
                    return;
                }
            },
            None => {
                return;
            },
        }
        let t = make_splash(item_id, fluid);
        self.put_on_top(pos, t);
        let slot: u8 = self.front_wire_stackpos(pos);
        self.broadcast_dest(pos, slot, t.item, false);
    }

    fn drop_loot(&mut self, pos: Position, d: MonsterDrop, dropped: bool)
        requires
            old(self).wf(),
        ensures
            final(self).wf(),
            final(self)@ == old(self)@.loot_dropped(pos, d, dropped),
            old(self)@.same_spawns(final(self)@),
    {
        if !dropped {
            return;
        }
        match self.tile(pos) {
            Some(st) => {
                if st.things.len() >= MAX_SPILL {
                    return;
                }
            },
            None => {
                return;
            },
        }
        let t = match self.map.item_meta(d.item_id) {
            Some(m) => {
                let count: Option<u8> = if m.stackable {
                    Some(d.count)
                } else {
                    None
                };
                StackThing {
                    item: WireItem { client_id: m.client_id, subtype: count, animated: m.animated },
                    server_id: d.item_id,
                    count,
                }
            },
            None => {
                return;
            },
        };
        self.put_on_top(pos, t);
        let slot: u8 = self.front_wire_stackpos(pos);
        self.broadcast_dest(pos, slot, t.item, false);
    }

    /// Drop the entries of a loot table for which `drops` says so on `pos`.
    pub fn spawn_loot(&mut self, pos: Position, loot: &Vec<MonsterDrop>, drops: &Vec<bool>)
        requires
            old(self).wf(),
        ensures
            final(self).wf(),
            final(self)@ == old(self)@.looted(pos, loot@, drops@),
            old(self)@.same_spawns(final(self)@),
    {
        let mut i: usize = 0;
        while i < loot.len()
            invariant
                i <= loot@.len(),
                self.wf(),
                self@ == old(self)@.looted(pos, loot@.take(i as int), drops@),
                old(self)@.same_spawns(self@),
            decreases loot@.len() - i,
        {
            assert(loot@.take(i + 1).drop_last() =~= loot@.take(i as int));
            let ghost before = self@;
            let dropped = i < drops.len() && drops[i];
            self.drop_loot(pos, loot[i], dropped);
            proof {
                lemma_same_spawns_trans(old(self)@, before, self@);
            }
            i = i + 1;
        }
        assert(loot@.take(loot@.len() as int) =~= loot@);
    }

    /// Roll for each possible drop of creature `id`.
    fn roll_drops(&mut self, id: u32) -> (r: Vec<bool>)
        requires
            old(self).wf(),
        ensures
            final(self).wf(),
            final(self)@ == old(self)@,
            possible_drops(old(self)@.loot_of(id), r@),
    {
        let mut r: Vec<bool> = Vec::new();
        if self.players.contains(id) {
            return r;
        }
        let loot = match self.monsters.get(id) {
            Some(m) => copy_drops(&m.loot),
            None => {
                return r;
            },
        };
        let mut i: usize = 0;
        while i < loot.len()
            invariant
                i <= loot@.len(),
                r@.len() == i,
                self.wf(),
                self@ == old(self)@,
                forall|k: int|
                    0 <= k < i ==> possible_drop(
                        (#[trigger] loot@[k]).numerator,
                        loot@[k].denominator,
                        r@[k],
                    ),
            decreases loot@.len() - i,
        {
            let dropped = roll_drop(&mut self.rng, loot[i].numerator, loot[i].denominator);
            r.push(dropped);
            i = i + 1;
        }
        r
    }

    /// Make no one attack `victim` any more, nor, where `own` says so, the victim anyone.
    fn clear_fights(&mut self, victim: u32, own: bool)
        requires
            old(self).wf(),
        ensures
            final(self).wf(),
            final(self)@ == old(self)@.unfought(victim, own),
    {
        let ghost start = self@;
        let ghost calm = start.unfought(victim, own);
        let ids = self.players.ids();
        let mut i: usize = 0;
        while i < ids.len()
            invariant
                i <= ids@.len(),
                self.wf(),
                start.wf(),
                calm == start.unfought(victim, own),
                ids@ == start.players.order,
                self@ == (World { players: self@.players, ..start }),
                self@.players.order == start.players.order,
                forall|k: u32| #[trigger] self@.players.has(k) <==> start.players.has(k),
                forall|k: int|
                    0 <= k < i ==> self@.players.at(#[trigger] ids@[k]) == calm.players.at(ids@[k]),
                forall|k: int|
                    i <= k < ids@.len() ==> self@.players.at(#[trigger] ids@[k])
                        == start.players.at(ids@[k]),
            decreases ids@.len() - i,
        {
            let id: u32 = ids[i];
            assert(start.players.order.contains(id));
            let ghost before = self@;
            proof {
                lemma_set_player(self@, id, calm.players.at(id));
                law_set(self@.players, id, calm.players.at(id));
            }
            match self.players.get_mut(id) {
                Some(p) => {
                    let aimed_at = match p.attacking {
                        Some(t) => t == victim,
                        None => false,
                    };
                    if aimed_at || (own && id == victim) {
                        p.attacking = None;
                    }
                },
                None => {},
            }
            assert(self@.players =~= before.players.set(id, calm.players.at(id)));
            i = i + 1;
        }
        proof {
            assert forall|k: u32| #[trigger] self@.players.has(k) implies self@.players.at(k)
                == calm.players.at(k) by {
                assert(start.players.order.contains(k));
                let j = ids@.index_of(k);
                assert(ids@[j] == k);
            }
            assert(self@.players =~= calm.players);
        }
        let mids = self.monsters.ids();
        let mut j: usize = 0;
        while j < mids.len()
            invariant
                j <= mids@.len(),
                self.wf(),
                start.wf(),
                calm == start.unfought(victim, own),
                mids@ == start.monsters.order,
                self@ == (World { players: calm.players, monsters: self@.monsters, ..start }),
                self@.monsters.order == start.monsters.order,
                forall|k: u32| #[trigger] self@.monsters.has(k) <==> start.monsters.has(k),
                forall|k: int|
                    0 <= k < j ==> self@.monsters.at(#[trigger] mids@[k]) == calm.monsters.at(
                        mids@[k],
                    ),
                forall|k: int|
                    j <= k < mids@.len() ==> self@.monsters.at(#[trigger] mids@[k])
                        == start.monsters.at(mids@[k]),
            decreases mids@.len() - j,
        {
            let id: u32 = mids[j];
            assert(start.monsters.order.contains(id));
            let ghost before = self@;
            proof {
                lemma_set_monster(self@, id, calm.monsters.at(id));
                law_set(self@.monsters, id, calm.monsters.at(id));
            }
            match self.monsters.get_mut(id) {
                Some(m) => {
                    let aimed_at = match m.attacking {
                        Some(t) => t == victim,
                        None => false,
                    };
                    if aimed_at {
                        m.attacking = None;
                    }
                },
                None => {},
            }
            assert(self@.monsters =~= before.monsters.set(id, calm.monsters.at(id)));
            j = j + 1;
        }
        proof {
            assert forall|k: u32| #[trigger] self@.monsters.has(k) implies self@.monsters.at(k)
                == calm.monsters.at(k) by {
                assert(start.monsters.order.contains(k));
                let n = mids@.index_of(k);
                assert(mids@[n] == k);
            }
            assert(self@.monsters =~= calm.monsters);
            assert(self@ =~= calm);
        }
    }
}

impl Game {
    fn tell_hit(
        &mut self,
        ids: &Vec<u32>,
        attacker: u32,
        victim: Option<u32>,
        pos: Position,
        applied: u32,
        victim_name: &str,
        attacker_name: &str,
    )
        requires
            old(self).wf(),
        ensures
            final(self).wf(),
            final(self)@ == old(self)@.hit_told(
                ids@,
                attacker,
                victim,
                pos,
                applied,
                victim_name@,
                attacker_name@,
            ),
            old(self)@.only_told(final(self)@),
    {
        let ghost vn = victim_name@;
        let ghost an = attacker_name@;
        let mut i: usize = 0;
        assert(ids@.skip(0) =~= ids@);
        while i < ids.len()
            invariant
                i <= ids@.len(),
                self.wf(),
                vn == victim_name@,
                an == attacker_name@,
                old(self)@.only_told(self@),
                old(self)@.hit_told(ids@, attacker, victim, pos, applied, vn, an)
                    == self@.hit_told(ids@.skip(i as int), attacker, victim, pos, applied, vn, an),
            decreases ids@.len() - i,
        {
            assert(ids@.skip(i as int).drop_first() =~= ids@.skip(i + 1));
            let sid: u32 = ids[i];
            let received = match victim {
                Some(v) => sid == v,
                None => false,
            };
            let role = if sid == attacker {
                DamageRole::Dealt
            } else if received {
                DamageRole::Received
            } else {
                DamageRole::Others
            };
            let line = make_hit_text(role, applied, victim_name, attacker_name);
            let text = line.as_str().as_bytes_vec();
            let ghost before = self@;
            self.push(sid, Packet::DamageText { role, position: pos, value: applied, text });
            proof {
                lemma_only_told_trans(old(self)@, before, self@);
            }
            i = i + 1;
        }
    }

    fn tell_damage(
        &mut self,
        ids: &Vec<u32>,
        attacker: u32,
        victim: u32,
        player: bool,
        pos: Position,
        applied: u32,
    )
        requires
            old(self).wf(),
        ensures
            final(self).wf(),
            final(self)@ == old(self)@.damage_told(ids@, attacker, victim, player, pos, applied),
            old(self)@.only_told(final(self)@),
    {
        if applied == 0 {
            return;
        }
        let victim_name = self.name_of(victim);
        let attacker_name = self.name_of(attacker);
        let received = if player {
            Some(victim)
        } else {
            None
        };
        self.tell_hit(
            ids,
            attacker,
            received,
            pos,
            applied,
            victim_name.as_str(),
            attacker_name.as_str(),
        );
    }

    /// The name of a creature, empty where there is none.
    fn name_of(&self, id: u32) -> (r: String)
        requires
            self.wf(),
        ensures
            r@ == self@.name_or_empty(id),
    {
        match self.creature_name(id) {
            Some(n) => n.clone(),
            None => {
                let s = String::new();
                assert(s@ =~= Seq::empty());
                s
            },
        }
    }

    /// Apply `dmg` hit points of damage to player `victim_id`, dealt by `attacker_id`. Those
    /// who see the victim are shown its health, blood and the damage actually done; at 0 hit
    /// points the victim dies.
    pub fn apply_damage(&mut self, attacker_id: u32, victim_id: u32, dmg: i32)
        requires
            old(self).wf(),
        ensures
            final(self).wf(),
            final(self)@ == old(self)@.player_hit(attacker_id, victim_id, dmg),
            old(self)@.same_spawns(final(self)@),
    {
        proof {
            if self@.players.has(victim_id) {
                let v = self@.players.at(victim_id);
                lemma_set_player(
                    self@,
                    victim_id,
                    PlayerModel { health: health_after(v.health, dmg), ..v },
                );
            }
        }
        let (before, left, max_health, pos) = match self.players.get_mut(victim_id) {
            Some(p) => {
                let before: u32 = p.health;
                p.health = hurt(p.health, dmg);
                (before, p.health, p.max_health, p.position)
            },
            None => {
                return;
            },
        };
        let ids = self.audience(pos);
        self.push_all(
            &ids,
            &Packet::CreatureHealth { id: victim_id, health: left, max_health },
        );
        let stats = match self.players.get(victim_id) {
            Some(p) => Stats::new(p.health, p.max_health, p.speed),
            None => {
                return;
            },
        };
        self.push(victim_id, Packet::Stats { stats });
        self.push_all(&ids, &Packet::MagicEffect { position: pos, effect: Effect::DrawBlood });
        self.tell_damage(&ids, attacker_id, victim_id, true, pos, before - left);
        let fluid = match self.players.get(victim_id) {
            Some(p) => p.race.fluid_subtype(),
            None => None,
        };
        let ghost hit = self@;
        match fluid {
            Some(f) => self.spawn_splash(pos, ITEM_SMALLSPLASH, f),
            None => {},
        }
        let ghost wet = self@;
        if left == 0 {
            self.do_death(victim_id);
        }
        proof {
            lemma_same_spawns_trans(old(self)@, hit, wet);
            lemma_same_spawns_trans(old(self)@, wet, self@);
        }
    }

    /// A player dies, which ends its session. Its record puts it into the temple in full
    /// health, so that it comes back there.
    pub fn do_death(&mut self, victim_id: u32)
        requires
            old(self).wf(),
        ensures
            final(self).wf(),
            final(self)@ == old(self)@.died(victim_id),
            old(self)@.same_spawns(final(self)@),
    {
        self.offer(victim_id, Packet::DeathWindow);
        self.clear_fights(victim_id, true);
        let (pos, race) = match self.players.get(victim_id) {
            Some(p) => (p.position, p.race),
            None => {
                return;
            },
        };
        self.leave_pool(victim_id, pos, race);
        let ids = self.spectators(pos, victim_id);
        self.tell_gone(&ids, victim_id);
        self.bury(victim_id);
    }

    fn leave_pool(&mut self, victim: u32, pos: Position, race: RaceType)
        requires
            old(self).wf(),
            old(self)@.players.has(victim),
            pos == old(self)@.players.at(victim).position,
            race == old(self)@.players.at(victim).race,
        ensures
            final(self).wf(),
            final(self)@ == old(self)@.pool_left(victim),
            old(self)@.same_spawns(final(self)@),
    {
        let fluid: u8 = match race.fluid_subtype() {
            Some(f) => f,
            None => {
                return;
            },
        };
        match self.tile(pos) {
            Some(_) => {},
            None => {
                return;
            },
        }
        let t = make_splash(ITEM_FULLSPLASH, fluid);
        let slot: u8 = self.front_wire_stackpos(pos);
        let ids = self.spectators(pos, victim);
        self.offer_all(
            &ids,
            &Packet::AddTileItem { position: pos, stackpos: slot, item: t.item },
        );
        self.put_on_top(pos, t);
    }

    fn bury(&mut self, id: u32)
        requires
            old(self).wf(),
        ensures
            final(self).wf(),
            final(self)@ == old(self)@.buried(id),
    {
        let mut r = match self.players.get(id) {
            Some(p) => p.save_record(),
            None => {
                return;
            },
        };
        r.position = self.map.temple_for(r.position);
        r.health = r.max_health;
        self.remove_player(id);
        self.keep_record(r);
    }

    /// Apply `dmg` hit points of damage to monster `victim_id`, dealt by `attacker_id`. A
    /// monster that survives strikes back; one that dies drops the entries of its loot table
    /// for which `drops` says so.
    pub fn apply_monster_damage(
        &mut self,
        attacker_id: u32,
        victim_id: u32,
        dmg: i32,
        now_ms: u64,
        drops: &Vec<bool>,
    )
        requires
            old(self).wf(),
            old(self)@.clock_fits(now_ms),
        ensures
            final(self).wf(),
            final(self)@ == old(self)@.monster_hit(attacker_id, victim_id, dmg, now_ms, drops@),
            old(self)@.same_spawns(final(self)@),
    {
        proof {
            if self@.monsters.has(victim_id) {
                let v = self@.monsters.at(victim_id);
                lemma_set_monster(
                    self@,
                    victim_id,
                    MonsterModel { health: health_after(v.health, dmg), ..v },
                );
            }
        }
        let (before, left, max_health, pos) = match self.monsters.get_mut(victim_id) {
            Some(m) => {
                let before: u32 = m.health;
                m.health = hurt(m.health, dmg);
                (before, m.health, m.max_health, m.position)
            },
            None => {
                return;
            },
        };
        let ids = self.audience(pos);
        self.push_all(
            &ids,
            &Packet::CreatureHealth { id: victim_id, health: left, max_health },
        );
        self.push_all(&ids, &Packet::MagicEffect { position: pos, effect: Effect::DrawBlood });
        self.tell_damage(&ids, attacker_id, victim_id, false, pos, before - left);
        let ghost hit = self@;
        let fluid = self.fluid_of_monster(victim_id);
        match fluid {
            Some(f) => self.spawn_splash(pos, ITEM_SMALLSPLASH, f),
            None => {},
        }
        let ghost wet = self@;
        proof {
            lemma_same_spawns_trans(old(self)@, hit, wet);
        }
        if left == 0 {
            proof {
                lemma_clock_fits(old(self)@, wet, now_ms);
            }
            self.do_monster_death(victim_id, now_ms, drops);
            proof {
                lemma_same_spawns_trans(old(self)@, wet, self@);
            }
        } else {
            self.provoke(victim_id, attacker_id);
            proof {
                lemma_same_spawns_trans(old(self)@, wet, self@);
            }
        }
    }

    fn fluid_of_monster(&self, id: u32) -> (r: Option<u8>)
        requires
            self.wf(),
        ensures
            r == self@.monster_fluid(id),
    {
        match self.monsters.get(id) {
            Some(m) => match m.race {
                Some(race) => race.fluid_subtype(),
                None => None,
            },
            None => None,
        }
    }

    fn provoke(&mut self, id: u32, attacker: u32)
        requires
            old(self).wf(),
        ensures
            final(self).wf(),
            final(self)@ == old(self)@.provoked(id, attacker),
    {
        proof {
            if self@.monsters.has(id) {
                lemma_set_monster(
                    self@,
                    id,
                    MonsterModel {
                        attacking: Some(attacker),
                        last_attack_ms: 0,
                        ..self@.monsters.at(id)
                    },
                );
            }
        }
        match self.monsters.get_mut(id) {
            Some(m) => {
                match m.attacking {
                    Some(_) => {},
                    None => {
                        m.attacking = Some(attacker);
                        m.last_attack_ms = 0;
                    },
                }
            },
            None => {},
        }
        assert(self@ =~= old(self)@.provoked(id, attacker));
    }

    /// A monster dies: everyone who saw it is told, all fights with it end, the entries of its
    /// loot table for which `drops` says so lie on its tile, and its spawn starts to wait.
    pub fn do_monster_death(&mut self, victim_id: u32, now_ms: u64, drops: &Vec<bool>)
        requires
            old(self).wf(),
            old(self)@.clock_fits(now_ms),
        ensures
            final(self).wf(),
            final(self)@ == old(self)@.monster_died(victim_id, now_ms, drops@),
            old(self)@.same_spawns(final(self)@),
    {
        let (spawn_id, pos, loot) = match self.monsters.get(victim_id) {
            Some(m) => (m.spawn_id, m.position, copy_drops(&m.loot)),
            None => {
                return;
            },
        };
        let fluid = self.fluid_of_monster(victim_id);
        match fluid {
            Some(f) => self.spawn_splash(pos, ITEM_FULLSPLASH, f),
            None => {},
        }
        self.clear_fights(victim_id, false);
        let ids = self.spectators(pos, u32::MAX);
        self.tell_gone(&ids, victim_id);
        proof {
            law_without(self@.monsters, victim_id);
        }
        self.monsters.remove(victim_id);
        let ghost gone = self@;
        match spawn_id {
            Some(sid) => {
                proof {
                    lemma_clock_fits(old(self)@, gone, now_ms);
                }
                self.schedule_respawn(sid, now_ms);
            },
            None => {},
        }
        let ghost due = self@;
        self.spawn_loot(pos, &loot, drops);
        proof {
            lemma_same_spawns_trans(old(self)@, gone, due);
            lemma_same_spawns_trans(old(self)@, due, self@);
        }
    }

    fn schedule_respawn(&mut self, sid: u32, now_ms: u64)
        requires
            old(self).wf(),
            old(self)@.clock_fits(now_ms),
        ensures
            final(self).wf(),
            final(self)@ == old(self)@.respawn_due(sid, now_ms),
            old(self)@.same_spawns(final(self)@),
    {
        proof {
            if self@.spawns.has(sid) && self@.spawns.at(sid).respawn_interval_ms > 0 {
                law_set(
                    self@.spawns,
                    sid,
                    self@.respawn_due(sid, now_ms).spawns.at(sid),
                );
            }
        }
        let comes_back = match self.spawns.get(sid) {
            Some(s) => s.respawn_interval_ms > 0,
            None => false,
        };
        if comes_back {
            match self.spawns.get_mut(sid) {
                Some(s) => {
                    s.respawn_at_ms = Some(now_ms + s.respawn_interval_ms);
                },
                None => {},
            }
        }
    }
}

/// Whatever the state, some outcome of a swing is possible.
proof fn lemma_some_outcome(w: World, player: bool, a: u32, t: u32) -> (o: Outcome)
    ensures
        w.possible(player, a, t, o),
{
    let loot = w.loot_of(t);
    let drops = Seq::new(
        loot.len(),
        |i: int| 0 < loot[i].numerator && loot[i].numerator == loot[i].denominator,
    );
    Outcome { dmg: 0, drops }
}

/// Outcomes beyond the first `n` do not matter to the first `n` swings.
proof fn lemma_swings_prefix(
    w: World,
    player: bool,
    pairs: Seq<(u32, u32)>,
    now: u64,
    a: Seq<Outcome>,
    b: Seq<Outcome>,
    n: int,
)
    requires
        n <= a.len(),
        n <= b.len(),
        forall|i: int| 0 <= i < n ==> a[i] == b[i],
    ensures
        w.swings(player, pairs, now, a, n) == w.swings(player, pairs, now, b, n),
        w.all_possible(player, pairs, now, a, n) == w.all_possible(player, pairs, now, b, n),
    decreases n,
{
    if n > 0 {
        lemma_swings_prefix(w, player, pairs, now, a, b, n - 1);
    }
}

impl Game {
    /// Does a protection zone keep `target_id`, at `target_pos`, from being attacked from
    /// `pos`?
    fn is_protected(&self, pos: Position, target_id: u32, target_pos: Position) -> (r: bool)
        requires
            self.wf(),
            self@.creature_position(target_id) == Some(target_pos),
        ensures
            r == self@.protected(pos, target_id),
    {
        self.map.is_protection_zone(pos) || (self.players.contains(target_id)
            && self.map.is_protection_zone(target_pos))
    }

    /// Strike `target_id`, with the outcome of the swing given.
    fn strike(&mut self, attacker: u32, target_id: u32, now_ms: u64, dmg: i32, drops: &Vec<bool>)
        requires
            old(self).wf(),
            old(self)@.clock_fits(now_ms),
        ensures
            final(self).wf(),
            final(self)@ == old(self)@.struck(
                attacker,
                target_id,
                now_ms,
                (Outcome { dmg, drops: drops@ }),
            ),
            old(self)@.same_spawns(final(self)@),
    {
        if self.players.contains(target_id) {
            self.apply_damage(attacker, target_id, dmg);
        } else {
            self.apply_monster_damage(attacker, target_id, dmg, now_ms, drops);
        }
    }

    /// Give player `attacker_id`, who fights `target_id`, a chance to swing, with the outcome
    /// of the swing given.
    pub fn player_attack_with(
        &mut self,
        attacker_id: u32,
        target_id: u32,
        now_ms: u64,
        dmg: i32,
        drops: &Vec<bool>,
    )
        requires
            old(self).wf(),
            old(self)@.clock_fits(now_ms),
        ensures
            final(self).wf(),
            final(self)@ == old(self)@.player_swing(
                attacker_id,
                target_id,
                now_ms,
                (Outcome { dmg, drops: drops@ }),
            ),
            old(self)@.same_spawns(final(self)@),
    {
        let target_pos = match self.creature_position(target_id) {
            Some(pos) => pos,
            None => {
                self.stop_player(attacker_id);
                return;
            },
        };
        let (pos, last) = match self.players.get(attacker_id) {
            Some(p) => (p.position, p.last_attack_ms),
            None => {
                return;
            },
        };
        if self.is_protected(pos, target_id, target_pos) {
            self.stop_player(attacker_id);
            return;
        }
        if now_ms.saturating_sub(last) < MELEE_ATTACK_INTERVAL_MS {
            return;
        }
        if !in_close_range(pos, target_pos) {
            self.stop_player(attacker_id);
            return;
        }
        proof {
            lemma_set_player(
                self@,
                attacker_id,
                PlayerModel { last_attack_ms: now_ms, ..self@.players.at(attacker_id) },
            );
        }
        match self.players.get_mut(attacker_id) {
            Some(p) => {
                p.last_attack_ms = now_ms;
            },
            None => {},
        }
        let ghost mid = self@;
        proof {
            lemma_clock_fits(old(self)@, mid, now_ms);
        }
        self.strike(attacker_id, target_id, now_ms, dmg, drops);
        proof {
            lemma_same_spawns_trans(old(self)@, mid, self@);
        }
    }

    /// Give monster `attacker_id`, which fights `target_id`, a chance to swing, with the
    /// outcome of the swing given.
    pub fn monster_attack_with(
        &mut self,
        attacker_id: u32,
        target_id: u32,
        now_ms: u64,
        dmg: i32,
        drops: &Vec<bool>,
    )
        requires
            old(self).wf(),
            old(self)@.clock_fits(now_ms),
        ensures
            final(self).wf(),
            final(self)@ == old(self)@.monster_swing(
                attacker_id,
                target_id,
                now_ms,
                (Outcome { dmg, drops: drops@ }),
            ),
            old(self)@.same_spawns(final(self)@),
    {
        let target_pos = match self.creature_position(target_id) {
            Some(pos) => pos,
            None => {
                self.stop_monster(attacker_id);
                return;
            },
        };
        let (pos, last) = match self.monsters.get(attacker_id) {
            Some(m) => (m.position, m.last_attack_ms),
            None => {
                return;
            },
        };
        if self.is_protected(pos, target_id, target_pos) {
            self.stop_monster(attacker_id);
            return;
        }
        if now_ms.saturating_sub(last) < MELEE_ATTACK_INTERVAL_MS {
            return;
        }
        if !in_close_range(pos, target_pos) {
            return;
        }
        proof {
            lemma_set_monster(
                self@,
                attacker_id,
                MonsterModel { last_attack_ms: now_ms, ..self@.monsters.at(attacker_id) },
            );
        }
        match self.monsters.get_mut(attacker_id) {
            Some(m) => {
                m.last_attack_ms = now_ms;
            },
            None => {},
        }
        let ghost mid = self@;
        proof {
            lemma_clock_fits(old(self)@, mid, now_ms);
        }
        self.strike(attacker_id, target_id, now_ms, dmg, drops);
        proof {
            lemma_same_spawns_trans(old(self)@, mid, self@);
        }
    }

    /// Give player `attacker_id`, who fights `target_id`, a chance to swing.
    pub fn process_player_attack(&mut self, attacker_id: u32, target_id: u32, now_ms: u64)
        requires
            old(self).wf(),
            old(self)@.clock_fits(now_ms),
        ensures
            final(self).wf(),
            exists|o: Outcome| #[trigger]
                old(self)@.possible(true, attacker_id, target_id, o) && final(self)@ == old(
                    self,
                )@.player_swing(attacker_id, target_id, now_ms, o),
            old(self)@.same_spawns(final(self)@),
    {
        let max: i32 = match self.players.get(attacker_id) {
            Some(p) => p.max_melee,
            None => 0,
        };
        let dmg: i32 = melee_damage(&mut self.rng, max);
        let drops = self.roll_drops(target_id);
        let ghost o = Outcome { dmg, drops: drops@ };
        proof {
            if !self@.players.has(attacker_id) {
                let some = lemma_some_outcome(old(self)@, true, attacker_id, target_id);
                assert(old(self)@.possible(true, attacker_id, target_id, some));
                assert(old(self)@.player_swing(attacker_id, target_id, now_ms, some) == old(
                    self,
                )@.player_swing(attacker_id, target_id, now_ms, o));
            } else {
                assert(old(self)@.possible(true, attacker_id, target_id, o));
            }
        }
        self.player_attack_with(attacker_id, target_id, now_ms, dmg, &drops);
    }

    /// Give monster `attacker_id`, which fights `target_id`, a chance to swing.
    pub fn process_monster_attack(&mut self, attacker_id: u32, target_id: u32, now_ms: u64)
        requires
            old(self).wf(),
            old(self)@.clock_fits(now_ms),
        ensures
            final(self).wf(),
            exists|o: Outcome| #[trigger]
                old(self)@.possible(false, attacker_id, target_id, o) && final(self)@ == old(
                    self,
                )@.monster_swing(attacker_id, target_id, now_ms, o),
            old(self)@.same_spawns(final(self)@),
    {
        let max: i32 = match self.monsters.get(attacker_id) {
            Some(m) => m.attack as i32,
            None => 0,
        };
        let dmg: i32 = melee_damage(&mut self.rng, max);
        let drops = self.roll_drops(target_id);
        let ghost o = Outcome { dmg, drops: drops@ };
        proof {
            if !self@.monsters.has(attacker_id) {
                let some = lemma_some_outcome(old(self)@, false, attacker_id, target_id);
                assert(old(self)@.possible(false, attacker_id, target_id, some));
                assert(old(self)@.monster_swing(attacker_id, target_id, now_ms, some) == old(
                    self,
                )@.monster_swing(attacker_id, target_id, now_ms, o));
            } else {
                assert(old(self)@.possible(false, attacker_id, target_id, o));
            }
        }
        self.monster_attack_with(attacker_id, target_id, now_ms, dmg, &drops);
    }

    fn list_player_fights(&self) -> (r: Vec<(u32, u32)>)
        requires
            self.wf(),
        ensures
            r@ == self@.player_fights(),
    {
        let ghost order = self.players@.order;
        let ghost f = self@.player_target();
        let mut r: Vec<(u32, u32)> = Vec::new();
        let mut i: usize = 0;
        while i < self.players.len()
            invariant
                self.wf(),
                i <= order.len(),
                order == self.players@.order,
                f == self@.player_target(),
                r@ == fights(order.take(i as int), f),
            decreases order.len() - i,
        {
            assert(order.take(i + 1).drop_last() =~= order.take(i as int));
            let id: u32 = self.players.id_at(i);
            match self.players.entry_at(i).attacking {
                Some(t) => r.push((id, t)),
                None => {},
            }
            i = i + 1;
        }
        assert(order.take(order.len() as int) =~= order);
        r
    }

    fn list_monster_fights(&self) -> (r: Vec<(u32, u32)>)
        requires
            self.wf(),
        ensures
            r@ == self@.monster_fights(),
    {
        let ghost order = self.monsters@.order;
        let ghost f = self@.monster_target();
        let mut r: Vec<(u32, u32)> = Vec::new();
        let mut i: usize = 0;
        while i < self.monsters.len()
            invariant
                self.wf(),
                i <= order.len(),
                order == self.monsters@.order,
                f == self@.monster_target(),
                r@ == fights(order.take(i as int), f),
            decreases order.len() - i,
        {
            assert(order.take(i + 1).drop_last() =~= order.take(i as int));
            let id: u32 = self.monsters.id_at(i);
            match self.monsters.entry_at(i).attacking {
                Some(t) => r.push((id, t)),
                None => {},
            }
            i = i + 1;
        }
        assert(order.take(order.len() as int) =~= order);
        r
    }

    /// Give each of `pairs` a chance to swing, in turn.
    fn process_attacks(&mut self, player: bool, pairs: &Vec<(u32, u32)>, now_ms: u64)
        requires
            old(self).wf(),
            old(self)@.clock_fits(now_ms),
        ensures
            final(self).wf(),
            exists|os: Seq<Outcome>| #[trigger]
                old(self)@.all_possible(player, pairs@, now_ms, os, pairs@.len() as int)
                    && final(self)@ == old(self)@.swings(
                    player,
                    pairs@,
                    now_ms,
                    os,
                    pairs@.len() as int,
                ),
            old(self)@.same_spawns(final(self)@),
    {
        let ghost start = self@;
        let ghost mut os: Seq<Outcome> = Seq::empty();
        let mut i: usize = 0;
        while i < pairs.len()
            invariant
                i <= pairs@.len(),
                self.wf(),
                start == old(self)@,
                start.clock_fits(now_ms),
                os.len() == i,
                start.all_possible(player, pairs@, now_ms, os, i as int),
                self@ == start.swings(player, pairs@, now_ms, os, i as int),
                start.same_spawns(self@),
            decreases pairs@.len() - i,
        {
            let ghost before = self@;
            let (a, t) = pairs[i];
            proof {
                lemma_clock_fits(start, before, now_ms);
            }
            if player {
                self.process_player_attack(a, t, now_ms);
            } else {
                self.process_monster_attack(a, t, now_ms);
            }
            proof {
                let o = choose|o: Outcome| #[trigger]
                    before.possible(player, a, t, o) && self@ == before.swing(
                        player,
                        a,
                        t,
                        now_ms,
                        o,
                    );
                lemma_swings_prefix(start, player, pairs@, now_ms, os, os.push(o), i as int);
                os = os.push(o);
                lemma_same_spawns_trans(start, before, self@);
            }
            i = i + 1;
        }
        assert(start.all_possible(player, pairs@, now_ms, os, pairs@.len() as int));
    }

    /// Add a monster under the next monster id.
    pub fn add_monster(&mut self, m: MonsterState) -> (id: u32)
        requires
            old(self).wf(),
            old(self)@.next_monster_id < u32::MAX,
        ensures
            final(self).wf(),
            final(self)@ == old(self)@.monster_added(m@),
            id == old(self)@.next_monster_id,
    {
        let id: u32 = self.next_monster_id;
        proof {
            assert(!self@.monsters.has(id));
            law_add_last(self@.monsters, id, m@);
        }
        self.next_monster_id = id + 1;
        self.monsters.insert(id, m);
        id
    }

    /// Let a monster of spawn `sid` appear.
    fn respawn(&mut self, sid: u32)
        requires
            old(self).wf(),
            old(self)@.next_monster_id < u32::MAX,
        ensures
            final(self).wf(),
            final(self)@ == old(self)@.respawned(sid),
            final(self)@.next_monster_id <= old(self)@.next_monster_id + 1,
    {
        let (m, pos) = match self.spawns.get(sid) {
            Some(s) => (MonsterState::born(&s.kind, s.position, Some(sid)), s.position),
            None => {
                return;
            },
        };
        proof {
            law_set(
                self@.spawns,
                sid,
                SpawnModel { respawn_at_ms: None, ..self@.spawns.at(sid) },
            );
        }
        match self.spawns.get_mut(sid) {
            Some(s) => {
                s.respawn_at_ms = None;
            },
            None => {},
        }
        let mid: u32 = self.add_monster(m);
        let ids = self.spectators(pos, u32::MAX);
        self.show_creature(&ids, mid, pos);
    }

    /// Let a monster of each spawn that is due appear.
    pub fn process_respawns(&mut self, now_ms: u64)
        requires
            old(self).wf(),
            old(self)@.next_monster_id + old(self)@.spawns.count() <= u32::MAX,
        ensures
            final(self).wf(),
            final(self)@ == old(self)@.respawn_all(now_ms),
    {
        let ghost order = self.spawns@.order;
        let ghost f = self@.is_due(now_ms);
        let mut due: Vec<u32> = Vec::new();
        assert(order.take(0).filter(f) =~= Seq::empty()) by {
            reveal(Seq::filter);
        }
        let mut i: usize = 0;
        while i < self.spawns.len()
            invariant
                self.wf(),
                self@ == old(self)@,
                i <= order.len(),
                order == self.spawns@.order,
                f == self@.is_due(now_ms),
                due@ == order.take(i as int).filter(f),
                due@.len() <= i,
            decreases order.len() - i,
        {
            let id: u32 = self.spawns.id_at(i);
            proof {
                lemma_filter_step(order, i as int, f);
            }
            match self.spawns.entry_at(i).respawn_at_ms {
                Some(t) => {
                    if t <= now_ms {
                        due.push(id);
                    }
                },
                None => {},
            }
            i = i + 1;
        }
        assert(order.take(order.len() as int) =~= order);
        let mut j: usize = 0;
        assert(due@.skip(0) =~= due@);
        while j < due.len()
            invariant
                j <= due@.len(),
                self.wf(),
                self@.next_monster_id + due@.len() - j <= u32::MAX,
                old(self)@.respawn_all(now_ms) == self@.all_respawned(due@.skip(j as int)),
            decreases due@.len() - j,
        {
            assert(due@.skip(j as int).drop_first() =~= due@.skip(j + 1));
            self.respawn(due[j]);
            j = j + 1;
        }
    }

    /// The combat tick: every player and every monster in a fight gets a chance to swing, and
    /// spawns that are due give their monsters.
    pub fn on_combat_tick(&mut self, now_ms: u64)
        requires
            old(self).wf(),
            old(self)@.clock_fits(now_ms),
            old(self)@.next_monster_id + old(self)@.spawns.count() <= u32::MAX,
        ensures
            final(self).wf(),
            exists|po: Seq<Outcome>, mo: Seq<Outcome>| #[trigger]
                old(self)@.fought_possibly(now_ms, po, mo) && final(self)@ == old(self)@.fought(
                    now_ms,
                    po,
                    mo,
                ),
    {
        proof {
            reveal(World::fought);
        }
        let pairs = self.list_player_fights();
        self.process_attacks(true, &pairs, now_ms);
        let ghost mid = self@;
        let ghost po = choose|os: Seq<Outcome>| #[trigger]
            old(self)@.all_possible(true, pairs@, now_ms, os, pairs@.len() as int) && mid == old(
                self,
            )@.swings(true, pairs@, now_ms, os, pairs@.len() as int);
        proof {
            lemma_clock_fits(old(self)@, mid, now_ms);
        }
        let more = self.list_monster_fights();
        self.process_attacks(false, &more, now_ms);
        let ghost late = self@;
        let ghost mo = choose|os: Seq<Outcome>| #[trigger]
            mid.all_possible(false, more@, now_ms, os, more@.len() as int) && late == mid.swings(
                false,
                more@,
                now_ms,
                os,
                more@.len() as int,
            );
        proof {
            lemma_same_spawns_trans(old(self)@, mid, late);
            assert(old(self)@.fought_possibly(now_ms, po, mo));
        }
        self.process_respawns(now_ms);
    }
}

} // verus!
