//! What happens on its own: spawns that are set up and wounds that heal.

use vstd::prelude::*;

use super::condition::ConditionRegeneration;
use super::model::lemma_set_player;
use super::model::World;
use super::monster::parse_spawns_xml;
use super::monster::spawns_of;
use super::monster::spawns_view;
use super::state::MonsterSpawn;
use super::state::MonsterState;
use super::state::PlayerModel;
use super::state::PlayerState;
use super::state::SpawnModel;
use super::state::TypeModel;
use super::Game;
use crate::registry::law_add_last;
use crate::text::ascii_lowered;
use crate::text::to_ascii_lowercase;
use crate::wire::Packet;
use crate::wire::PacketModel;
use crate::wire::Stats;
use crate::xml::document_nodes;
use crate::xml::FormatError;
use crate::xml::NodeModel;

verus! {

/// The conditions that have not run out at `now`.
pub open spec fn lasting(s: Seq<ConditionRegeneration>, now: u64) -> Seq<ConditionRegeneration>
    decreases s.len(),
{
    if s.len() == 0 {
        s
    } else {
        let rest = lasting(s.drop_last(), now);
        if now >= s.last().expires_at_ms {
            rest
        } else {
            rest.push(s.last())
        }
    }
}

/// The conditions after a tick at `now`.
pub open spec fn ticked_all(s: Seq<ConditionRegeneration>, now: u64) -> Seq<ConditionRegeneration> {
    s.map_values(|c: ConditionRegeneration| c.ticked(now))
}

/// How much the conditions heal together in a tick at `now`.
pub open spec fn healed_by(s: Seq<ConditionRegeneration>, now: u64) -> int
    decreases s.len(),
{
    if s.len() == 0 {
        0
    } else {
        healed_by(s.drop_last(), now) + s.last().heals(now)
    }
}

/// Conditions heal and never wound.
pub proof fn law_conditions_heal(s: Seq<ConditionRegeneration>, now: u64)
    ensures
        healed_by(s, now) >= 0,
    decreases s.len(),
{
    if s.len() > 0 {
        law_conditions_heal(s.drop_last(), now);
    }
}

impl PlayerModel {
    /// How much a tick at `now` heals the player.
    pub open spec fn healing(self, now: u64) -> int {
        healed_by(lasting(self.conditions, now), now)
    }

    /// The player after a tick at `now`: conditions that have run out are gone, and the others
    /// heal up to full health.
    pub open spec fn recovered(self, now: u64) -> PlayerModel {
        let n = self.healing(now);
        PlayerModel {
            conditions: ticked_all(lasting(self.conditions, now), now),
            health: if n <= 0 {
                self.health
            } else if self.health + n >= self.max_health {
                self.max_health
            } else {
                (self.health + n) as u32
            },
            ..self
        }
    }
}

/// A tick never takes health from a player who has no more than the maximum, nor gives more
/// than the maximum.
pub proof fn law_recovery_keeps_health(p: PlayerModel, now: u64)
    requires
        p.health <= p.max_health,
    ensures
        p.health <= p.recovered(now).health <= p.max_health,
{
    law_conditions_heal(lasting(p.conditions, now), now);
}

/// Recovery only changes health and conditions.
pub proof fn law_recovery_keeps_rest(p: PlayerModel, now: u64)
    ensures
        p.recovered(now) == (PlayerModel {
            health: p.recovered(now).health,
            conditions: p.recovered(now).conditions,
            ..p
        }),
{
}

impl World {
    /// Player `id` after a tick at `now`. It is shown its health if the tick healed it.
    pub open spec fn player_recovered(self, id: u32, now: u64) -> World {
        if !self.players.has(id) {
            self
        } else {
            let p = self.players.at(id).recovered(now);
            let w = self.set_player(id, p);
            if self.players.at(id).healing(now) != 0 {
                w.push(
                    id,
                    PacketModel::Stats { stats: Stats::of(p.health, p.max_health, p.speed) },
                )
            } else {
                w
            }
        }
    }

    /// Each of `ids` after a tick at `now`.
    pub open spec fn all_recovered(self, ids: Seq<u32>, now: u64) -> World
        decreases ids.len(),
    {
        if ids.len() == 0 {
            self
        } else {
            self.player_recovered(ids[0], now).all_recovered(ids.drop_first(), now)
        }
    }

    /// The type of monster that a spawn gives: the known one with its name, else what the
    /// spawn itself says.
    pub open spec fn spawn_kind(self, s: SpawnModel) -> TypeModel {
        if self.types.contains_key(ascii_lowered(s.kind.name)) {
            self.types[ascii_lowered(s.kind.name)]
        } else {
            s.kind
        }
    }

    /// A new spawn, with its first monster.
    pub open spec fn spawn_added(self, s: SpawnModel) -> World {
        let known = self.types.contains_key(ascii_lowered(s.kind.name));
        let sid = self.next_spawn_id;
        World {
            spawns: self.spawns.add_last(
                sid,
                SpawnModel {
                    kind: self.spawn_kind(s),
                    respawn_at_ms: if known {
                        None
                    } else {
                        s.respawn_at_ms
                    },
                    ..s
                },
            ),
            next_spawn_id: (sid + 1) as u32,
            ..self
        }.monster_added(self.spawn_kind(s).newborn(s.position, Some(sid)))
    }

    /// New spawns, each with its first monster.
    pub open spec fn spawns_added(self, s: Seq<SpawnModel>) -> World
        decreases s.len(),
    {
        if s.len() == 0 {
            self
        } else {
            self.spawns_added(s.drop_last()).spawn_added(s.last())
        }
    }

    /// There are ids for `n` more spawns and their monsters.
    pub open spec fn ids_left(self, n: nat) -> bool {
        self.next_spawn_id + n <= u32::MAX && self.next_monster_id + n <= u32::MAX
    }

    /// The game with the spawns that a document gives, where it gives any and there are ids
    /// for them.
    pub open spec fn peopled(self, nodes: Option<Seq<NodeModel>>) -> World {
        match nodes {
            Some(n) => match spawns_of(n) {
                Ok(s) if self.ids_left(s.len()) => self.spawns_added(s),
                _ => self,
            },
            None => self,
        }
    }

    /// Whether there are ids for the spawns of a document, or what is wrong with it.
    pub open spec fn loading(self, nodes: Option<Seq<NodeModel>>) -> Result<bool, Seq<char>> {
        match nodes {
            Some(n) => match spawns_of(n) {
                Ok(s) => Ok(self.ids_left(s.len())),
                Err(what) => Err(what),
            },
            None => Err("spawns.xml is not well-formed"@),
        }
    }
}

/// What came of loading spawns, by its view.
pub open spec fn loading_view(r: Result<bool, FormatError>) -> Result<bool, Seq<char>> {
    match r {
        Ok(loaded) => Ok(loaded),
        Err(e) => Err(e.reason()),
    }
}

impl PlayerState {
    /// Let a tick at `now` do its work. Returns whether it healed.
    fn recover(&mut self, now: u64) -> (healed: bool)
        ensures
            final(self)@ == old(self)@.recovered(now),
            healed == (old(self)@.healing(now) != 0),
    {
        let ghost start = self.conditions@;
        let ghost kept = lasting(start, now);
        let mut left: Vec<ConditionRegeneration> = Vec::new();
        let mut healed: u64 = 0;
        let mut i: usize = 0;
        assert(left@ =~= ticked_all(lasting(start.take(0), now), now));
        while i < self.conditions.len()
            invariant
                i <= start.len(),
                self.conditions@ == start,
                self@ == old(self)@,
                left@ == ticked_all(lasting(start.take(i as int), now), now),
                healed_by(lasting(start.take(i as int), now), now) >= 0,
                healed == (if healed_by(lasting(start.take(i as int), now), now) <= 0xFFFF_FFFF {
                    healed_by(lasting(start.take(i as int), now), now)
                } else {
                    0xFFFF_FFFF
                }),
            decreases start.len() - i,
        {
            assert(start.take(i + 1).drop_last() =~= start.take(i as int));
            let ghost before = lasting(start.take(i as int), now);
            let mut c = self.conditions[i];
            if !c.is_expired(now) {
                let n: i32 = c.execute_tick(now);
                let sum: u64 = healed + n as u64;
                healed = if sum <= 0xFFFF_FFFF {
                    sum
                } else {
                    0xFFFF_FFFF
                };
                left.push(c);
                assert(before.push(start[i as int]).drop_last() =~= before);
                assert(left@ =~= ticked_all(before.push(start[i as int]), now));
            }
            i = i + 1;
        }
        assert(start.take(start.len() as int) =~= start);
        self.conditions = left;
        if healed > 0 {
            let sum: u64 = self.health as u64 + healed;
            self.health = if sum >= self.max_health as u64 {
                self.max_health
            } else {
                sum as u32
            };
        }
        healed > 0
    }
}

impl Game {
    fn recover_player(&mut self, id: u32, now_ms: u64)
        requires
            old(self).wf(),
        ensures
            final(self).wf(),
            final(self)@ == old(self)@.player_recovered(id, now_ms),
    {
        proof {
            if self@.players.has(id) {
                lemma_set_player(self@, id, self@.players.at(id).recovered(now_ms));
            }
        }
        let stats = match self.players.get_mut(id) {
            Some(p) => {
                if p.recover(now_ms) {
                    Some(Stats::new(p.health, p.max_health, p.speed))
                } else {
                    None
                }
            },
            None => None,
        };
        match stats {
            Some(stats) => self.push(id, Packet::Stats { stats }),
            None => {},
        }
    }

    /// The regeneration tick: conditions that have run out end, and the others heal.
    pub fn on_regen_tick(&mut self, now_ms: u64)
        requires
            old(self).wf(),
        ensures
            final(self).wf(),
            final(self)@ == old(self)@.all_recovered(old(self)@.players.order, now_ms),
    {
        let ids = self.players.ids();
        let mut i: usize = 0;
        assert(ids@.skip(0) =~= ids@);
        while i < ids.len()
            invariant
                i <= ids@.len(),
                self.wf(),
                old(self)@.all_recovered(ids@, now_ms) == self@.all_recovered(
                    ids@.skip(i as int),
                    now_ms,
                ),
            decreases ids@.len() - i,
        {
            assert(ids@.skip(i as int).drop_first() =~= ids@.skip(i + 1));
            self.recover_player(ids[i], now_ms);
            i = i + 1;
        }
    }

    fn add_spawn(&mut self, s: &MonsterSpawn)
        requires
            old(self).wf(),
            old(self)@.ids_left(1),
        ensures
            final(self).wf(),
            final(self)@ == old(self)@.spawn_added(s@),
    {
        let key = to_ascii_lowercase(s.kind.name.as_str());
        let (kind, at) = match self.monster_types.get(key.as_str()) {
            Some(t) => (t.copy(), None),
            None => (s.kind.copy(), s.respawn_at_ms),
        };
        let sid: u32 = self.next_spawn_id;
        let m = MonsterState::born(&kind, s.position, Some(sid));
        let entry = MonsterSpawn {
            position: s.position,
            respawn_interval_ms: s.respawn_interval_ms,
            respawn_at_ms: at,
            kind,
        };
        proof {
            assert(!self@.spawns.has(sid));
            law_add_last(self@.spawns, sid, entry@);
        }
        self.next_spawn_id = sid + 1;
        self.spawns.insert(sid, entry);
        self.add_monster(m);
    }

    /// Set up spawns, each with its first monster.
    pub fn add_spawns(&mut self, entries: &Vec<MonsterSpawn>)
        requires
            old(self).wf(),
            old(self)@.ids_left(entries@.len()),
        ensures
            final(self).wf(),
            final(self)@ == old(self)@.spawns_added(spawns_view(entries@)),
    {
        let ghost all = spawns_view(entries@);
        let mut i: usize = 0;
        while i < entries.len()
            invariant
                i <= entries@.len(),
                all == spawns_view(entries@),
                self.wf(),
                self@.ids_left((entries@.len() - i) as nat),
                self@ == old(self)@.spawns_added(all.take(i as int)),
            decreases entries@.len() - i,
        {
            assert(all.take(i + 1).drop_last() =~= all.take(i as int));
            assert(all.take(i + 1).last() == entries@[i as int]@);
            self.add_spawn(&entries[i]);
            i = i + 1;
        }
        assert(all.take(entries@.len() as int) =~= all);
    }

    /// Set up the spawns that a document describes. Nothing changes where it is no such
    /// document, nor, which the result then says, where there are not enough ids for them.
    pub fn load_spawns(&mut self, xml: &str) -> (r: Result<bool, FormatError>)
        requires
            old(self).wf(),
        ensures
            final(self).wf(),
            final(self)@ == old(self)@.peopled(document_nodes(xml@)),
            loading_view(r) == old(self)@.loading(document_nodes(xml@)),
    {
        let entries = match parse_spawns_xml(xml) {
            Ok(e) => e,
            Err(e) => {
                return Err(e);
            },
        };
        let n: usize = entries.len();
        if n > 0xFFFF_FFFF || self.next_spawn_id > 0xFFFF_FFFF - n as u32 || self.next_monster_id
            > 0xFFFF_FFFF - n as u32 {
            return Ok(false);
        }
        self.add_spawns(&entries);
        Ok(true)
    }
}

} // verus!
