//! Login, logout and what is kept of players who leave.

use std::collections::HashSet;
use std::collections::VecDeque;
use vstd::prelude::*;
use vstd::string::StringExecFns;

use super::left_view;
use super::model::container_rows;
use super::model::inventory_rows;
use super::model::item_rows;
use super::model::law_depart;
use super::model::law_logout;
use super::model::law_push;
use super::model::lemma_only_told_wf;
use super::model::lemma_set_player;
use super::model::puff;
use super::model::record;
use super::model::root_of;
use super::model::rows_of_first;
use super::model::World;
use super::restore::bags;
use super::restore::equipment;
use super::restore::restore_containers;
use super::restore::restore_inventory;
use super::restore::window_row;
use super::state::rows_view;
use super::state::windows_view;
use super::state::ContainerSource;
use super::state::InitialState;
use super::state::InvItem;
use super::state::LoginAck;
use super::state::OpenContainer;
use super::state::PlayerModel;
use super::state::PlayerSnapshot;
use super::state::PlayerState;
use super::state::RaceType;
use super::state::SaveRecord;
use super::Game;
use crate::map::grid::StaticMap;
use crate::outfit_catalog::catalog_for_sex;
use crate::outfit_catalog::CatalogEntry;
use crate::outfit_catalog::FEMALE;
use crate::outfit_catalog::MALE;
use crate::registry::law_add_last;
use crate::registry::law_set;
use crate::registry::law_without;
use crate::text::to_decimal;
use crate::wire::placed_view;
use crate::wire::AvailableOutfit;
use crate::wire::CreatureModel;
use crate::wire::CreatureThing;
use crate::wire::Effect;
use crate::wire::Outfit;
use crate::wire::Packet;
use crate::wire::PacketModel;
use crate::wire::PlacedCreature;
use crate::wire::PlacedModel;
use crate::wire::Session;
use crate::wire::SessionModel;
use crate::Position;

verus! {

broadcast use vstd::std_specs::hash::group_hash_axioms;

fn export_inventory(inventory: &[Option<InvItem>; 10]) -> (rows: Vec<(u8, u16, u8)>)
    ensures
        rows@ == inventory_rows(inventory@),
{
    let mut rows: Vec<(u8, u16, u8)> = Vec::new();
    let mut i: usize = 0;
    while i < 10
        invariant
            i <= 10,
            rows@ == inventory_rows(inventory@.take(i as int)),
        decreases 10 - i,
    {
        assert(inventory@.take(i + 1).drop_last() =~= inventory@.take(i as int));
        match inventory[i] {
            Some(it) => {
                let count: u8 = match it.count {
                    Some(n) => n,
                    None => 1,
                };
                rows.push((i as u8 + 1, it.server_id, count));
            },
            None => {},
        }
        i = i + 1;
    }
    assert(inventory@.take(10) =~= inventory@);
    rows
}

/// The inventory slot that the container of window `c` lies in, and the path to its items.
fn find_root(open_containers: &[Option<OpenContainer>; 16], c: usize, depth: usize) -> (r: Option<
    (u8, String),
>)
    requires
        c < 16,
    ensures
        match r {
            Some((s, prefix)) => root_of(windows_view(open_containers@), c as int, depth as nat)
                == Some((s, prefix@)),
            None => root_of(windows_view(open_containers@), c as int, depth as nat) is None,
        },
    decreases depth,
{
    let ghost all = windows_view(open_containers@);
    match &open_containers[c] {
        Some(oc) => match oc.source {
            ContainerSource::Slot(s) => if s >= 1 {
                let none = String::new();
                assert(none@ =~= Seq::empty());
                Some((s, none))
            } else {
                None
            },
            ContainerSource::Nested { parent_cid, parent_slot } => {
                if depth > 0 && parent_cid < 16 {
                    match find_root(open_containers, parent_cid as usize, depth - 1) {
                        Some((s, prefix)) => {
                            let mut place = to_decimal(parent_slot as u64);
                            place.push('/');
                            Some((s, prefix.concat(place.as_str())))
                        },
                        None => None,
                    }
                } else {
                    None
                }
            },
            ContainerSource::Ground(_) => None,
        },
        None => None,
    }
}

/// The contents of all containers that lie in inventory slots, and inside those, as they are
/// saved.
pub fn export_container_items(
    open_containers: &[Option<OpenContainer>; 16],
) -> (rows: Vec<(u8, String, u16, u8)>)
    ensures
        rows_view(rows@) == container_rows(windows_view(open_containers@)),
{
    let ghost all = windows_view(open_containers@);
    let mut rows: Vec<(u8, String, u16, u8)> = Vec::new();
    assert(rows_view(rows@) =~= Seq::empty());
    let mut c: usize = 0;
    while c < 16
        invariant
            c <= 16,
            all == windows_view(open_containers@),
            rows_view(rows@) == rows_of_first(all, c as int),
        decreases 16 - c,
    {
        match find_root(open_containers, c, 16) {
            Some((s, prefix)) => match &open_containers[c] {
                Some(oc) => {
                    let ghost base = rows_view(rows@);
                    let ghost more = item_rows(s, prefix@, oc.items@);
                    let mut i: usize = 0;
                    assert(base =~= base + more.take(0));
                    while i < oc.items.len()
                        invariant
                            i <= oc.items@.len(),
                            more == item_rows(s, prefix@, oc.items@),
                            rows_view(rows@) == base + more.take(i as int),
                        decreases oc.items@.len() - i,
                    {
                        let it = oc.items[i];
                        let count: u8 = match it.count {
                            Some(n) => n,
                            None => 1,
                        };
                        let ghost before = rows@;
                        let path = prefix.clone().concat(to_decimal(i as u64).as_str());
                        rows.push((s, path, it.server_id, count));
                        assert(rows_view(rows@) =~= rows_view(before).push(more[i as int]));
                        assert(more.take(i + 1) =~= more.take(i as int).push(more[i as int]));
                        assert(rows_view(rows@) =~= base + more.take(i + 1));
                        i = i + 1;
                    }
                    assert(more.take(more.len() as int) =~= more);
                },
                None => {},
            },
            None => {},
        }
        c = c + 1;
    }
    rows
}

impl PlayerState {
    /// What is saved of this player.
    pub fn save_record(&self) -> (r: SaveRecord)
        ensures
            r@ == record(self@),
    {
        SaveRecord {
            name: self.name.clone(),
            position: self.position,
            direction: self.direction,
            outfit: self.outfit,
            health: self.health,
            max_health: self.max_health,
            sex: self.sex,
            inventory: export_inventory(&self.inventory),
            container_items: export_container_items(&self.open_containers),
        }
    }
}

impl Game {
    /// Keep a record, where records are kept.
    pub fn keep_record(&mut self, r: SaveRecord)
        requires
            old(self).wf(),
        ensures
            final(self).wf(),
            final(self)@ == old(self)@.saved(r@),
    {
        match &mut self.saves {
            Some(v) => {
                let ghost before = v@;
                v.push(r);
                assert(v@.map_values(|r: SaveRecord| r@) =~= before.map_values(
                    |r: SaveRecord| r@,
                ).push(r@));
            },
            None => {},
        }
        assert(self@ =~= old(self)@.saved(r@));
    }

    /// Best-effort message to a session. Where its queue is full or its other end gone, the
    /// player is logged out, so that the game never waits and memory never grows unbounded.
    pub fn push(&mut self, id: u32, packet: Packet)
        requires
            old(self).wf(),
        ensures
            final(self).wf(),
            final(self)@ == old(self)@.push(id, packet@),
            old(self)@.only_told(final(self)@),
        decreases old(self)@.players.count(), 1nat,
    {
        proof {
            law_push(self@, id, packet@);
            lemma_only_told_wf(self@, self@.push(id, packet@));
        }
        let dead = match self.players.get_mut(id) {
            Some(p) => !p.session.try_send(packet),
            None => {
                return;
            },
        };
        if dead {
            assert(self@ =~= old(self)@);
            self.logout(id);
        }
    }

    /// Player `id`'s client is told nothing more of `gone` until it is introduced again.
    pub fn forget(&mut self, id: u32, gone: u32)
        requires
            old(self).wf(),
        ensures
            final(self).wf(),
            final(self)@ == old(self)@.forget(id, gone),
    {
        proof {
            if self.players@.has(id) {
                law_set(
                    self.players@,
                    id,
                    PlayerModel {
                        known: self.players@.at(id).known.remove(gone),
                        ..self.players@.at(id)
                    },
                );
            }
        }
        match self.players.get_mut(id) {
            Some(p) => {
                p.known.remove(&gone);
            },
            None => {},
        }
    }

    /// Take a player out of the game. Its session stays until its messages are fetched.
    pub fn remove_player(&mut self, id: u32)
        requires
            old(self).wf(),
        ensures
            final(self).wf(),
            final(self)@ == old(self)@.removed(id),
            final(self)@.players.count() == old(self)@.players.count() - (if old(
                self,
            )@.players.has(id) {
                1int
            } else {
                0
            }),
    {
        proof {
            law_without(self@.players, id);
        }
        match self.players.remove(id) {
            Some(p) => {
                let ghost before = self.left@;
                self.left.push((id, p.session));
                assert(left_view(self.left@) =~= left_view(before).push((id, p.session@)));
            },
            None => {},
        }
        assert(self@ =~= old(self)@.removed(id));
    }

    /// Fetch the sessions of players who left.
    pub fn take_left(&mut self) -> (r: Vec<(u32, Session)>)
        requires
            old(self).wf(),
        ensures
            final(self).wf(),
            left_view(r@) == old(self)@.left,
            final(self)@ == (World { left: Seq::empty(), ..old(self)@ }),
    {
        let mut r: Vec<(u32, Session)> = Vec::new();
        std::mem::swap(&mut r, &mut self.left);
        assert(left_view(self.left@) =~= Seq::empty());
        r
    }

    /// Remove a player from the game: keep a record, and show everyone who saw the player a
    /// puff and the removal.
    pub fn logout(&mut self, id: u32)
        requires
            old(self).wf(),
        ensures
            final(self).wf(),
            final(self)@ == old(self)@.logout(id),
        decreases old(self)@.players.count(), 0nat,
    {
        proof {
            law_logout(self@, id);
        }
        let (pos, r) = match self.players.get(id) {
            Some(p) => (p.position, p.save_record()),
            None => {
                return;
            },
        };
        let ids = self.spectators(pos, id);
        self.remove_player(id);
        self.keep_record(r);
        assert(self@ =~= old(self)@.parted(id));
        let ghost start = self@;
        let mut i: usize = 0;
        assert(ids@.skip(0) =~= ids@);
        while i < ids.len()
            invariant
                i <= ids@.len(),
                self.wf(),
                self@.players.count() < old(self)@.players.count(),
                start.depart(ids@, pos, id) == self@.depart(ids@.skip(i as int), pos, id),
            decreases ids@.len() - i,
        {
            proof {
                law_depart(self@, ids@.skip(i as int), pos, id);
                assert(ids@.skip(i as int).drop_first() =~= ids@.skip(i + 1));
                law_push(self@, ids@[i as int], puff(pos));
            }
            let ghost before = self@;
            let s = ids[i];
            self.push(s, Packet::MagicEffect { position: pos, effect: Effect::Teleport });
            proof {
                law_push(self@, s, PacketModel::RemoveCreature { id });
            }
            self.push(s, Packet::RemoveCreature { id });
            self.forget(s, id);
            i = i + 1;
        }
        proof {
            law_depart(self@, ids@.skip(i as int), pos, id);
        }
    }
}

/// A player as it enters the game.
pub open spec fn newcomer(
    map: StaticMap,
    name: Seq<char>,
    position: Position,
    initial: InitialState,
    session: SessionModel,
) -> PlayerModel {
    let inventory = equipment(map, initial.inventory@);
    PlayerModel {
        name,
        position,
        direction: initial.direction,
        outfit: initial.outfit,
        session,
        known: Set::empty(),
        health: initial.health,
        max_health: initial.max_health,
        max_melee: initial.max_melee,
        attacking: None,
        last_attack_ms: 0,
        sex: initial.sex,
        gamemaster: initial.gamemaster,
        race: RaceType::Blood,
        is_ghost: false,
        prev_outfit: None,
        noclip: false,
        speed: 220,
        inventory,
        windows: window_row(bags(map, inventory, rows_view(initial.container_items@), 10)),
        follow_target: None,
        go_to_position: None,
        failed_repaths: None,
        walk: Seq::empty(),
        last_walk_ms: 0,
        conditions: Seq::empty(),
    }
}

impl World {
    /// Where a player enters the game: where it was, or at the spawn point, or on the nearest
    /// free tile.
    pub open spec fn arrival(self, initial: InitialState) -> Position {
        match initial.position {
            Some(p) => self.free_near(p, self.next_id),
            None => self.free_near(self.map.spawn_point(), u32::MAX),
        }
    }

    /// A new player, under the next id.
    pub open spec fn player_added(self, p: PlayerModel) -> World {
        World {
            players: self.players.add_last(self.next_id, p),
            next_id: (self.next_id + 1) as u32,
            ..self
        }
    }

    /// `id`, new at `pos`, and `other` are shown to each other, the former with a puff. Ghosts
    /// are shown to gamemasters only.
    pub open spec fn met(self, id: u32, other: u32, pos: Position) -> World {
        let w = if self.may_see(id, other) {
            self.introduced(id, other)
        } else {
            self
        };
        if w.can_introduce(other, id) {
            let u = w.introduced(other, id);
            u.push(
                other,
                PacketModel::AddTileCreature {
                    position: pos,
                    stackpos: u.stackpos_on(pos, id),
                    creature: w.shown(other, id),
                },
            ).push(other, puff(pos))
        } else {
            w
        }
    }

    /// `id`, new at `pos`, meets each of `others` in turn.
    pub open spec fn all_met(self, id: u32, others: Seq<u32>, pos: Position) -> World
        decreases others.len(),
    {
        if others.len() == 0 {
            self
        } else {
            self.all_met(id, others.drop_last(), pos).met(id, others.last(), pos)
        }
    }

    /// What `id` is shown of `other`, added to what it was shown before.
    pub open spec fn with_sight(self, id: u32, other: u32, seen: Seq<PlacedModel>) -> Seq<
        PlacedModel,
    > {
        if self.can_introduce(id, other) {
            seen.push(
                PlacedModel {
                    position: self.creature_position(other)->0,
                    creature: self.shown(id, other),
                },
            )
        } else {
            seen
        }
    }

    /// What `id` is shown of `others` while it meets them.
    pub open spec fn met_sights(self, id: u32, others: Seq<u32>, pos: Position) -> Seq<PlacedModel>
        decreases others.len(),
    {
        if others.len() == 0 {
            Seq::empty()
        } else {
            let w = self.all_met(id, others.drop_last(), pos);
            let before = self.met_sights(id, others.drop_last(), pos);
            if w.may_see(id, others.last()) {
                w.with_sight(id, others.last(), before)
            } else {
                before
            }
        }
    }

    /// `id` is shown each of `others`.
    pub open spec fn all_seen(self, id: u32, others: Seq<u32>) -> World
        decreases others.len(),
    {
        if others.len() == 0 {
            self
        } else {
            self.all_seen(id, others.drop_last()).introduced(id, others.last())
        }
    }

    /// What `id` is shown of `others`.
    pub open spec fn sights(self, id: u32, others: Seq<u32>) -> Seq<PlacedModel>
        decreases others.len(),
    {
        if others.len() == 0 {
            Seq::empty()
        } else {
            self.all_seen(id, others.drop_last()).with_sight(
                id,
                others.last(),
                self.sights(id, others.drop_last()),
            )
        }
    }

    /// The game with the new player in it, before it has met anyone.
    pub open spec fn entered(self, name: Seq<char>, initial: InitialState, session: SessionModel) -> World {
        self.player_added(newcomer(self.map, name, self.arrival(initial), initial, session))
    }

    /// Those who see the new player arrive.
    pub open spec fn greeters(self, initial: InitialState) -> Seq<u32> {
        self.spectators(self.arrival(initial), self.next_id)
    }

    /// The game after the new player has met those who see it arrive.
    pub open spec fn welcomed(self, name: Seq<char>, initial: InitialState, session: SessionModel) -> World {
        self.entered(name, initial, session).all_met(
            self.next_id,
            self.greeters(initial),
            self.arrival(initial),
        )
    }

    /// A player enters the game.
    #[verifier::opaque]
    pub open spec fn logged_in(self, name: Seq<char>, initial: InitialState, session: SessionModel) -> World {
        let w = self.welcomed(name, initial, session);
        w.all_seen(self.next_id, w.monsters_visible_from(self.arrival(initial)))
    }

    /// The creatures that a player who enters the game is shown.
    #[verifier::opaque]
    pub open spec fn login_sights(self, name: Seq<char>, initial: InitialState, session: SessionModel) -> Seq<
        PlacedModel,
    > {
        let w = self.welcomed(name, initial, session);
        self.entered(name, initial, session).met_sights(
            self.next_id,
            self.greeters(initial),
            self.arrival(initial),
        ) + w.sights(self.next_id, w.monsters_visible_from(self.arrival(initial)))
    }

    /// A player who enters the game as its own client is shown it.
    pub open spec fn own_look(self, name: Seq<char>, initial: InitialState) -> PlacedModel {
        PlacedModel {
            position: self.arrival(initial),
            creature: CreatureModel {
                known: false,
                id: self.next_id,
                name,
                health_percent: 100,
                direction: initial.direction.byte(),
                outfit: initial.outfit,
                speed: 220,
                creature_type: 0,
                walkthrough: 0,
            },
        }
    }

    /// A record of everyone, where records are kept.
    pub open spec fn all_saved(self) -> World {
        World {
            saves: match self.saves {
                Some(s) => Some(
                    s + self.players.order.map_values(|id: u32| record(self.players.at(id))),
                ),
                None => None,
            },
            ..self
        }
    }

    /// Player `id` wears `outfit`, and everyone who sees it is told.
    #[verifier::opaque]
    pub open spec fn dressed(self, id: u32, outfit: Outfit) -> World {
        if self.players.has(id) {
            let p = PacketModel::CreatureOutfit { id, outfit };
            let w = self.set_player(id, PlayerModel { outfit, ..self.players.at(id) }).push(id, p);
            w.push_all(w.spectators(self.players.at(id).position, id), p)
        } else {
            self
        }
    }

    /// Player `id` is shown the outfits it may choose.
    #[verifier::opaque]
    pub open spec fn wardrobe_told(self, id: u32) -> World {
        if self.players.has(id) {
            self.push(
                id,
                PacketModel::OutfitWindow {
                    outfit: self.players.at(id).outfit,
                    available: wardrobe(self.players.at(id).sex),
                },
            )
        } else {
            self
        }
    }
}

/// The outfits that a player may choose: all of its sex, with both addons.
pub open spec fn wardrobe(sex: u8) -> Seq<AvailableOutfit> {
    (if sex == 0 {
        FEMALE@
    } else {
        MALE@
    }).map_values(|e: CatalogEntry| AvailableOutfit { look_type: e.0, name: e.1, addons: 3 })
}

impl Game {
    /// A player enters the game: on its saved tile, or the nearest free one. Those who see it
    /// arrive are shown it with a puff. The result says who the player is, which creatures it
    /// sees, and how it sees itself: in full, without counting as known to its client.
    pub fn login(&mut self, name: String, initial: InitialState, session: Session) -> (ack: LoginAck)
        requires
            old(self).wf(),
            old(self)@.next_id < u32::MAX,
        ensures
            final(self).wf(),
            final(self)@ == old(self)@.logged_in(name@, initial, session@),
            ack.snapshot == (PlayerSnapshot {
                id: old(self)@.next_id,
                position: old(self)@.arrival(initial),
                direction: initial.direction,
                outfit: initial.outfit,
                health: initial.health,
                max_health: initial.max_health,
            }),
            placed_view(ack.others@) == old(self)@.login_sights(name@, initial, session@),
            ack.me@ == old(self)@.own_look(name@, initial),
    {
        proof {
            reveal(World::login_sights);
        }
        proof {
            reveal(World::logged_in);
        }
        let id: u32 = self.next_id;
        let own_name = name.clone();
        let position = match initial.position {
            Some(saved) => self.free_spawn_near(saved, id),
            None => self.free_spawn(),
        };
        let others = self.spectators(position, id);
        let inventory = restore_inventory(&self.map, &initial.inventory);
        let windows = restore_containers(&initial.container_items, &inventory, &self.map);
        let p = PlayerState {
            name,
            position,
            direction: initial.direction,
            outfit: initial.outfit,
            session,
            known: HashSet::new(),
            health: initial.health,
            max_health: initial.max_health,
            max_melee: initial.max_melee,
            attacking: None,
            last_attack_ms: 0,
            sex: initial.sex,
            gamemaster: initial.gamemaster,
            race: RaceType::Blood,
            is_ghost: false,
            prev_outfit: None,
            noclip: false,
            speed: 220,
            inventory,
            open_containers: windows,
            follow_target: None,
            go_to_position: None,
            failed_repaths: None,
            list_walk_dir: VecDeque::new(),
            last_walk_ms: 0,
            conditions: Vec::new(),
        };
        assert(p@ =~= newcomer(self.map, name@, position, initial, session@));
        self.add_player(p);
        let mut shown: Vec<PlacedCreature> = Vec::new();
        self.meet_all(id, &others, position, &mut shown);
        let mids = self.monsters_visible_from(position);
        self.see_all(id, &mids, &mut shown);
        LoginAck {
            snapshot: PlayerSnapshot {
                id,
                position,
                direction: initial.direction,
                outfit: initial.outfit,
                health: initial.health,
                max_health: initial.max_health,
            },
            others: shown,
            me: PlacedCreature {
                position,
                creature: CreatureThing {
                    known: false,
                    id,
                    name: own_name,
                    health_percent: 100,
                    direction: initial.direction.to_byte(),
                    outfit: initial.outfit,
                    speed: 220,
                    creature_type: 0,
                    walkthrough: 0,
                },
            },
        }
    }

    /// Add a player under the next id.
    fn add_player(&mut self, p: PlayerState)
        requires
            old(self).wf(),
            old(self)@.next_id < u32::MAX,
            p@.wf(),
        ensures
            final(self).wf(),
            final(self)@ == old(self)@.player_added(p@),
    {
        let id: u32 = self.next_id;
        proof {
            assert(!self@.players.has(id));
            law_add_last(self@.players, id, p@);
        }
        self.next_id = id + 1;
        self.players.insert(id, p);
    }

    fn can_show(&self, viewer: u32, target: u32) -> (r: bool)
        requires
            self.wf(),
        ensures
            r == self@.may_see(viewer, target),
    {
        match self.players.get(target) {
            Some(t) => !t.is_ghost || match self.players.get(viewer) {
                Some(v) => v.gamemaster,
                None => false,
            },
            None => true,
        }
    }

    fn add_sight(&mut self, id: u32, other: u32, shown: &mut Vec<PlacedCreature>)
        requires
            old(self).wf(),
        ensures
            final(self).wf(),
            final(self)@ == old(self)@.introduced(id, other),
            placed_view(final(shown)@) == old(self)@.with_sight(
                id,
                other,
                placed_view(old(shown)@),
            ),
    {
        let at = self.creature_position(other);
        match self.introduce(id, other) {
            Some(creature) => match at {
                Some(position) => {
                    let c = PlacedCreature { position, creature };
                    shown.push(c);
                    assert(placed_view(shown@) =~= placed_view(old(shown)@).push(c@));
                },
                None => {},
            },
            None => {},
        }
    }

    fn meet_all(
        &mut self,
        id: u32,
        others: &Vec<u32>,
        pos: Position,
        shown: &mut Vec<PlacedCreature>,
    )
        requires
            old(self).wf(),
            old(shown)@.len() == 0,
        ensures
            final(self).wf(),
            final(self)@ == old(self)@.all_met(id, others@, pos),
            placed_view(final(shown)@) == old(self)@.met_sights(id, others@, pos),
    {
        let mut i: usize = 0;
        assert(placed_view(shown@) =~= Seq::empty());
        while i < others.len()
            invariant
                i <= others@.len(),
                self.wf(),
                self@ == old(self)@.all_met(id, others@.take(i as int), pos),
                placed_view(shown@) == old(self)@.met_sights(id, others@.take(i as int), pos),
            decreases others@.len() - i,
        {
            assert(others@.take(i + 1).drop_last() =~= others@.take(i as int));
            let other: u32 = others[i];
            if self.can_show(id, other) {
                self.add_sight(id, other, shown);
            }
            match self.introduce(other, id) {
                Some(creature) => {
                    let stackpos: u8 = self.creature_stackpos_on(pos, id);
                    self.push(other, Packet::AddTileCreature { position: pos, stackpos, creature });
                    self.push(other, Packet::MagicEffect { position: pos, effect: Effect::Teleport });
                },
                None => {},
            }
            i = i + 1;
        }
        assert(others@.take(others@.len() as int) =~= others@);
    }

    pub fn see_all(&mut self, id: u32, others: &Vec<u32>, shown: &mut Vec<PlacedCreature>)
        requires
            old(self).wf(),
        ensures
            final(self).wf(),
            final(self)@ == old(self)@.all_seen(id, others@),
            placed_view(final(shown)@) == placed_view(old(shown)@) + old(self)@.sights(id, others@),
    {
        let ghost base = placed_view(shown@);
        let mut i: usize = 0;
        assert(base + old(self)@.sights(id, others@.take(0)) =~= base);
        while i < others.len()
            invariant
                i <= others@.len(),
                self.wf(),
                self@ == old(self)@.all_seen(id, others@.take(i as int)),
                placed_view(shown@) == base + old(self)@.sights(id, others@.take(i as int)),
            decreases others@.len() - i,
        {
            assert(others@.take(i + 1).drop_last() =~= others@.take(i as int));
            let ghost before = old(self)@.sights(id, others@.take(i as int));
            self.add_sight(id, others[i], shown);
            assert(placed_view(shown@) =~= base + old(self)@.sights(id, others@.take(i + 1)));
            i = i + 1;
        }
        assert(others@.take(others@.len() as int) =~= others@);
    }

    /// Keep a record of everyone, without anyone leaving. For an orderly end of the game.
    pub fn save_all(&mut self)
        requires
            old(self).wf(),
        ensures
            final(self).wf(),
            final(self)@ == old(self)@.all_saved(),
    {
        let ghost start = self@;
        let ghost f = |id: u32| record(start.players.at(id));
        let ghost order = start.players.order;
        match &self.saves {
            Some(_) => {},
            None => {
                return;
            },
        }
        let mut i: usize = 0;
        assert(start.saves->0 + order.take(0).map_values(f) =~= start.saves->0);
        while i < self.players.len()
            invariant
                i <= order.len(),
                self.wf(),
                start == old(self)@,
                order == start.players.order,
                f == (|id: u32| record(start.players.at(id))),
                start.saves is Some,
                self@.saves == Some(start.saves->0 + order.take(i as int).map_values(f)),
                self@ == (World { saves: self@.saves, ..start }),
            decreases order.len() - i,
        {
            let r = self.players.entry_at(i).save_record();
            let ghost before = self@.saves->0;
            self.keep_record(r);
            assert(self@.saves->0 =~= before.push(f(order[i as int])));
            assert(order.take(i + 1).map_values(f) =~= order.take(i as int).map_values(f).push(
                f(order[i as int]),
            ));
            assert(self@.saves->0 =~= start.saves->0 + order.take(i + 1).map_values(f));
            i = i + 1;
        }
        assert(order.take(order.len() as int) =~= order);
    }

    /// Let player `id` wear `outfit` and tell everyone who sees it.
    pub fn do_change_outfit(&mut self, id: u32, outfit: Outfit)
        requires
            old(self).wf(),
        ensures
            final(self).wf(),
            final(self)@ == old(self)@.dressed(id, outfit),
    {
        proof {
            reveal(World::dressed);
        }
        proof {
            if self@.players.has(id) {
                lemma_set_player(self@, id, PlayerModel { outfit, ..self@.players.at(id) });
            }
        }
        let pos = match self.players.get_mut(id) {
            Some(p) => {
                p.outfit = outfit;
                p.position
            },
            None => {
                return;
            },
        };
        self.push(id, Packet::CreatureOutfit { id, outfit });
        let ids = self.spectators(pos, id);
        self.push_all(&ids, &Packet::CreatureOutfit { id, outfit });
    }

    /// Show player `id` the outfits of its sex.
    pub fn do_request_outfit(&mut self, id: u32)
        requires
            old(self).wf(),
        ensures
            final(self).wf(),
            final(self)@ == old(self)@.wardrobe_told(id),
    {
        proof {
            reveal(World::wardrobe_told);
        }
        let (outfit, sex) = match self.players.get(id) {
            Some(p) => (p.outfit, p.sex),
            None => {
                return;
            },
        };
        let catalog = catalog_for_sex(sex);
        let mut available: Vec<AvailableOutfit> = Vec::new();
        let mut i: usize = 0;
        while i < catalog.len()
            invariant
                i <= catalog@.len(),
                catalog@ == (if sex == 0 {
                    FEMALE@
                } else {
                    MALE@
                }),
                available@ == wardrobe(sex).take(i as int),
            decreases catalog@.len() - i,
        {
            let (look_type, name) = catalog[i];
            available.push(AvailableOutfit { look_type, name, addons: 3 });
            assert(available@ =~= wardrobe(sex).take(i + 1));
            i = i + 1;
        }
        assert(wardrobe(sex).take(catalog@.len() as int) =~= wardrobe(sex));
        self.push(id, Packet::OutfitWindow { outfit, available });
    }
}

} // verus!
