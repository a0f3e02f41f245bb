//! Creatures that walk by themselves: monsters that chase, players who follow someone or
//! walk to a place. The search for a way comes from whoever runs the game: a [`PathQuery`]
//! says what to look for, and the way that was found decides how they go on.

use std::collections::VecDeque;
use vstd::prelude::*;

use super::model::lemma_set_monster;
use super::model::lemma_set_player;
use super::model::sees;
use super::model::World;
use super::state::MonsterModel;
use super::state::PlayerModel;
use super::step_interval;
use super::step_time;
use super::windows::close;
use super::windows::in_close_range;
use super::Game;
use crate::map::grid::StaticMap;
use crate::registry::lemma_filter_step;
use crate::Direction;
use crate::Position;

verus! {

/// How often in a row the search for a way fails before a player gives up.
pub const MAX_FAILED_SEARCHES: u32 = 3;

/// How far a search for a way reaches.
pub const MAX_SEARCH_DISTANCE: u32 = 20;

/// How to look for a way.
#[derive(Debug, Clone, Copy, PartialEq, Eq, Structural)]
pub struct FindPathParams {
    /// Go on until the best way is known, not just one.
    pub full_search: bool,
    /// The end must be in sight of the target.
    pub clear_sight: bool,
    pub max_search_dist: u32,
}

/// A way to look for: from `start` to a tile at most `reach` columns and rows from `target`.
#[derive(Debug)]
pub struct PathQuery {
    pub start: Position,
    pub target: Position,
    /// Where other creatures stand on the floor.
    pub creatures: Vec<Position>,
    pub reach: u32,
    pub params: FindPathParams,
}

/// How creatures that walk by themselves look for a way.
pub open spec fn usual_search() -> FindPathParams {
    FindPathParams {
        full_search: false,
        clear_sight: false,
        max_search_dist: MAX_SEARCH_DISTANCE,
    }
}

#[verifier::ext_equal]
pub ghost struct QueryModel {
    pub start: Position,
    pub target: Position,
    pub creatures: Seq<Position>,
    pub reach: u32,
    pub params: FindPathParams,
}

impl View for PathQuery {
    type V = QueryModel;

    open spec fn view(&self) -> QueryModel {
        QueryModel {
            start: self.start,
            target: self.target,
            creatures: self.creatures@,
            reach: self.reach,
            params: self.params,
        }
    }
}

/// What a creature that walks by itself does next.
#[derive(Debug)]
pub enum Plan {
    /// Nothing.
    Idle,
    /// The next of the steps it knows.
    Walk,
    /// It needs a way first.
    Search { query: PathQuery },
}

#[verifier::ext_equal]
pub ghost enum PlanModel {
    Idle,
    Walk,
    Search { query: QueryModel },
}

impl View for Plan {
    type V = PlanModel;

    open spec fn view(&self) -> PlanModel {
        match *self {
            Plan::Idle => PlanModel::Idle,
            Plan::Walk => PlanModel::Walk,
            Plan::Search { query } => PlanModel::Search { query: query@ },
        }
    }
}

/// A query that may be needed, by its view.
pub open spec fn query_view(q: Option<PathQuery>) -> Option<QueryModel> {
    match q {
        Some(x) => Some(x@),
        None => None,
    }
}

/// The way that a plan asks for.
pub open spec fn wanted(plan: PlanModel) -> Option<QueryModel> {
    match plan {
        PlanModel::Search { query } => Some(query),
        _ => None,
    }
}

/// `way` is what `search` may answer to `query` on `map`; where nothing is asked it is empty.
pub open spec fn answers<F: Fn(&StaticMap, &PathQuery) -> VecDeque<Direction>>(
    search: F,
    map: StaticMap,
    query: Option<QueryModel>,
    way: Seq<Direction>,
) -> bool {
    match query {
        Some(asked) => exists|q: PathQuery, v: VecDeque<Direction>|
            q@ == asked && v@ == way && #[trigger] call_ensures(search, (&map, &q), v),
        None => way.len() == 0,
    }
}

/// The end of a walk of `steps` from `start`; `None` where it leaves the map.
pub open spec fn walk_end(start: Position, steps: Seq<Direction>) -> Option<Position>
    decreases steps.len(),
{
    if steps.len() == 0 {
        Some(start)
    } else {
        match walk_end(start, steps.drop_last()) {
            Some(p) => p.shifted(steps.last().dx(), steps.last().dy()),
            None => None,
        }
    }
}

/// The end of a walk of `steps` from `start`; `None` where it leaves the map.
pub fn walk_destination(start: Position, steps: &Vec<Direction>) -> (r: Option<Position>)
    ensures
        r == walk_end(start, steps@),
{
    let mut at = start;
    let mut i: usize = 0;
    while i < steps.len()
        invariant
            i <= steps@.len(),
            Some(at) == walk_end(start, steps@.take(i as int)),
        decreases steps@.len() - i,
    {
        assert(steps@.take(i + 1).drop_last() =~= steps@.take(i as int));
        let (dx, dy) = steps[i].delta();
        match at.offset(dx, dy) {
            Some(p) => {
                at = p;
            },
            None => {
                proof {
                    lemma_walk_ends(start, steps@, i + 1);
                }
                return None;
            },
        }
        i = i + 1;
    }
    assert(steps@.take(steps@.len() as int) =~= steps@);
    Some(at)
}

proof fn lemma_walk_ends(start: Position, steps: Seq<Direction>, i: int)
    requires
        0 <= i <= steps.len(),
        walk_end(start, steps.take(i)) is None,
    ensures
        walk_end(start, steps) is None,
    decreases steps.len() - i,
{
    if i == steps.len() {
        assert(steps.take(i) =~= steps);
    } else {
        assert(steps.take(i + 1).drop_last() =~= steps.take(i));
        lemma_walk_ends(start, steps, i + 1);
    }
}

/// The steps with the first one gone.
pub open spec fn rest_of_way(s: Seq<Direction>) -> Seq<Direction> {
    if s.len() == 0 {
        s
    } else {
        s.drop_first()
    }
}

/// The first step.
pub open spec fn next_step(s: Seq<Direction>) -> Option<Direction> {
    if s.len() == 0 {
        None
    } else {
        Some(s[0])
    }
}

impl World {
    pub open spec fn monster_on_floor(self, z: u8, skip: Option<u32>) -> spec_fn(u32) -> bool {
        |k: u32| Some(k) != skip && self.monsters.at(k).position.z == z
    }

    pub open spec fn player_on_floor(self, z: u8, skip: Option<u32>) -> spec_fn(u32) -> bool {
        |k: u32| Some(k) != skip && self.players.at(k).position.z == z
    }

    /// Where creatures stand on floor `z`: monsters, then players, two apart.
    pub open spec fn standing(self, z: u8, monster: Option<u32>, player: Option<u32>) -> Seq<Position> {
        self.monsters.order.filter(self.monster_on_floor(z, monster)).map_values(
            |k: u32| self.monsters.at(k).position,
        ) + self.players.order.filter(self.player_on_floor(z, player)).map_values(
            |k: u32| self.players.at(k).position,
        )
    }

    /// The monsters that think in a tick for `bucket`.
    pub open spec fn in_bucket(self, bucket: u8) -> Seq<u32> {
        self.monsters.order.filter(|k: u32| k % 10 == bucket as u32)
    }

    pub open spec fn walks(self) -> spec_fn(u32) -> bool {
        |k: u32|
            self.players.at(k).follow_target is Some || self.players.at(k).go_to_position is Some
    }

    /// The players who walk by themselves.
    pub open spec fn walkers(self) -> Seq<u32> {
        self.players.order.filter(self.walks())
    }

    /// What monster `id` does next: the next of its steps, or where it has none left and
    /// chases someone, a search for a way to its preferred distance. A target that is gone is
    /// chased no more; one on another floor is waited for.
    pub open spec fn monster_plan(self, id: u32) -> (World, PlanModel) {
        if !self.monsters.has(id) {
            (self, PlanModel::Idle)
        } else {
            let m = self.monsters.at(id);
            match m.follow_target {
                Some(t) if m.walk.len() == 0 => match self.creature_position(t) {
                    None => (
                        self.set_monster(id, MonsterModel { follow_target: None, ..m }),
                        PlanModel::Idle,
                    ),
                    Some(at) => if m.position.z != at.z {
                        (self, PlanModel::Idle)
                    } else {
                        (
                            self,
                            PlanModel::Search {
                                query: QueryModel {
                                    start: m.position,
                                    target: at,
                                    creatures: self.standing(at.z, Some(id), None),
                                    reach: if m.target_distance >= 1 {
                                        m.target_distance as u32
                                    } else {
                                        1
                                    },
                                    params: usual_search(),
                                },
                            },
                        )
                    },
                },
                _ => (self, PlanModel::Walk),
            }
        }
    }

    /// The way that monster `id` walks once `found` was found: an empty one changes nothing.
    pub open spec fn monster_way(self, id: u32, found: Seq<Direction>) -> Seq<Direction> {
        if found.len() > 0 {
            found
        } else {
            self.monsters.at(id).walk
        }
    }

    /// Monster `id` sets out for its next step.
    pub open spec fn monster_set_out(self, id: u32, found: Seq<Direction>) -> World {
        if self.monsters.has(id) {
            self.set_monster(
                id,
                MonsterModel {
                    walk: rest_of_way(self.monster_way(id, found)),
                    ..self.monsters.at(id)
                },
            )
        } else {
            self
        }
    }

    /// Monster `id` goes on, with the way `found` if one was: it takes the next of its steps.
    pub open spec fn monster_went_on(self, id: u32, found: Seq<Direction>) -> World {
        if !self.monsters.has(id) {
            self
        } else {
            let w = self.monster_set_out(id, found);
            match next_step(self.monster_way(id, found)) {
                Some(d) => w.monster_stepped(id, d),
                None => w,
            }
        }
    }

    /// Player `id` follows no one; its steps are forgotten where `all` says so.
    pub open spec fn unfollowed(self, id: u32, all: bool) -> World {
        let p = self.players.at(id);
        self.set_player(
            id,
            PlayerModel {
                follow_target: None,
                walk: if all {
                    Seq::empty()
                } else {
                    p.walk
                },
                ..p
            },
        )
    }

    /// Player `id` walks nowhere.
    pub open spec fn halted(self, id: u32) -> World {
        self.set_player(
            id,
            PlayerModel {
                go_to_position: None,
                failed_repaths: None,
                walk: Seq::empty(),
                ..self.players.at(id)
            },
        )
    }

    /// A way for player `id` to within `reach` of `target`.
    pub open spec fn way_wanted(self, id: u32, target: Position, reach: u32) -> QueryModel {
        QueryModel {
            start: self.players.at(id).position,
            target,
            creatures: self.standing(self.players.at(id).position.z, None, Some(id)),
            reach,
            params: usual_search(),
        }
    }

    /// What player `id`, who follows `t`, does next. It stops where the target is gone, on
    /// another floor, out of view or reached, and in a protection zone.
    pub open spec fn follower_plan(self, id: u32, t: u32) -> (World, PlanModel) {
        let p = self.players.at(id);
        match self.creature_position(t) {
            None => (self.unfollowed(id, false), PlanModel::Idle),
            Some(at) => if p.position.z != at.z {
                (self.unfollowed(id, false), PlanModel::Idle)
            } else if self.map.zone_at(p.position) || !sees(p.position, at) || close(
                p.position,
                at,
            ) {
                (self.unfollowed(id, true), PlanModel::Idle)
            } else if p.walk.len() == 0 {
                (self, PlanModel::Search { query: self.way_wanted(id, at, 1) })
            } else {
                (self, PlanModel::Walk)
            },
        }
    }

    /// What player `id`, who walks to `target`, does next. It stops there, and in a protection
    /// zone.
    pub open spec fn traveller_plan(self, id: u32, target: Position) -> (World, PlanModel) {
        let p = self.players.at(id);
        if self.map.zone_at(p.position) || p.position == target {
            (self.halted(id), PlanModel::Idle)
        } else if p.walk.len() == 0 {
            (self, PlanModel::Search { query: self.way_wanted(id, target, 0) })
        } else {
            (self, PlanModel::Walk)
        }
    }

    /// What player `id` does next.
    pub open spec fn player_plan(self, id: u32) -> (World, PlanModel) {
        if !self.players.has(id) {
            (self, PlanModel::Idle)
        } else {
            match (self.players.at(id).follow_target, self.players.at(id).go_to_position) {
                (Some(t), _) => self.follower_plan(id, t),
                (None, Some(target)) => self.traveller_plan(id, target),
                (None, None) => (self, PlanModel::Idle),
            }
        }
    }

    /// The way that player `id` walks once `found` was found: it matters only to a player who
    /// has no steps left.
    pub open spec fn player_way(self, id: u32, found: Seq<Direction>) -> Seq<Direction> {
        if self.players.at(id).walk.len() == 0 {
            found
        } else {
            self.players.at(id).walk
        }
    }

    /// Enough time has passed since the last step of player `id`.
    pub open spec fn rested(self, id: u32) -> bool {
        let p = self.players.at(id);
        (if self.now_ms >= p.last_walk_ms {
            self.now_ms - p.last_walk_ms
        } else {
            0
        }) >= step_interval(p.speed)
    }

    /// Player `id` has `way` before it.
    pub open spec fn with_way(self, id: u32, way: Seq<Direction>) -> World {
        self.set_player(id, PlayerModel { walk: way, ..self.players.at(id) })
    }

    /// Where player `id` has left `from`, its step is noted: the time, and that searches no
    /// longer fail.
    pub open spec fn step_noted(self, id: u32, from: Position) -> World {
        if self.players.has(id) && self.players.at(id).position != from {
            self.set_player(
                id,
                PlayerModel {
                    last_walk_ms: self.now_ms,
                    failed_repaths: None,
                    ..self.players.at(id)
                },
            )
        } else {
            self
        }
    }

    /// A step in direction `d` takes player `id` into a protection zone.
    pub open spec fn into_zone(self, id: u32, d: Direction) -> bool {
        self.players.at(id).position.shifted(d.dx(), d.dy()) matches Some(to) && self.map.zone_at(to)
    }

    /// A search for a way failed: the third in a row ends the walk.
    pub open spec fn search_failed(self, id: u32) -> World {
        let p = self.players.at(id);
        let before = match p.failed_repaths {
            Some(n) => n,
            None => 0,
        };
        if before + 1 >= MAX_FAILED_SEARCHES {
            self.set_player(
                id,
                PlayerModel {
                    go_to_position: None,
                    failed_repaths: None,
                    walk: Seq::empty(),
                    ..p
                },
            ).status(id, "There is no way."@)
        } else {
            self.set_player(
                id,
                PlayerModel { failed_repaths: Some((before + 1) as u32), ..p },
            )
        }
    }

    /// Player `id` goes on, with the way `found` if it had none left: a step where enough time
    /// has passed since the last. Those who walk to a place do not walk into a protection
    /// zone, and give up when the third search in a row finds no way.
    pub open spec fn went_on(self, id: u32, found: Seq<Direction>) -> World {
        if !self.players.has(id) {
            self
        } else {
            let p = self.players.at(id);
            let way = self.player_way(id, found);
            if p.follow_target is None && p.go_to_position is None {
                self
            } else if p.follow_target is None && way.len() == 0 {
                self.search_failed(id)
            } else if !self.rested(id) || way.len() == 0 {
                self.with_way(id, way)
            } else {
                let w = self.with_way(id, way.drop_first());
                if p.follow_target is None && self.into_zone(id, way[0]) {
                    w.halted(id).status(id, "You cannot walk there."@)
                } else {
                    w.stepped(id, way[0]).step_noted(id, p.position)
                }
            }
        }
    }

    /// Player `id` wishes to follow `t`, or with 0 no one. The target must be on the same
    /// floor and not yet reached.
    #[verifier::opaque]
    pub open spec fn follow_wished(self, id: u32, t: u32) -> (World, Option<QueryModel>) {
        if !self.players.has(id) {
            (self, None)
        } else if t == 0 {
            (self.unfollowed(id, true), None)
        } else if t == id {
            (self, None)
        } else {
            match self.creature_position(t) {
                Some(at) if self.players.at(id).position.z == at.z && !close(
                    self.players.at(id).position,
                    at,
                ) => {
                    let w = self.set_player(
                        id,
                        PlayerModel {
                            follow_target: Some(t),
                            go_to_position: None,
                            failed_repaths: None,
                            ..self.players.at(id)
                        },
                    );
                    (w, Some(w.way_wanted(id, at, 1)))
                },
                _ => (self, None),
            }
        }
    }

    /// A first way for a player who follows someone: an empty one changes nothing.
    pub open spec fn follow_begun(self, id: u32, found: Seq<Direction>) -> World {
        if self.players.has(id) && found.len() > 0 {
            self.with_way(id, found)
        } else {
            self
        }
    }

    /// Player `id` wishes to walk to `target`: in view, on the same floor, walkable, and
    /// neither from nor into a protection zone.
    #[verifier::opaque]
    pub open spec fn travel_wished(self, id: u32, target: Position) -> (World, Option<QueryModel>) {
        if !self.players.has(id) {
            (self, None)
        } else {
            let pos = self.players.at(id).position;
            if self.map.zone_at(pos) || self.map.zone_at(target) {
                (self.status(id, "You cannot walk there."@), None)
            } else if pos.z != target.z {
                (self.status(id, "You cannot walk to a different floor."@), None)
            } else if !self.map.walkable(target) {
                (self.status(id, "You cannot walk there."@), None)
            } else if !sees(pos, target) || pos == target {
                (self, None)
            } else {
                let w = self.set_player(
                    id,
                    PlayerModel {
                        follow_target: None,
                        go_to_position: Some(target),
                        ..self.players.at(id)
                    },
                );
                (w, Some(w.way_wanted(id, target, 0)))
            }
        }
    }

    /// A first way for a player who walks to a place; without one it stays.
    pub open spec fn travel_begun(self, id: u32, found: Seq<Direction>) -> World {
        if !self.players.has(id) {
            self
        } else if found.len() > 0 {
            self.with_way(id, found)
        } else {
            self.set_player(
                id,
                PlayerModel { go_to_position: None, failed_repaths: None, ..self.players.at(id) },
            ).status(id, "There is no way."@)
        }
    }

    /// Player `id` wishes to walk `steps`: to where they end from where it really stands. A
    /// walk there that is under way goes on.
    #[verifier::opaque]
    pub open spec fn steps_wished(self, id: u32, steps: Seq<Direction>) -> (
        World,
        Option<QueryModel>,
    ) {
        if !self.players.has(id) {
            (self, None)
        } else {
            let p = self.players.at(id);
            match walk_end(p.position, steps) {
                Some(target) if !(p.go_to_position == Some(target) && p.walk.len() > 0) =>
                    self.travel_wished(id, target),
                _ => (self, None),
            }
        }
    }

    /// Player `id` follows `t` as far as it can, with the way `way` to begin with.
    pub open spec fn follow_settled(self, id: u32, t: u32, way: Seq<Direction>) -> World {
        let (w, q) = self.follow_wished(id, t);
        if q is Some {
            w.follow_begun(id, way)
        } else {
            w
        }
    }

    /// `search` may answer `way` when player `id` wishes to follow `t`.
    pub open spec fn follow_answered<F: Fn(&StaticMap, &PathQuery) -> VecDeque<Direction>>(
        self,
        search: F,
        id: u32,
        t: u32,
        way: Seq<Direction>,
    ) -> bool {
        let (w, q) = self.follow_wished(id, t);
        answers(search, w.map, q, way)
    }

    /// Player `id` walks to `target` if it can, by the way `way`.
    pub open spec fn travel_settled(self, id: u32, target: Position, way: Seq<Direction>) -> World {
        let (w, q) = self.travel_wished(id, target);
        if q is Some {
            w.travel_begun(id, way)
        } else {
            w
        }
    }

    /// `search` may answer `way` when player `id` wishes to walk to `target`.
    pub open spec fn travel_answered<F: Fn(&StaticMap, &PathQuery) -> VecDeque<Direction>>(
        self,
        search: F,
        id: u32,
        target: Position,
        way: Seq<Direction>,
    ) -> bool {
        let (w, q) = self.travel_wished(id, target);
        answers(search, w.map, q, way)
    }

    /// Player `id` walks to where `steps` end if it can, by the way `way`.
    pub open spec fn steps_settled(
        self,
        id: u32,
        steps: Seq<Direction>,
        way: Seq<Direction>,
    ) -> World {
        let (w, q) = self.steps_wished(id, steps);
        if q is Some {
            w.travel_begun(id, way)
        } else {
            w
        }
    }

    /// `search` may answer `way` when player `id` wishes to walk `steps`.
    pub open spec fn steps_answered<F: Fn(&StaticMap, &PathQuery) -> VecDeque<Direction>>(
        self,
        search: F,
        id: u32,
        steps: Seq<Direction>,
        way: Seq<Direction>,
    ) -> bool {
        let (w, q) = self.steps_wished(id, steps);
        answers(search, w.map, q, way)
    }

    /// Monster `id` plans and goes on, with `way` where it looks for one.
    pub open spec fn monster_thought(self, id: u32, way: Seq<Direction>) -> World {
        let (w, plan) = self.monster_plan(id);
        if plan is Idle {
            w
        } else {
            w.monster_went_on(id, way)
        }
    }

    /// Monsters plan and go on one after the other, each with its way.
    pub open spec fn monsters_thought(self, ids: Seq<u32>, ways: Seq<Seq<Direction>>) -> World
        decreases ids.len(),
    {
        if ids.len() == 0 {
            self
        } else {
            self.monsters_thought(ids.drop_last(), ways.drop_last()).monster_thought(
                ids.last(),
                ways.last(),
            )
        }
    }

    /// Each of `ways` is what `search` may answer to the monster whose turn it is.
    pub open spec fn monsters_answered<F: Fn(&StaticMap, &PathQuery) -> VecDeque<Direction>>(
        self,
        search: F,
        ids: Seq<u32>,
        ways: Seq<Seq<Direction>>,
    ) -> bool
        decreases ids.len(),
    {
        &&& ways.len() == ids.len()
        &&& ids.len() > 0 ==> {
            let (w, plan) = self.monsters_thought(ids.drop_last(), ways.drop_last()).monster_plan(
                ids.last(),
            );
            &&& self.monsters_answered(search, ids.drop_last(), ways.drop_last())
            &&& answers(search, w.map, wanted(plan), ways.last())
        }
    }

    /// Player `id` plans and goes on, with `way` where it looks for one.
    pub open spec fn player_thought(self, id: u32, way: Seq<Direction>) -> World {
        let (w, plan) = self.player_plan(id);
        if plan is Idle {
            w
        } else {
            w.went_on(id, way)
        }
    }

    /// Players plan and go on one after the other, each with its way.
    pub open spec fn players_thought(self, ids: Seq<u32>, ways: Seq<Seq<Direction>>) -> World
        decreases ids.len(),
    {
        if ids.len() == 0 {
            self
        } else {
            self.players_thought(ids.drop_last(), ways.drop_last()).player_thought(
                ids.last(),
                ways.last(),
            )
        }
    }

    /// Each of `ways` is what `search` may answer to the player whose turn it is.
    pub open spec fn players_answered<F: Fn(&StaticMap, &PathQuery) -> VecDeque<Direction>>(
        self,
        search: F,
        ids: Seq<u32>,
        ways: Seq<Seq<Direction>>,
    ) -> bool
        decreases ids.len(),
    {
        &&& ways.len() == ids.len()
        &&& ids.len() > 0 ==> {
            let (w, plan) = self.players_thought(ids.drop_last(), ways.drop_last()).player_plan(
                ids.last(),
            );
            &&& self.players_answered(search, ids.drop_last(), ways.drop_last())
            &&& answers(search, w.map, wanted(plan), ways.last())
        }
    }

    /// The game once the monsters of `bucket` have thought at `now`, with their ways.
    pub open spec fn hunted(self, bucket: u8, now: u64, ways: Seq<Seq<Direction>>) -> World {
        World { now_ms: now, ..self }.monsters_thought(self.in_bucket(bucket), ways)
    }

    /// A tick at `now`: the monsters of `bucket` think, with the ways `hunts`, then all players
    /// who walk by themselves go on, with the ways `walks`.
    pub open spec fn ticked(
        self,
        bucket: u8,
        now: u64,
        hunts: Seq<Seq<Direction>>,
        walks: Seq<Seq<Direction>>,
    ) -> World {
        let w = self.hunted(bucket, now, hunts);
        w.players_thought(w.walkers(), walks)
    }

    /// The ways of a tick are what `search` may answer.
    pub open spec fn tick_answered<F: Fn(&StaticMap, &PathQuery) -> VecDeque<Direction>>(
        self,
        search: F,
        bucket: u8,
        now: u64,
        hunts: Seq<Seq<Direction>>,
        walks: Seq<Seq<Direction>>,
    ) -> bool {
        let w = self.hunted(bucket, now, hunts);
        &&& World { now_ms: now, ..self }.monsters_answered(search, self.in_bucket(bucket), hunts)
        &&& w.players_answered(search, w.walkers(), walks)
    }

    /// Player `id` no longer walks by itself.
    pub open spec fn walk_cleared(self, id: u32) -> World {
        if self.players.has(id) {
            self.set_player(
                id,
                PlayerModel {
                    go_to_position: None,
                    failed_repaths: None,
                    follow_target: None,
                    walk: Seq::empty(),
                    ..self.players.at(id)
                },
            )
        } else {
            self
        }
    }
}

fn usual_params() -> (p: FindPathParams)
    ensures
        p == usual_search(),
{
    FindPathParams { full_search: false, clear_sight: false, max_search_dist: MAX_SEARCH_DISTANCE }
}

impl Game {
    /// Where creatures stand on floor `z`, two apart.
    fn list_standing(&self, z: u8, monster: Option<u32>, player: Option<u32>) -> (r: Vec<Position>)
        requires
            self.wf(),
        ensures
            r@ == self@.standing(z, monster, player),
    {
        let ghost order = self.monsters@.order;
        let ghost f = self@.monster_on_floor(z, monster);
        let ghost at = |k: u32| self@.monsters.at(k).position;
        let mut r: Vec<Position> = Vec::new();
        assert(order.take(0).filter(f) =~= Seq::empty()) by {
            reveal(Seq::filter);
        }
        assert(r@ =~= order.take(0).filter(f).map_values(at));
        let mut i: usize = 0;
        while i < self.monsters.len()
            invariant
                self.wf(),
                i <= order.len(),
                order == self.monsters@.order,
                f == self@.monster_on_floor(z, monster),
                at == (|k: u32| self@.monsters.at(k).position),
                r@ == order.take(i as int).filter(f).map_values(at),
            decreases order.len() - i,
        {
            let k: u32 = self.monsters.id_at(i);
            let m = self.monsters.entry_at(i);
            proof {
                lemma_filter_step(order, i as int, f);
            }
            let other = match monster {
                Some(s) => k != s,
                None => true,
            };
            if other && m.position.z == z {
                r.push(m.position);
            }
            assert(r@ =~= order.take(i + 1).filter(f).map_values(at));
            i = i + 1;
        }
        assert(order.take(order.len() as int) =~= order);
        let ghost first = r@;
        let ghost people = self.players@.order;
        let ghost g = self@.player_on_floor(z, player);
        let ghost of = |k: u32| self@.players.at(k).position;
        assert(people.take(0).filter(g) =~= Seq::empty()) by {
            reveal(Seq::filter);
        }
        assert(r@ =~= first + people.take(0).filter(g).map_values(of));
        let mut j: usize = 0;
        while j < self.players.len()
            invariant
                self.wf(),
                j <= people.len(),
                people == self.players@.order,
                g == self@.player_on_floor(z, player),
                of == (|k: u32| self@.players.at(k).position),
                r@ == first + people.take(j as int).filter(g).map_values(of),
            decreases people.len() - j,
        {
            let k: u32 = self.players.id_at(j);
            let p = self.players.entry_at(j);
            proof {
                lemma_filter_step(people, j as int, g);
            }
            let other = match player {
                Some(s) => k != s,
                None => true,
            };
            if other && p.position.z == z {
                r.push(p.position);
            }
            assert(r@ =~= first + people.take(j + 1).filter(g).map_values(of));
            j = j + 1;
        }
        assert(people.take(people.len() as int) =~= people);
        r
    }

    /// Start a tick at `now_ms`: the clock is set, and the result lists the monsters whose
    /// turn it is to think, those whose id has the last digit `bucket`.
    pub fn begin_ai_tick(&mut self, bucket: u8, now_ms: u64) -> (r: Vec<u32>)
        requires
            old(self).wf(),
        ensures
            final(self).wf(),
            final(self)@ == (World { now_ms, ..old(self)@ }),
            r@ == old(self)@.in_bucket(bucket),
    {
        self.now_ms = now_ms;
        let ghost order = self.monsters@.order;
        let ghost f = |k: u32| k % 10 == bucket as u32;
        let mut r: Vec<u32> = Vec::new();
        assert(order.take(0).filter(f) =~= Seq::empty()) by {
            reveal(Seq::filter);
        }
        let mut i: usize = 0;
        while i < self.monsters.len()
            invariant
                self.wf(),
                self@ == (World { now_ms, ..old(self)@ }),
                i <= order.len(),
                order == self.monsters@.order,
                f == (|k: u32| k % 10 == bucket as u32),
                r@ == order.take(i as int).filter(f),
            decreases order.len() - i,
        {
            let k: u32 = self.monsters.id_at(i);
            proof {
                lemma_filter_step(order, i as int, f);
            }
            if k % 10 == bucket as u32 {
                r.push(k);
            }
            i = i + 1;
        }
        assert(order.take(order.len() as int) =~= order);
        r
    }

    /// The players who walk by themselves.
    pub fn list_walkers(&self) -> (r: Vec<u32>)
        requires
            self.wf(),
        ensures
            r@ == self@.walkers(),
    {
        let ghost order = self.players@.order;
        let ghost f = self@.walks();
        let mut r: Vec<u32> = Vec::new();
        assert(order.take(0).filter(f) =~= Seq::empty()) by {
            reveal(Seq::filter);
        }
        let mut i: usize = 0;
        while i < self.players.len()
            invariant
                self.wf(),
                i <= order.len(),
                order == self.players@.order,
                f == self@.walks(),
                r@ == order.take(i as int).filter(f),
            decreases order.len() - i,
        {
            let k: u32 = self.players.id_at(i);
            let p = self.players.entry_at(i);
            proof {
                lemma_filter_step(order, i as int, f);
            }
            if p.follow_target.is_some() || p.go_to_position.is_some() {
                r.push(k);
            }
            i = i + 1;
        }
        assert(order.take(order.len() as int) =~= order);
        r
    }

    /// What monster `id` does next.
    pub fn plan_monster(&mut self, id: u32) -> (plan: Plan)
        requires
            old(self).wf(),
        ensures
            final(self).wf(),
            (final(self)@, plan@) == old(self)@.monster_plan(id),
    {
        let (target, start, distance) = match self.monsters.get(id) {
            Some(m) => {
                if m.list_walk_dir.len() > 0 {
                    return Plan::Walk;
                }
                match m.follow_target {
                    Some(t) => (t, m.position, m.target_distance),
                    None => {
                        return Plan::Walk;
                    },
                }
            },
            None => {
                return Plan::Idle;
            },
        };
        match self.creature_position(target) {
            Some(at) => {
                if start.z != at.z {
                    return Plan::Idle;
                }
                let reach: u32 = if distance >= 1 {
                    distance as u32
                } else {
                    1
                };
                let creatures = self.list_standing(at.z, Some(id), None);
                let params = usual_params();
                Plan::Search { query: PathQuery { start, target: at, creatures, reach, params } }
            },
            None => {
                proof {
                    lemma_set_monster(
                        self@,
                        id,
                        MonsterModel { follow_target: None, ..self@.monsters.at(id) },
                    );
                }
                match self.monsters.get_mut(id) {
                    Some(m) => {
                        m.follow_target = None;
                    },
                    None => {},
                }
                Plan::Idle
            },
        }
    }

    /// Let monster `id` take the next of its steps. `found` is the way that a search gave,
    /// empty where there was none.
    pub fn monster_step(&mut self, id: u32, found: VecDeque<Direction>)
        requires
            old(self).wf(),
        ensures
            final(self).wf(),
            final(self)@ == old(self)@.monster_went_on(id, found@),
    {
        proof {
            if self@.monsters.has(id) {
                lemma_set_monster(
                    self@,
                    id,
                    MonsterModel {
                        walk: rest_of_way(self@.monster_way(id, found@)),
                        ..self@.monsters.at(id)
                    },
                );
            }
        }
        let next = match self.monsters.get_mut(id) {
            Some(m) => {
                if found.len() > 0 {
                    m.list_walk_dir = found;
                }
                let ghost way = m.list_walk_dir@;
                let d = m.list_walk_dir.pop_front();
                assert(m.list_walk_dir@ =~= rest_of_way(way));
                d
            },
            None => {
                return;
            },
        };
        match next {
            Some(d) => self.do_move_monster(id, d),
            None => {},
        }
    }

    /// What player `id` does next.
    pub fn plan_player(&mut self, id: u32) -> (plan: Plan)
        requires
            old(self).wf(),
        ensures
            final(self).wf(),
            (final(self)@, plan@) == old(self)@.player_plan(id),
    {
        let (follow, goal) = match self.players.get(id) {
            Some(p) => (p.follow_target, p.go_to_position),
            None => {
                return Plan::Idle;
            },
        };
        match follow {
            Some(t) => self.plan_follower(id, t),
            None => match goal {
                Some(target) => self.plan_traveller(id, target),
                None => Plan::Idle,
            },
        }
    }

    fn stop_following(&mut self, id: u32, all: bool)
        requires
            old(self).wf(),
            old(self)@.players.has(id),
        ensures
            final(self).wf(),
            final(self)@ == old(self)@.unfollowed(id, all),
    {
        proof {
            let p = self@.players.at(id);
            lemma_set_player(
                self@,
                id,
                PlayerModel {
                    follow_target: None,
                    walk: if all {
                        Seq::empty()
                    } else {
                        p.walk
                    },
                    ..p
                },
            );
        }
        match self.players.get_mut(id) {
            Some(p) => {
                p.follow_target = None;
                if all {
                    p.list_walk_dir = VecDeque::new();
                    assert(p.list_walk_dir@ =~= Seq::empty());
                }
            },
            None => {},
        }
    }

    fn halt(&mut self, id: u32)
        requires
            old(self).wf(),
            old(self)@.players.has(id),
        ensures
            final(self).wf(),
            final(self)@ == old(self)@.halted(id),
    {
        proof {
            lemma_set_player(
                self@,
                id,
                PlayerModel {
                    go_to_position: None,
                    failed_repaths: None,
                    walk: Seq::empty(),
                    ..self@.players.at(id)
                },
            );
        }
        match self.players.get_mut(id) {
            Some(p) => {
                p.go_to_position = None;
                p.failed_repaths = None;
                p.list_walk_dir = VecDeque::new();
                assert(p.list_walk_dir@ =~= Seq::empty());
            },
            None => {},
        }
    }

    fn want_way(&self, id: u32, start: Position, target: Position, reach: u32) -> (q: PathQuery)
        requires
            self.wf(),
            self@.players.has(id),
            start == self@.players.at(id).position,
        ensures
            q@ == self@.way_wanted(id, target, reach),
    {
        let creatures = self.list_standing(start.z, None, Some(id));
        PathQuery { start, target, creatures, reach, params: usual_params() }
    }

    fn plan_follower(&mut self, id: u32, t: u32) -> (plan: Plan)
        requires
            old(self).wf(),
            old(self)@.players.has(id),
        ensures
            final(self).wf(),
            (final(self)@, plan@) == old(self)@.follower_plan(id, t),
    {
        let (pos, no_steps) = match self.players.get(id) {
            Some(p) => (p.position, p.list_walk_dir.len() == 0),
            None => {
                return Plan::Idle;
            },
        };
        let at = match self.creature_position(t) {
            Some(at) => at,
            None => {
                self.stop_following(id, false);
                return Plan::Idle;
            },
        };
        if pos.z != at.z {
            self.stop_following(id, false);
            return Plan::Idle;
        }
        if self.map.is_protection_zone(pos) || !Game::can_see(pos, at) || in_close_range(pos, at) {
            self.stop_following(id, true);
            return Plan::Idle;
        }
        if no_steps {
            Plan::Search { query: self.want_way(id, pos, at, 1) }
        } else {
            Plan::Walk
        }
    }

    fn plan_traveller(&mut self, id: u32, target: Position) -> (plan: Plan)
        requires
            old(self).wf(),
            old(self)@.players.has(id),
        ensures
            final(self).wf(),
            (final(self)@, plan@) == old(self)@.traveller_plan(id, target),
    {
        let (pos, no_steps) = match self.players.get(id) {
            Some(p) => (p.position, p.list_walk_dir.len() == 0),
            None => {
                return Plan::Idle;
            },
        };
        if self.map.is_protection_zone(pos) || pos == target {
            self.halt(id);
            return Plan::Idle;
        }
        if no_steps {
            Plan::Search { query: self.want_way(id, pos, target, 0) }
        } else {
            Plan::Walk
        }
    }

    fn fail_search(&mut self, id: u32)
        requires
            old(self).wf(),
            old(self)@.players.has(id),
            old(self)@.players.at(id).go_to_position is Some,
        ensures
            final(self).wf(),
            final(self)@ == old(self)@.search_failed(id),
    {
        let before: u32 = match self.players.get(id) {
            Some(p) => match p.failed_repaths {
                Some(n) => n,
                None => 0,
            },
            None => 0,
        };
        let over = before >= MAX_FAILED_SEARCHES - 1;
        proof {
            let p = self@.players.at(id);
            if over {
                lemma_set_player(
                    self@,
                    id,
                    PlayerModel {
                        go_to_position: None,
                        failed_repaths: None,
                        walk: Seq::empty(),
                        ..p
                    },
                );
            } else {
                lemma_set_player(
                    self@,
                    id,
                    PlayerModel { failed_repaths: Some((before + 1) as u32), ..p },
                );
            }
        }
        match self.players.get_mut(id) {
            Some(p) => {
                if over {
                    p.go_to_position = None;
                    p.list_walk_dir = VecDeque::new();
                    assert(p.list_walk_dir@ =~= Seq::empty());
                    p.failed_repaths = None;
                } else {
                    p.failed_repaths = Some(before + 1);
                }
            },
            None => {},
        }
        if over {
            self.push_cannot_move(id, "There is no way.");
        }
    }

    fn set_way(&mut self, id: u32, way: VecDeque<Direction>)
        requires
            old(self).wf(),
            old(self)@.players.has(id),
        ensures
            final(self).wf(),
            final(self)@ == old(self)@.with_way(id, way@),
    {
        proof {
            lemma_set_player(self@, id, PlayerModel { walk: way@, ..self@.players.at(id) });
        }
        match self.players.get_mut(id) {
            Some(p) => {
                p.list_walk_dir = way;
            },
            None => {},
        }
    }

    /// Take the next step off the way of player `id`.
    fn take_step(&mut self, id: u32) -> (r: Option<Direction>)
        requires
            old(self).wf(),
            old(self)@.players.has(id),
            old(self)@.players.at(id).walk.len() > 0,
        ensures
            final(self).wf(),
            final(self)@ == old(self)@.with_way(id, old(self)@.players.at(id).walk.drop_first()),
            r == Some(old(self)@.players.at(id).walk[0]),
    {
        proof {
            lemma_set_player(
                self@,
                id,
                PlayerModel {
                    walk: self@.players.at(id).walk.drop_first(),
                    ..self@.players.at(id)
                },
            );
        }
        match self.players.get_mut(id) {
            Some(p) => {
                let ghost way = p.list_walk_dir@;
                let d = p.list_walk_dir.pop_front();
                assert(p.list_walk_dir@ =~= way.drop_first());
                d
            },
            None => None,
        }
    }

    /// Note that player `id` has stepped off `from`, if it has.
    fn note_step(&mut self, id: u32, from: Position)
        requires
            old(self).wf(),
        ensures
            final(self).wf(),
            final(self)@ == old(self)@.step_noted(id, from),
    {
        proof {
            if self@.players.has(id) {
                lemma_set_player(
                    self@,
                    id,
                    PlayerModel {
                        last_walk_ms: self@.now_ms,
                        failed_repaths: None,
                        ..self@.players.at(id)
                    },
                );
            }
        }
        let now: u64 = self.now_ms;
        match self.players.get(id) {
            Some(p) => {
                if p.position == from {
                    return;
                }
            },
            None => {
                return;
            },
        }
        match self.players.get_mut(id) {
            Some(p) => {
                p.last_walk_ms = now;
                p.failed_repaths = None;
            },
            None => {},
        }
    }

    /// Let player `id` go on. `found` is the way that a search gave, empty where there was
    /// none.
    pub fn player_step(&mut self, id: u32, found: VecDeque<Direction>)
        requires
            old(self).wf(),
        ensures
            final(self).wf(),
            final(self)@ == old(self)@.went_on(id, found@),
    {
        let (follows, walks, pos, no_steps, rested) = match self.players.get(id) {
            Some(p) => (
                p.follow_target.is_some(),
                p.go_to_position.is_some(),
                p.position,
                p.list_walk_dir.len() == 0,
                self.now_ms.saturating_sub(p.last_walk_ms) >= step_time(p.speed),
            ),
            None => {
                return;
            },
        };
        if !follows && !walks {
            return;
        }
        let lost = no_steps && found.len() == 0;
        if !follows && lost {
            self.fail_search(id);
            return;
        }
        let ghost way = self@.player_way(id, found@);
        if no_steps {
            self.set_way(id, found);
        }
        assert(self@ =~= old(self)@.with_way(id, way));
        if !rested || lost {
            return;
        }
        assert(self@.players.at(id).walk == way);
        let d = match self.take_step(id) {
            Some(d) => d,
            None => {
                return;
            },
        };
        assert(self@ =~= old(self)@.with_way(id, way.drop_first()));
        if !follows {
            let (dx, dy) = d.delta();
            match pos.offset(dx, dy) {
                Some(to) => {
                    if self.map.is_protection_zone(to) {
                        self.halt(id);
                        self.push_cannot_move(id, "You cannot walk there.");
                        return;
                    }
                },
                None => {},
            }
        }
        self.do_move(id, d);
        self.note_step(id, pos);
    }

    /// Take the wish of player `id` to follow `target_id`, or with 0 no one. The result is the
    /// way to look for first; it is handed to [`Game::follow_found`].
    pub fn wish_follow(&mut self, id: u32, target_id: u32) -> (q: Option<PathQuery>)
        requires
            old(self).wf(),
        ensures
            final(self).wf(),
            (final(self)@, query_view(q)) == old(self)@.follow_wished(id, target_id),
    {
        proof {
            reveal(World::follow_wished);
        }
        let pos = match self.players.get(id) {
            Some(p) => p.position,
            None => {
                return None;
            },
        };
        if target_id == 0 {
            self.stop_following(id, true);
            return None;
        }
        if target_id == id {
            return None;
        }
        let at = match self.creature_position(target_id) {
            Some(at) => at,
            None => {
                return None;
            },
        };
        if pos.z != at.z || in_close_range(pos, at) {
            return None;
        }
        proof {
            lemma_set_player(
                self@,
                id,
                PlayerModel {
                    follow_target: Some(target_id),
                    go_to_position: None,
                    failed_repaths: None,
                    ..self@.players.at(id)
                },
            );
        }
        match self.players.get_mut(id) {
            Some(p) => {
                p.follow_target = Some(target_id);
                p.go_to_position = None;
                p.failed_repaths = None;
            },
            None => {},
        }
        Some(self.want_way(id, pos, at, 1))
    }

    /// The way that was found for a player who follows someone.
    pub fn follow_found(&mut self, id: u32, found: VecDeque<Direction>)
        requires
            old(self).wf(),
        ensures
            final(self).wf(),
            final(self)@ == old(self)@.follow_begun(id, found@),
    {
        if self.players.contains(id) && found.len() > 0 {
            self.set_way(id, found);
        }
    }

    /// Take the wish of player `id` to walk to `target`. The result is the way to look for; it
    /// is handed to [`Game::go_to_found`].
    pub fn wish_travel(&mut self, id: u32, target: Position) -> (q: Option<PathQuery>)
        requires
            old(self).wf(),
        ensures
            final(self).wf(),
            (final(self)@, query_view(q)) == old(self)@.travel_wished(id, target),
    {
        proof {
            reveal(World::travel_wished);
        }
        let pos = match self.players.get(id) {
            Some(p) => p.position,
            None => {
                return None;
            },
        };
        if self.map.is_protection_zone(pos) || self.map.is_protection_zone(target) {
            self.push_cannot_move(id, "You cannot walk there.");
            return None;
        }
        if pos.z != target.z {
            self.push_cannot_move(id, "You cannot walk to a different floor.");
            return None;
        }
        if !self.map.is_walkable(target) {
            self.push_cannot_move(id, "You cannot walk there.");
            return None;
        }
        if !Game::can_see(pos, target) || pos == target {
            return None;
        }
        proof {
            lemma_set_player(
                self@,
                id,
                PlayerModel {
                    follow_target: None,
                    go_to_position: Some(target),
                    ..self@.players.at(id)
                },
            );
        }
        match self.players.get_mut(id) {
            Some(p) => {
                p.follow_target = None;
                p.go_to_position = Some(target);
            },
            None => {},
        }
        Some(self.want_way(id, pos, target, 0))
    }

    /// The way that was found for a player who walks to a place; empty where there is none.
    pub fn go_to_found(&mut self, id: u32, found: VecDeque<Direction>)
        requires
            old(self).wf(),
        ensures
            final(self).wf(),
            final(self)@ == old(self)@.travel_begun(id, found@),
    {
        if !self.players.contains(id) {
            return;
        }
        if found.len() > 0 {
            self.set_way(id, found);
            return;
        }
        proof {
            lemma_set_player(
                self@,
                id,
                PlayerModel { go_to_position: None, failed_repaths: None, ..self@.players.at(id) },
            );
        }
        match self.players.get_mut(id) {
            Some(p) => {
                p.go_to_position = None;
                p.failed_repaths = None;
            },
            None => {},
        }
        self.push_cannot_move(id, "There is no way.");
    }

    /// Take the wish of player `id` to walk to where `steps` end from where it stands. A walk
    /// there that is under way goes on.
    pub fn wish_steps(&mut self, id: u32, steps: &Vec<Direction>) -> (q: Option<PathQuery>)
        requires
            old(self).wf(),
        ensures
            final(self).wf(),
            (final(self)@, query_view(q)) == old(self)@.steps_wished(id, steps@),
    {
        proof {
            reveal(World::steps_wished);
        }
        let (pos, goal, walking) = match self.players.get(id) {
            Some(p) => (p.position, p.go_to_position, p.list_walk_dir.len() > 0),
            None => {
                return None;
            },
        };
        let target = match walk_destination(pos, steps) {
            Some(t) => t,
            None => {
                return None;
            },
        };
        let same = match goal {
            Some(g) => g == target,
            None => false,
        };
        if same && walking {
            return None;
        }
        self.wish_travel(id, target)
    }

    /// Let player `id` follow `target_id`, or with 0 no one, by a way that `search` finds.
    pub fn do_follow_target<F: Fn(&StaticMap, &PathQuery) -> VecDeque<Direction>>(
        &mut self,
        id: u32,
        target_id: u32,
        search: F,
    )
        requires
            old(self).wf(),
            forall|m: &StaticMap, q: &PathQuery| #[trigger] call_requires(search, (m, q)),
        ensures
            final(self).wf(),
            exists|way: Seq<Direction>| #[trigger]
                old(self)@.follow_answered(search, id, target_id, way) && final(self)@ == old(
                    self,
                )@.follow_settled(id, target_id, way),
    {
        let ghost w = old(self)@;
        match self.wish_follow(id, target_id) {
            Some(q) => {
                let way = search(&self.map, &q);
                proof {
                    assert(w.follow_answered(search, id, target_id, way@));
                }
                self.follow_found(id, way);
            },
            None => {
                assert(w.follow_answered(search, id, target_id, Seq::empty()));
            },
        }
    }

    /// Let player `id` walk to `target` by a way that `search` finds.
    pub fn do_go_to_position<F: Fn(&StaticMap, &PathQuery) -> VecDeque<Direction>>(
        &mut self,
        id: u32,
        target: Position,
        search: F,
    )
        requires
            old(self).wf(),
            forall|m: &StaticMap, q: &PathQuery| #[trigger] call_requires(search, (m, q)),
        ensures
            final(self).wf(),
            exists|way: Seq<Direction>| #[trigger]
                old(self)@.travel_answered(search, id, target, way) && final(self)@ == old(
                    self,
                )@.travel_settled(id, target, way),
    {
        let ghost w = old(self)@;
        match self.wish_travel(id, target) {
            Some(q) => {
                let way = search(&self.map, &q);
                proof {
                    assert(w.travel_answered(search, id, target, way@));
                }
                self.go_to_found(id, way);
            },
            None => {
                assert(w.travel_answered(search, id, target, Seq::empty()));
            },
        }
    }

    /// Let player `id` walk to where `steps` end from where it stands, by a way that `search`
    /// finds. A walk there that is under way goes on.
    pub fn do_go_to_steps<F: Fn(&StaticMap, &PathQuery) -> VecDeque<Direction>>(
        &mut self,
        id: u32,
        steps: &Vec<Direction>,
        search: F,
    )
        requires
            old(self).wf(),
            forall|m: &StaticMap, q: &PathQuery| #[trigger] call_requires(search, (m, q)),
        ensures
            final(self).wf(),
            exists|way: Seq<Direction>| #[trigger]
                old(self)@.steps_answered(search, id, steps@, way) && final(self)@ == old(
                    self,
                )@.steps_settled(id, steps@, way),
    {
        let ghost w = old(self)@;
        match self.wish_steps(id, steps) {
            Some(q) => {
                let way = search(&self.map, &q);
                proof {
                    assert(w.steps_answered(search, id, steps@, way@));
                }
                self.go_to_found(id, way);
            },
            None => {
                assert(w.steps_answered(search, id, steps@, Seq::empty()));
            },
        }
    }

    /// Let the monsters `ids` plan and go on, by ways that `search` finds.
    fn think_monsters<F: Fn(&StaticMap, &PathQuery) -> VecDeque<Direction>>(
        &mut self,
        ids: &Vec<u32>,
        search: &F,
    ) -> (ways: Ghost<Seq<Seq<Direction>>>)
        requires
            old(self).wf(),
            forall|m: &StaticMap, q: &PathQuery| #[trigger] call_requires(*search, (m, q)),
        ensures
            final(self).wf(),
            old(self)@.monsters_answered(*search, ids@, ways@),
            final(self)@ == old(self)@.monsters_thought(ids@, ways@),
    {
        let ghost w = old(self)@;
        let ghost mut ways: Seq<Seq<Direction>> = Seq::empty();
        let mut i: usize = 0;
        while i < ids.len()
            invariant
                self.wf(),
                i <= ids@.len(),
                forall|m: &StaticMap, q: &PathQuery| #[trigger] call_requires(*search, (m, q)),
                w.monsters_answered(*search, ids@.take(i as int), ways),
                self@ == w.monsters_thought(ids@.take(i as int), ways),
            decreases ids@.len() - i,
        {
            let id: u32 = ids[i];
            let ghost before = self@;
            assert(ids@.take(i + 1).drop_last() =~= ids@.take(i as int));
            let found = match self.plan_monster(id) {
                Plan::Idle => {
                    proof {
                        let later = ways.push(Seq::empty());
                        assert(later.drop_last() =~= ways);
                        ways = later;
                    }
                    i = i + 1;
                    continue ;
                },
                Plan::Walk => {
                    let none: VecDeque<Direction> = VecDeque::new();
                    none
                },
                Plan::Search { query } => search(&self.map, &query),
            };
            proof {
                let later = ways.push(found@);
                assert(later.drop_last() =~= ways);
                assert(answers(*search, self@.map, wanted(before.monster_plan(id).1), found@));
                ways = later;
            }
            self.monster_step(id, found);
            i = i + 1;
        }
        assert(ids@.take(ids@.len() as int) =~= ids@);
        Ghost(ways)
    }

    /// Let the players `ids` plan and go on, by ways that `search` finds.
    fn think_players<F: Fn(&StaticMap, &PathQuery) -> VecDeque<Direction>>(
        &mut self,
        ids: &Vec<u32>,
        search: &F,
    ) -> (ways: Ghost<Seq<Seq<Direction>>>)
        requires
            old(self).wf(),
            forall|m: &StaticMap, q: &PathQuery| #[trigger] call_requires(*search, (m, q)),
        ensures
            final(self).wf(),
            old(self)@.players_answered(*search, ids@, ways@),
            final(self)@ == old(self)@.players_thought(ids@, ways@),
    {
        let ghost w = old(self)@;
        let ghost mut ways: Seq<Seq<Direction>> = Seq::empty();
        let mut i: usize = 0;
        while i < ids.len()
            invariant
                self.wf(),
                i <= ids@.len(),
                forall|m: &StaticMap, q: &PathQuery| #[trigger] call_requires(*search, (m, q)),
                w.players_answered(*search, ids@.take(i as int), ways),
                self@ == w.players_thought(ids@.take(i as int), ways),
            decreases ids@.len() - i,
        {
            let id: u32 = ids[i];
            let ghost before = self@;
            assert(ids@.take(i + 1).drop_last() =~= ids@.take(i as int));
            let found = match self.plan_player(id) {
                Plan::Idle => {
                    proof {
                        let later = ways.push(Seq::empty());
                        assert(later.drop_last() =~= ways);
                        ways = later;
                    }
                    i = i + 1;
                    continue ;
                },
                Plan::Walk => {
                    let none: VecDeque<Direction> = VecDeque::new();
                    none
                },
                Plan::Search { query } => search(&self.map, &query),
            };
            proof {
                let later = ways.push(found@);
                assert(later.drop_last() =~= ways);
                assert(answers(*search, self@.map, wanted(before.player_plan(id).1), found@));
                ways = later;
            }
            self.player_step(id, found);
            i = i + 1;
        }
        assert(ids@.take(ids@.len() as int) =~= ids@);
        Ghost(ways)
    }

    /// A tick at `now_ms`: the monsters whose id has the last digit `bucket` think and step,
    /// then all players who walk by themselves go on. Ways come from `search`.
    pub fn on_monster_ai_tick<F: Fn(&StaticMap, &PathQuery) -> VecDeque<Direction>>(
        &mut self,
        bucket: u8,
        now_ms: u64,
        search: F,
    )
        requires
            old(self).wf(),
            forall|m: &StaticMap, q: &PathQuery| #[trigger] call_requires(search, (m, q)),
        ensures
            final(self).wf(),
            exists|hunts: Seq<Seq<Direction>>, walks: Seq<Seq<Direction>>| #[trigger]
                old(self)@.tick_answered(search, bucket, now_ms, hunts, walks) && final(self)@
                    == old(self)@.ticked(bucket, now_ms, hunts, walks),
    {
        let monsters = self.begin_ai_tick(bucket, now_ms);
        let hunts = self.think_monsters(&monsters, &search);
        let walkers = self.list_walkers();
        let walks = self.think_players(&walkers, &search);
        assert(old(self)@.tick_answered(search, bucket, now_ms, hunts@, walks@));
    }

    /// End every walk of player `id`.
    pub fn do_clear_auto_walk(&mut self, id: u32)
        requires
            old(self).wf(),
        ensures
            final(self).wf(),
            final(self)@ == old(self)@.walk_cleared(id),
    {
        proof {
            if self@.players.has(id) {
                lemma_set_player(
                    self@,
                    id,
                    PlayerModel {
                        go_to_position: None,
                        failed_repaths: None,
                        follow_target: None,
                        walk: Seq::empty(),
                        ..self@.players.at(id)
                    },
                );
            }
        }
        match self.players.get_mut(id) {
            Some(p) => {
                p.go_to_position = None;
                p.failed_repaths = None;
                p.follow_target = None;
                p.list_walk_dir = VecDeque::new();
                assert(p.list_walk_dir@ =~= Seq::empty());
            },
            None => {},
        }
    }
}

} // verus!
