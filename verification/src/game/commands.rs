//! Everything that can be asked of the game, in one place.

use std::collections::VecDeque;
use vstd::prelude::*;

use super::autowalk::PathQuery;
use super::combat::Outcome;
use super::gm::GmVerb;
use super::lua::LuaError;
use super::model::World;
use super::state::InitialState;
use super::state::LoginAck;
use super::state::PlayerSnapshot;
use super::Game;
use crate::map::grid::StaticMap;
use crate::wire::placed_view;
use crate::wire::Outfit;
use crate::wire::PlacedModel;
use crate::wire::Session;
use crate::wire::SpeakType;
use crate::Direction;
use crate::Position;

verus! {

/// A request to the game.
#[derive(Debug)]
pub enum Command {
    Login { name: String, initial: InitialState, session: Session },
    Logout { id: u32 },
    Move { id: u32, direction: Direction },
    Turn { id: u32, direction: Direction },
    Say { id: u32, speak_type: SpeakType, text: String },
    /// Attack a creature, or with 0 none.
    SetTarget { id: u32, target_id: u32 },
    /// Walk after a creature, or with 0 after none.
    FollowTarget { id: u32, target_id: u32 },
    GoToPosition { id: u32, target: Position },
    /// Walk to where some steps end.
    GoToSteps { id: u32, steps: Vec<Direction> },
    ClearAutoWalk { id: u32 },
    ChangeOutfit { id: u32, outfit: Outfit },
    RequestOutfit { id: u32 },
    CombatTick { now_ms: u64 },
    /// Creatures that walk by themselves go on; of the monsters those whose id has the last
    /// digit `bucket`.
    MonsterAiTick { bucket: u8, now_ms: u64 },
    RegenerationTick { now_ms: u64 },
    LookAt { id: u32, x: u16, y: u16, z: u8, stackpos: u8 },
    LookBattle { id: u32, target_id: u32 },
    MoveThing { id: u32, from: Position, from_stackpos: u8, to: Position, count: u8 },
    UseItem { id: u32, pos_x: u16, pos_y: u16, pos_z: u8, stackpos: u8, index: u8 },
    CloseContainer { id: u32, cid: u8 },
    UpArrow { id: u32, cid: u8 },
    /// A line that starts with a slash.
    Gm { id: u32, text: String },
    ReloadLua,
    /// Keep a record of everyone before the end.
    Shutdown,
}

/// What is left to do once a request has been carried out.
#[derive(Debug)]
pub enum Reply {
    Done,
    LoggedIn { ack: LoginAck },
    /// Something went wrong in the script of an item.
    ScriptFailed { fault: LuaError },
    /// Load the scripts anew.
    ReloadScripts,
}

#[verifier::ext_equal]
pub ghost enum ReplyModel {
    Done,
    LoggedIn { snapshot: PlayerSnapshot, others: Seq<PlacedModel>, me: PlacedModel },
    ScriptFailed { fault: LuaError },
    ReloadScripts,
}

impl View for Reply {
    type V = ReplyModel;

    open spec fn view(&self) -> ReplyModel {
        match *self {
            Reply::Done => ReplyModel::Done,
            Reply::LoggedIn { ack } => ReplyModel::LoggedIn {
                snapshot: ack.snapshot,
                others: placed_view(ack.others@),
                me: ack.me@,
            },
            Reply::ScriptFailed { fault } => ReplyModel::ScriptFailed { fault },
            Reply::ReloadScripts => ReplyModel::ReloadScripts,
        }
    }
}

impl World {
    /// The game with its clock at `now`.
    pub open spec fn at_time(self, now: u64) -> World {
        World { now_ms: now, ..self }
    }

    /// There are ids left for whoever the command brings, and the dates it may set fit into
    /// the clock.
    pub open spec fn ready_for(self, cmd: Command) -> bool {
        match cmd {
            Command::Login { .. } => self.next_id < u32::MAX,
            Command::Gm { .. } => self.next_monster_id < u32::MAX,
            Command::CombatTick { now_ms } => self.clock_fits(now_ms) && self.next_monster_id
                + self.spawns.count() <= u32::MAX,
            _ => true,
        }
    }

    /// What a command does, and what is left to do. Commands in which chance or a script has a
    /// say, or that need ways, are not among them.
    pub open spec fn handled(self, cmd: Command) -> (World, ReplyModel) {
        match cmd {
            Command::Login { name, initial, session } => (
                self.logged_in(name@, initial, session@),
                ReplyModel::LoggedIn {
                    snapshot: PlayerSnapshot {
                        id: self.next_id,
                        position: self.arrival(initial),
                        direction: initial.direction,
                        outfit: initial.outfit,
                        health: initial.health,
                        max_health: initial.max_health,
                    },
                    others: self.login_sights(name@, initial, session@),
                    me: self.own_look(name@, initial),
                },
            ),
            Command::Logout { id } => (self.logout(id), ReplyModel::Done),
            Command::Move { id, direction } => (
                self.walk_cleared(id).stepped(id, direction),
                ReplyModel::Done,
            ),
            Command::Turn { id, direction } => (self.turned(id, direction), ReplyModel::Done),
            Command::Say { id, speak_type, text } => (
                self.said(id, speak_type, text@),
                ReplyModel::Done,
            ),
            Command::SetTarget { id, target_id } => (self.aimed(id, target_id), ReplyModel::Done),
            Command::ClearAutoWalk { id } => (self.walk_cleared(id), ReplyModel::Done),
            Command::ChangeOutfit { id, outfit } => (self.dressed(id, outfit), ReplyModel::Done),
            Command::RequestOutfit { id } => (self.wardrobe_told(id), ReplyModel::Done),
            Command::RegenerationTick { now_ms } => (
                self.at_time(now_ms).all_recovered(self.players.order, now_ms),
                ReplyModel::Done,
            ),
            Command::LookAt { id, x, y, z, stackpos } => (
                self.looked(id, Position { x, y, z }, stackpos),
                ReplyModel::Done,
            ),
            Command::LookBattle { id, target_id } => (
                self.looked_at_player(id, target_id),
                ReplyModel::Done,
            ),
            Command::MoveThing { id, from, from_stackpos, to, count } => (
                self.thing_moved(id, from, from_stackpos, to, count),
                ReplyModel::Done,
            ),
            Command::CloseContainer { id, cid } => (
                self.container_closed(id, cid),
                ReplyModel::Done,
            ),
            Command::UpArrow { id, cid } => (self.gone_up(id, cid), ReplyModel::Done),
            Command::Gm { id, text } => (
                self.commanded(id, text@),
                if self.asked(id, text@) == Some(GmVerb::ReloadLua) {
                    ReplyModel::ReloadScripts
                } else {
                    ReplyModel::Done
                },
            ),
            Command::ReloadLua => (self, ReplyModel::ReloadScripts),
            Command::Shutdown => (self.all_saved(), ReplyModel::Done),
            _ => (self, ReplyModel::Done),
        }
    }

    /// What a command does that needs ways: of one wish the first of `walks`, of a tick `hunts`
    /// for monsters and `walks` for players.
    pub open spec fn led(
        self,
        cmd: Command,
        hunts: Seq<Seq<Direction>>,
        walks: Seq<Seq<Direction>>,
    ) -> World {
        match cmd {
            Command::FollowTarget { id, target_id } => self.follow_settled(
                id,
                target_id,
                walks[0],
            ),
            Command::GoToPosition { id, target } => self.travel_settled(id, target, walks[0]),
            Command::GoToSteps { id, steps } => self.steps_settled(id, steps@, walks[0]),
            Command::MonsterAiTick { bucket, now_ms } => self.ticked(bucket, now_ms, hunts, walks),
            _ => self,
        }
    }

    /// The ways are what `search` may answer to the command.
    pub open spec fn led_by<F: Fn(&StaticMap, &PathQuery) -> VecDeque<Direction>>(
        self,
        search: F,
        cmd: Command,
        hunts: Seq<Seq<Direction>>,
        walks: Seq<Seq<Direction>>,
    ) -> bool {
        match cmd {
            Command::FollowTarget { id, target_id } => self.follow_answered(
                search,
                id,
                target_id,
                walks[0],
            ),
            Command::GoToPosition { id, target } => self.travel_answered(
                search,
                id,
                target,
                walks[0],
            ),
            Command::GoToSteps { id, steps } => self.steps_answered(search, id, steps@, walks[0]),
            Command::MonsterAiTick { bucket, now_ms } => self.tick_answered(
                search,
                bucket,
                now_ms,
                hunts,
                walks,
            ),
            _ => true,
        }
    }
}

impl World {
    /// Carrying out `cmd` gives `later`, and leaves `reply` to do.
    pub open spec fn becomes(self, cmd: Command, later: World, reply: ReplyModel) -> bool {
        later == self.handled(cmd).0 && reply == self.handled(cmd).1
    }
}

impl Command {
    /// The command needs a way, or several.
    pub open spec fn needs_ways(self) -> bool {
        self is FollowTarget || self is GoToPosition || self is GoToSteps || self is MonsterAiTick
    }

    /// The command has to do with single steps.
    pub open spec fn is_walk(self) -> bool {
        self is Move || self is Turn || self is ClearAutoWalk
    }

    /// The command has to do with things.
    pub open spec fn is_errand(self) -> bool {
        self is LookAt || self is LookBattle || self is MoveThing || self is CloseContainer
            || self is UpArrow
    }

    /// The command has to do with the players themselves.
    pub open spec fn is_social(self) -> bool {
        self is Login || self is Logout || self is Say || self is SetTarget || self is ChangeOutfit
            || self is RequestOutfit || self is Gm
    }

    /// The command comes from whoever runs the game.
    pub open spec fn is_upkeep(self) -> bool {
        self is RegenerationTick || self is ReloadLua || self is Shutdown
    }
}

impl Game {
    fn handle_walk(&mut self, cmd: Command) -> (reply: Reply)
        requires
            old(self).wf(),
            cmd.is_walk(),
        ensures
            final(self).wf(),
            old(self)@.becomes(cmd, final(self)@, reply@),
    {
        match cmd {
            Command::Move { id, direction } => {
                self.do_clear_auto_walk(id);
                self.do_move(id, direction);
                Reply::Done
            },
            Command::Turn { id, direction } => {
                self.do_turn(id, direction);
                Reply::Done
            },
            Command::ClearAutoWalk { id } => {
                self.do_clear_auto_walk(id);
                Reply::Done
            },
            _ => Reply::Done,
        }
    }

    fn handle_ways<F: Fn(&StaticMap, &PathQuery) -> VecDeque<Direction>>(
        &mut self,
        cmd: Command,
        search: F,
    )
        requires
            old(self).wf(),
            cmd.needs_ways(),
            forall|m: &StaticMap, q: &PathQuery| #[trigger] call_requires(search, (m, q)),
        ensures
            final(self).wf(),
            exists|hunts: Seq<Seq<Direction>>, walks: Seq<Seq<Direction>>| #[trigger]
                old(self)@.led_by(search, cmd, hunts, walks) && final(self)@ == old(self)@.led(
                    cmd,
                    hunts,
                    walks,
                ),
    {
        let ghost w = old(self)@;
        let ghost none: Seq<Seq<Direction>> = Seq::empty();
        match cmd {
            Command::FollowTarget { id, target_id } => {
                self.do_follow_target(id, target_id, search);
                proof {
                    let way = choose|way: Seq<Direction>| #[trigger]
                        w.follow_answered(search, id, target_id, way) && self@
                            == w.follow_settled(id, target_id, way);
                    assert(w.led_by(search, cmd, none, seq![way]));
                }
            },
            Command::GoToPosition { id, target } => {
                self.do_go_to_position(id, target, search);
                proof {
                    let way = choose|way: Seq<Direction>| #[trigger]
                        w.travel_answered(search, id, target, way) && self@ == w.travel_settled(
                            id,
                            target,
                            way,
                        );
                    assert(w.led_by(search, cmd, none, seq![way]));
                }
            },
            Command::GoToSteps { id, ref steps } => {
                self.do_go_to_steps(id, steps, search);
                proof {
                    let way = choose|way: Seq<Direction>| #[trigger]
                        w.steps_answered(search, id, steps@, way) && self@ == w.steps_settled(
                            id,
                            steps@,
                            way,
                        );
                    assert(w.led_by(search, cmd, none, seq![way]));
                }
            },
            Command::MonsterAiTick { bucket, now_ms } => {
                self.on_monster_ai_tick(bucket, now_ms, search);
                proof {
                    let (hunts, walks) = choose|
                        hunts: Seq<Seq<Direction>>,
                        walks: Seq<Seq<Direction>>,
                    | #[trigger]
                        w.tick_answered(search, bucket, now_ms, hunts, walks) && self@ == w.ticked(
                            bucket,
                            now_ms,
                            hunts,
                            walks,
                        );
                    assert(w.led_by(search, cmd, hunts, walks));
                }
            },
            _ => {},
        }
    }

    fn handle_errand(&mut self, cmd: Command) -> (reply: Reply)
        requires
            old(self).wf(),
            cmd.is_errand(),
        ensures
            final(self).wf(),
            old(self)@.becomes(cmd, final(self)@, reply@),
    {
        match cmd {
            Command::LookAt { id, x, y, z, stackpos } => {
                self.do_look(id, x, y, z, stackpos);
                Reply::Done
            },
            Command::LookBattle { id, target_id } => {
                self.do_look_battle(id, target_id);
                Reply::Done
            },
            Command::MoveThing { id, from, from_stackpos, to, count } => {
                self.do_move_thing(id, from, from_stackpos, to, count);
                Reply::Done
            },
            Command::CloseContainer { id, cid } => {
                self.do_close_container(id, cid);
                Reply::Done
            },
            Command::UpArrow { id, cid } => {
                self.do_up_arrow(id, cid);
                Reply::Done
            },
            _ => Reply::Done,
        }
    }

    fn handle_social(&mut self, cmd: Command) -> (reply: Reply)
        requires
            old(self).wf(),
            old(self)@.ready_for(cmd),
            cmd.is_social(),
        ensures
            final(self).wf(),
            old(self)@.becomes(cmd, final(self)@, reply@),
    {
        match cmd {
            Command::Login { name, initial, session } => {
                let ack = self.login(name, initial, session);
                Reply::LoggedIn { ack }
            },
            Command::Logout { id } => {
                self.logout(id);
                Reply::Done
            },
            Command::Say { id, speak_type, text } => {
                self.do_say(id, speak_type, text);
                Reply::Done
            },
            Command::SetTarget { id, target_id } => {
                self.do_set_target(id, target_id);
                Reply::Done
            },
            Command::ChangeOutfit { id, outfit } => {
                self.do_change_outfit(id, outfit);
                Reply::Done
            },
            Command::RequestOutfit { id } => {
                self.do_request_outfit(id);
                Reply::Done
            },
            Command::Gm { id, text } => {
                if self.do_gm_command(id, text) {
                    Reply::ReloadScripts
                } else {
                    Reply::Done
                }
            },
            _ => Reply::Done,
        }
    }

    fn handle_upkeep(&mut self, cmd: Command) -> (reply: Reply)
        requires
            old(self).wf(),
            cmd.is_upkeep(),
        ensures
            final(self).wf(),
            old(self)@.becomes(cmd, final(self)@, reply@),
    {
        match cmd {
            Command::RegenerationTick { now_ms } => {
                self.set_clock(now_ms);
                self.on_regen_tick(now_ms);
                Reply::Done
            },
            Command::ReloadLua => Reply::ReloadScripts,
            Command::Shutdown => {
                self.save_all();
                Reply::Done
            },
            _ => Reply::Done,
        }
    }

    fn set_clock(&mut self, now_ms: u64)
        requires
            old(self).wf(),
        ensures
            final(self).wf(),
            final(self)@ == old(self)@.at_time(now_ms),
    {
        self.now_ms = now_ms;
    }

    /// Are there ids left for whoever the command brings, and do the dates it may set fit into
    /// the clock?
    pub fn is_ready(&self, cmd: &Command) -> (r: bool)
        requires
            self.wf(),
        ensures
            r == self@.ready_for(*cmd),
    {
        match cmd {
            Command::Login { .. } => self.next_id < 0xFFFF_FFFF,
            Command::Gm { .. } => self.next_monster_id < 0xFFFF_FFFF,
            Command::CombatTick { now_ms } => {
                let n: usize = self.spawns.len();
                n <= 0xFFFF_FFFF && self.next_monster_id <= 0xFFFF_FFFF - n as u32
                    && self.holds_dates(*now_ms)
            },
            _ => true,
        }
    }

    /// Does the clock hold the date at which each spawn would be due?
    fn holds_dates(&self, now_ms: u64) -> (r: bool)
        requires
            self.wf(),
        ensures
            r == self@.clock_fits(now_ms),
    {
        let ghost order = self.spawns@.order;
        let mut i: usize = 0;
        while i < self.spawns.len()
            invariant
                self.wf(),
                order == self.spawns@.order,
                i <= order.len(),
                forall|k: int|
                    0 <= k < i ==> now_ms + self@.spawns.at(
                        #[trigger] order[k],
                    ).respawn_interval_ms <= u64::MAX,
            decreases order.len() - i,
        {
            let s = self.spawns.entry_at(i);
            if now_ms > 0xFFFF_FFFF_FFFF_FFFF - s.respawn_interval_ms {
                assert(self@.spawns.has(order[i as int]));
                return false;
            }
            i = i + 1;
        }
        assert forall|id: u32|
            #![trigger self@.spawns.at(id)]
            self@.spawns.has(id) implies now_ms + self@.spawns.at(id).respawn_interval_ms
            <= u64::MAX by {
            let k = order.index_of(id);
            assert(order[k] == id);
        }
        true
    }

    /// Carry out a command, by ways that `search` finds where it needs some. The reply says
    /// what is left to do.
    pub fn handle<F: Fn(&StaticMap, &PathQuery) -> VecDeque<Direction>>(
        &mut self,
        cmd: Command,
        search: F,
    ) -> (reply: Reply)
        requires
            old(self).wf(),
            old(self)@.ready_for(cmd),
            forall|m: &StaticMap, q: &PathQuery| #[trigger] call_requires(search, (m, q)),
        ensures
            final(self).wf(),
            cmd matches Command::CombatTick { now_ms } ==> reply is Done && exists|
                po: Seq<Outcome>,
                mo: Seq<Outcome>,
            | #[trigger]
                old(self)@.at_time(now_ms).fought_possibly(now_ms, po, mo) && final(self)@ == old(
                    self,
                )@.at_time(now_ms).fought(now_ms, po, mo),
            cmd.needs_ways() ==> reply is Done && exists|
                hunts: Seq<Seq<Direction>>,
                walks: Seq<Seq<Direction>>,
            | #[trigger]
                old(self)@.led_by(search, cmd, hunts, walks) && final(self)@ == old(self)@.led(
                    cmd,
                    hunts,
                    walks,
                ),
            cmd matches Command::UseItem { id, pos_x, pos_y, pos_z, stackpos, index } ==> {
                let pos = Position { x: pos_x, y: pos_y, z: pos_z };
                match reply {
                    Reply::Done => old(self)@.use_may_lead(
                        id,
                        pos,
                        stackpos,
                        index,
                        None,
                        final(self)@,
                    ),
                    Reply::ScriptFailed { fault } => old(self)@.use_may_lead(
                        id,
                        pos,
                        stackpos,
                        index,
                        Some(fault),
                        final(self)@,
                    ),
                    _ => false,
                }
            },
            !(cmd is CombatTick) && !(cmd is UseItem) && !cmd.needs_ways() ==> old(self)@.becomes(
                cmd,
                final(self)@,
                reply@,
            ),
    {
        match cmd {
            Command::FollowTarget { .. }
            | Command::GoToPosition { .. }
            | Command::GoToSteps { .. }
            | Command::MonsterAiTick { .. } => {
                self.handle_ways(cmd, search);
                Reply::Done
            },
            Command::Move { .. }
            | Command::Turn { .. }
            | Command::ClearAutoWalk { .. } => self.handle_walk(cmd),
            Command::LookAt { .. }
            | Command::LookBattle { .. }
            | Command::MoveThing { .. }
            | Command::CloseContainer { .. }
            | Command::UpArrow { .. } => self.handle_errand(cmd),
            Command::RegenerationTick { .. }
            | Command::ReloadLua
            | Command::Shutdown => self.handle_upkeep(cmd),
            Command::UseItem { id, pos_x, pos_y, pos_z, stackpos, index } => {
                match self.do_use_item(id, pos_x, pos_y, pos_z, stackpos, index) {
                    Some(fault) => Reply::ScriptFailed { fault },
                    None => Reply::Done,
                }
            },
            Command::CombatTick { now_ms } => {
                self.set_clock(now_ms);
                self.on_combat_tick(now_ms);
                Reply::Done
            },
            _ => self.handle_social(cmd),
        }
    }
}

} // verus!
