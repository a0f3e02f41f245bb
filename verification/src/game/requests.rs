//! What item scripts ask of the game: travels, meals and messages.

use vstd::prelude::*;
use vstd::string::StrSliceExecFns;
use vstd::utf8::encode_utf8;

use super::condition::ConditionRegeneration;
use super::lua::GameAction;
use super::model::lemma_set_player;
use super::model::World;
use super::state::PlayerModel;
use super::Game;
use crate::wire::Packet;
use crate::wire::PacketModel;

verus! {

/// The first condition from index `from` on that has not expired at `now`.
pub open spec fn first_active(s: Seq<ConditionRegeneration>, now: u64, from: int) -> Option<int>
    decreases s.len() - from,
{
    if from >= s.len() {
        None
    } else if now < s[from].expires_at_ms {
        Some(from)
    } else {
        first_active(s, now, from + 1)
    }
}

/// The conditions of a player who eats at `now`: an active one lasts `duration` longer, else a
/// new one begins.
pub open spec fn after_meal(
    s: Seq<ConditionRegeneration>,
    now: u64,
    gain: i32,
    interval: u64,
    duration: u64,
    cap: i32,
) -> Seq<ConditionRegeneration> {
    match first_active(s, now, 0) {
        Some(i) => s.update(i, s[i].extended(duration, now)),
        None => s.push(
            ConditionRegeneration {
                expires_at_ms: (now + duration) as u64,
                health_gain: gain,
                health_interval_ms: interval,
                last_health_tick: now,
                total_heal: 0,
                total_heal_cap: cap,
            },
        ),
    }
}

/// Whoever eats again while a meal still works is fed for as much longer, and by no other meal.
pub proof fn law_meals_add_up(
    c: ConditionRegeneration,
    now: u64,
    gain: i32,
    interval: u64,
    duration: u64,
    cap: i32,
)
    requires
        now < c.expires_at_ms,
        c.expires_at_ms + duration <= u64::MAX,
    ensures
        after_meal(seq![c], now, gain, interval, duration, cap) == seq![
            ConditionRegeneration {
                expires_at_ms: (c.expires_at_ms + duration) as u64,
                last_health_tick: now,
                ..c
            },
        ],
{
}

fn eat(
    v: &mut Vec<ConditionRegeneration>,
    now: u64,
    gain: i32,
    interval: u64,
    duration: u64,
    cap: i32,
)
    requires
        now + duration <= u64::MAX,
    ensures
        final(v)@ == after_meal(old(v)@, now, gain, interval, duration, cap),
{
    let mut i: usize = 0;
    while i < v.len()
        invariant
            i <= v@.len(),
            v@ == old(v)@,
            first_active(v@, now, 0) == first_active(v@, now, i as int),
        decreases v@.len() - i,
    {
        if !v[i].is_expired(now) {
            let mut c = v[i];
            c.extend(duration, now);
            v.set(i, c);
            return;
        }
        i = i + 1;
    }
    v.push(ConditionRegeneration::new(now, duration, gain, interval, cap));
}

impl World {
    /// Player `id` eats: it regenerates `gain` every `interval` for `duration`, `cap` in all,
    /// or as it does already, for `duration` longer.
    pub open spec fn fed(self, id: u32, gain: i32, interval: u64, duration: u64, cap: i32) -> World {
        if self.players.has(id) {
            let p = self.players.at(id);
            self.set_player(
                id,
                PlayerModel {
                    conditions: after_meal(
                        p.conditions,
                        self.now_ms,
                        gain,
                        interval,
                        duration,
                        cap,
                    ),
                    ..p
                },
            )
        } else {
            self
        }
    }

    /// What a script asked for, done.
    pub open spec fn script_obeyed(self, action: GameAction) -> World {
        match action {
            GameAction::Teleport { player_id, landing } => self.teleported(player_id, landing),
            GameAction::Feed {
                player_id,
                health_gain,
                interval_ms,
                duration_ms,
                total_heal_cap,
            } => self.fed(player_id, health_gain, interval_ms, duration_ms, total_heal_cap),
            GameAction::TextMessage { player_id, message_type, text } => self.push(
                player_id,
                PacketModel::TextMessage { mode: message_type, text: encode_utf8(text@) },
            ),
        }
    }

    /// The clock holds the end of what a script asks for.
    pub open spec fn can_obey(self, action: GameAction) -> bool {
        action matches GameAction::Feed { duration_ms, .. } ==> self.now_ms + duration_ms
            <= u64::MAX
    }

    /// What scripts asked for, done in turn, but for what the clock does not hold.
    pub open spec fn all_obeyed(self, actions: Seq<GameAction>) -> World
        decreases actions.len(),
    {
        if actions.len() == 0 {
            self
        } else {
            let w = self.all_obeyed(actions.drop_last());
            if w.can_obey(actions.last()) {
                w.script_obeyed(actions.last())
            } else {
                w
            }
        }
    }
}

impl Game {
    /// Let player `id` eat: it regenerates for `duration_ms` from now on, or for as much longer.
    pub fn do_feed(
        &mut self,
        id: u32,
        health_gain: i32,
        interval_ms: u64,
        duration_ms: u64,
        total_heal_cap: i32,
    )
        requires
            old(self).wf(),
            old(self)@.now_ms + duration_ms <= u64::MAX,
        ensures
            final(self).wf(),
            final(self)@ == old(self)@.fed(
                id,
                health_gain,
                interval_ms,
                duration_ms,
                total_heal_cap,
            ),
    {
        let now: u64 = self.now_ms;
        proof {
            if self@.players.has(id) {
                let p = self@.players.at(id);
                lemma_set_player(
                    self@,
                    id,
                    PlayerModel {
                        conditions: after_meal(
                            p.conditions,
                            now,
                            health_gain,
                            interval_ms,
                            duration_ms,
                            total_heal_cap,
                        ),
                        ..p
                    },
                );
            }
        }
        match self.players.get_mut(id) {
            Some(p) => eat(
                &mut p.conditions,
                now,
                health_gain,
                interval_ms,
                duration_ms,
                total_heal_cap,
            ),
            None => {},
        }
    }

    /// Do what a script asked for.
    pub fn do_script_action(&mut self, action: &GameAction)
        requires
            old(self).wf(),
            old(self)@.can_obey(*action),
        ensures
            final(self).wf(),
            final(self)@ == old(self)@.script_obeyed(*action),
    {
        match action {
            GameAction::Teleport { player_id, landing } => self.do_teleport(*player_id, *landing),
            GameAction::Feed {
                player_id,
                health_gain,
                interval_ms,
                duration_ms,
                total_heal_cap,
            } => self.do_feed(
                *player_id,
                *health_gain,
                *interval_ms,
                *duration_ms,
                *total_heal_cap,
            ),
            GameAction::TextMessage { player_id, message_type, text } => {
                let text = text.as_str().as_bytes_vec();
                self.push(*player_id, Packet::TextMessage { mode: *message_type, text });
            },
        }
    }

    /// Do what scripts asked for, in turn. What ends beyond the clock is left out.
    pub fn do_script_actions(&mut self, actions: &Vec<GameAction>)
        requires
            old(self).wf(),
        ensures
            final(self).wf(),
            final(self)@ == old(self)@.all_obeyed(actions@),
    {
        let mut i: usize = 0;
        while i < actions.len()
            invariant
                i <= actions@.len(),
                self.wf(),
                self@ == old(self)@.all_obeyed(actions@.take(i as int)),
            decreases actions@.len() - i,
        {
            assert(actions@.take(i + 1).drop_last() =~= actions@.take(i as int));
            let action = &actions[i];
            let fits = match action {
                GameAction::Feed { duration_ms, .. } => self.now_ms <= 0xFFFF_FFFF_FFFF_FFFF
                    - *duration_ms,
                _ => true,
            };
            if fits {
                self.do_script_action(action);
            }
            i = i + 1;
        }
        assert(actions@.take(actions@.len() as int) =~= actions@);
    }
}

} // verus!
