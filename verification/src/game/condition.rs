//! Timed conditions on a player.

use vstd::prelude::*;

verus! {

/// Regeneration by food: every `health_interval_ms` it heals `health_gain` hit points, until
/// it expires or has healed `total_heal_cap` in all.
#[derive(Debug, Clone, Copy, PartialEq, Eq, Structural)]
pub struct ConditionRegeneration {
    pub expires_at_ms: u64,
    pub health_gain: i32,
    pub health_interval_ms: u64,
    pub last_health_tick: u64,
    pub total_heal: i32,
    pub total_heal_cap: i32,
}

impl ConditionRegeneration {
    /// How much a tick at `now` heals: nothing before the interval has passed or once the
    /// cap is reached.
    pub open spec fn heals(self, now: u64) -> int {
        let elapsed = if now >= self.last_health_tick {
            now - self.last_health_tick
        } else {
            0
        };
        let left = self.total_heal_cap - self.total_heal;
        if self.health_gain > 0 && elapsed >= self.health_interval_ms && left > 0 {
            if self.health_gain <= left {
                self.health_gain as int
            } else {
                left
            }
        } else {
            0
        }
    }

    /// The condition after a tick at `now`.
    pub open spec fn ticked(self, now: u64) -> ConditionRegeneration {
        if self.heals(now) > 0 {
            ConditionRegeneration {
                total_heal: (self.total_heal + self.heals(now)) as i32,
                last_health_tick: now,
                ..self
            }
        } else {
            self
        }
    }

    /// The condition, `extra` longer, with the interval started over at `now`.
    pub open spec fn extended(self, extra: u64, now: u64) -> ConditionRegeneration {
        ConditionRegeneration {
            expires_at_ms: if self.expires_at_ms + extra <= u64::MAX {
                (self.expires_at_ms + extra) as u64
            } else {
                u64::MAX
            },
            last_health_tick: now,
            ..self
        }
    }

    /// A condition that starts at `now` and lasts `dur`.
    pub fn new(now: u64, dur: u64, hg: i32, hi: u64, cap: i32) -> (c: Self)
        requires
            now + dur <= u64::MAX,
        ensures
            c == (ConditionRegeneration {
                expires_at_ms: (now + dur) as u64,
                health_gain: hg,
                health_interval_ms: hi,
                last_health_tick: now,
                total_heal: 0,
                total_heal_cap: cap,
            }),
    {
        ConditionRegeneration {
            expires_at_ms: now + dur,
            health_gain: hg,
            health_interval_ms: hi,
            last_health_tick: now,
            total_heal: 0,
            total_heal_cap: cap,
        }
    }

    /// Last `extra` longer; the interval starts over at `now`.
    pub fn extend(&mut self, extra: u64, now: u64)
        ensures
            *final(self) == old(self).extended(extra, now),
    {
        self.expires_at_ms = self.expires_at_ms.saturating_add(extra);
        self.last_health_tick = now;
    }

    pub fn is_expired(&self, now: u64) -> (r: bool)
        ensures
            r == (now >= self.expires_at_ms),
    {
        now >= self.expires_at_ms
    }

    pub fn remaining_ms(&self, now: u64) -> (r: u64)
        ensures
            r == (if self.expires_at_ms >= now {
                self.expires_at_ms - now
            } else {
                0
            }),
    {
        self.expires_at_ms.saturating_sub(now)
    }

    /// Run one tick and return how many hit points it heals.
    pub fn execute_tick(&mut self, now: u64) -> (healed: i32)
        ensures
            healed == old(self).heals(now),
            *final(self) == old(self).ticked(now),
    {
        if self.health_gain > 0 && now.saturating_sub(self.last_health_tick)
            >= self.health_interval_ms {
            let left: i64 = self.total_heal_cap as i64 - self.total_heal as i64;
            if left > 0 {
                let a: i32 = if self.health_gain as i64 <= left {
                    self.health_gain
                } else {
                    left as i32
                };
                self.total_heal = self.total_heal + a;
                self.last_health_tick = now;
                return a;
            }
        }
        0
    }
}

/// A condition that keeps to its cap keeps to it on every tick.
pub proof fn law_tick_keeps_cap(c: ConditionRegeneration, now: u64)
    requires
        c.total_heal <= c.total_heal_cap,
    ensures
        c.ticked(now).total_heal <= c.ticked(now).total_heal_cap,
        c.ticked(now).total_heal == c.total_heal + c.heals(now),
        c.heals(now) >= 0,
{
}

/// After a tick that healed, the condition heals no more until its interval has passed.
pub proof fn law_tick_waits_for_interval(c: ConditionRegeneration, now: u64, later: u64)
    requires
        c.heals(now) > 0,
        now <= later,
        later - now < c.health_interval_ms,
    ensures
        c.ticked(now).heals(later) == 0,
{
}

} // verus!
