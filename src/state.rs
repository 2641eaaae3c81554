//! Timed state machines and counters: player respawn, enemy count, explosion
//! animation.
use vstd::prelude::*;

verus! {

/// Time after the player was shot before a new player may appear, in microseconds.
pub const PLAYER_RESPAWN_DELAY: u64 = 2_000_000;

/// Most enemies alive at once.
pub const ENEMY_MAX: u32 = 2;

/// Time between two frames of an explosion, in microseconds.
pub const EXPLOSION_INTERVAL: u64 = 62_500;

/// Frames of the explosion sprite sheet.
pub const EXPLOSION_LEN: u64 = 16;

/// Whether the player is alive, and when it was last shot.
#[derive(Clone, Copy, Debug, PartialEq, Eq, Structural)]
pub struct PlayerState {
    pub on: bool,
    /// Simulation time of the last death in microseconds; `None` when the
    /// player has not died since it last appeared.
    pub last_shot: Option<u64>,
}

/// A new player may appear at time `now`.
pub open spec fn may_respawn_spec(s: PlayerState, now: int) -> bool {
    !s.on && match s.last_shot {
        None => true,
        Some(t) => now > t + PLAYER_RESPAWN_DELAY,
    }
}

impl Default for PlayerState {
    fn default() -> (r: Self)
        ensures
            r == (PlayerState { on: false, last_shot: None }),
    {
        PlayerState { on: false, last_shot: None }
    }
}

impl PlayerState {
    /// The player was hit at time `time`.
    pub fn shot(&mut self, time: u64)
        ensures
            *final(self) == (PlayerState { on: false, last_shot: Some(time) }),
    {
        self.on = false;
        self.last_shot = Some(time);
    }

    /// A new player appeared.
    pub fn spawned(&mut self)
        ensures
            *final(self) == (PlayerState { on: true, last_shot: None }),
    {
        self.on = true;
        self.last_shot = None;
    }

    /// Whether a new player may appear at time `now`: no player is alive, and
    /// either none has died yet or the respawn delay has passed since the last
    /// death.
    pub fn may_respawn(&self, now: u64) -> (r: bool)
        ensures
            r == may_respawn_spec(*self, now as int),
    {
        if self.on {
            return false;
        }
        match self.last_shot {
            None => true,
            Some(t) => now > t && now - t > PLAYER_RESPAWN_DELAY,
        }
    }
}

/// The number of enemies alive.
#[derive(Clone, Copy, Debug, PartialEq, Eq, Structural)]
pub struct EnemyCount {
    pub count: u32,
}

impl EnemyCount {
    pub open spec fn wf(self) -> bool {
        self.count <= ENEMY_MAX
    }

    pub fn new() -> (r: Self)
        ensures
            r.count == 0,
            r.wf(),
    {
        EnemyCount { count: 0 }
    }

    /// Whether another enemy may appear.
    pub fn has_room(&self) -> (r: bool)
        ensures
            r == (self.count < ENEMY_MAX),
    {
        self.count < ENEMY_MAX
    }

    /// Counts one enemy more, unless the maximum is reached; returns whether
    /// it did.
    pub fn try_add(&mut self) -> (r: bool)
        requires
            old(self).wf(),
        ensures
            r == (old(self).count < ENEMY_MAX),
            final(self).count == if r { old(self).count + 1 } else { old(self).count as int },
            final(self).wf(),
    {
        if self.count < ENEMY_MAX {
            self.count = self.count + 1;
            true
        } else {
            false
        }
    }

    /// Counts one enemy less.
    pub fn remove_one(&mut self)
        requires
            old(self).wf(),
            old(self).count > 0,
        ensures
            final(self).count == old(self).count - 1,
            final(self).wf(),
    {
        self.count = self.count - 1;
    }
}

/// The animation of one explosion: time since the last frame change, and the
/// frame shown.
#[derive(Clone, Copy, Debug, PartialEq, Eq, Structural)]
pub struct ExplosionTimer {
    pub elapsed: u64,
    pub frame: u64,
}

/// The animation after `delta` microseconds: the time since the last frame
/// change wraps at the interval, and the frame advances by one when the
/// interval expired at least once.
pub open spec fn tick_spec(t: ExplosionTimer, delta: int) -> ExplosionTimer {
    ExplosionTimer {
        elapsed: ((t.elapsed + delta) % (EXPLOSION_INTERVAL as int)) as u64,
        frame: (if t.elapsed + delta >= EXPLOSION_INTERVAL {
            t.frame + 1
        } else {
            t.frame as int
        }) as u64,
    }
}

impl ExplosionTimer {
    pub open spec fn wf(self) -> bool {
        self.elapsed < EXPLOSION_INTERVAL && self.frame < EXPLOSION_LEN
    }

    pub fn new() -> (r: Self)
        ensures
            r == (ExplosionTimer { elapsed: 0, frame: 0 }),
            r.wf(),
    {
        ExplosionTimer { elapsed: 0, frame: 0 }
    }

    /// Lets `delta` microseconds pass. When the interval expires once or more,
    /// the frame advances by one; returns whether the animation has then run
    /// past its last frame, so that the explosion is to be removed.
    pub fn tick(&mut self, delta: u64) -> (done: bool)
        requires
            old(self).wf(),
        ensures
            *final(self) == tick_spec(*old(self), delta as int),
            done == (final(self).frame >= EXPLOSION_LEN),
            !done ==> final(self).wf(),
    {
        let whole: u64 = delta / EXPLOSION_INTERVAL;
        let rest: u64 = self.elapsed + delta % EXPLOSION_INTERVAL;
        let expired: bool = whole > 0 || rest >= EXPLOSION_INTERVAL;
        self.elapsed = rest % EXPLOSION_INTERVAL;
        if expired {
            self.frame = self.frame + 1;
        }
        self.frame >= EXPLOSION_LEN
    }
}

} // verus!
