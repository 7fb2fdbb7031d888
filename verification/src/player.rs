use vstd::prelude::*;

verus! {

/// Horizontal speed while a direction is held, in milli-units per second
/// (250 world units per second). There is no horizontal acceleration or
/// friction: direction changes are instantaneous.
pub const MOVE_SPEED: i64 = 250_000;

/// Take-off speed gained per millisecond of tick time when the player is
/// grounded and holding jump, in milli-units per second. Equivalent to a
/// jump impulse of 20000 world units per second per second of tick time.
pub const JUMP_IMPULSE_PER_MS: i64 = 20_000;

/// Extra upward speed per millisecond of tick while the jump is still held
/// in the air, in milli-units per second (100 world units per second per
/// second).
pub const HELD_ACCEL_PER_MS: i64 = 100;

/// Downward speed gained per millisecond of tick while falling, in
/// milli-units per second (2500 world units per second per second).
pub const FALL_ACCEL_PER_MS: i64 = 2_500;

/// Holding jump for at least this long stops extending the jump (0.175 s).
pub const MAX_JUMP_HOLD_MS: u32 = 175;

/// Half of the player's square bounding box (12.5 world units), micro-units.
pub const PLAYER_HALF: i64 = 12_500_000;

/// Velocities saturate at this magnitude (milli-units per second).
/// Fall speed has no gameplay clamp; this bound only keeps the arithmetic
/// inside the machine range and sits far beyond anything reachable in play.
pub const VEL_LIMIT: i64 = 1_000_000_000_000;

/// Positions saturate at this magnitude (micro-units), one billion world
/// units: a machine-range bound, not a gameplay rule.
pub const POS_LIMIT: i64 = 1_000_000_000_000_000;

/// Longest tick duration a single step accepts, in milliseconds.
pub const MAX_TICK_MS: u32 = 1_000;

/// The jump-hold stopwatch saturates here; every value at or above
/// `MAX_JUMP_HOLD_MS` behaves identically, so saturation is unobservable.
pub const JUMP_HOLD_CAP_MS: u32 = 1_000_000;

/// The player: position, velocity, ground contact, jump-hold stopwatch and
/// the sampled input vector. Exactly one instance exists during a round.
#[derive(Debug, Clone, Copy, Eq, PartialEq, Structural)]
pub struct Player {
    /// Center of the player's box, in micro-units.
    pub x: i64,
    pub y: i64,
    /// Velocity, in milli-units per second.
    pub vx: i64,
    pub vy: i64,
    /// Whether a bottom wall contact supported the player this tick.
    pub grounded: bool,
    /// How long the jump input has been held continuously, in milliseconds,
    /// since the last ground contact or release.
    pub jump_held_ms: u32,
    /// Sampled horizontal input: -1, 0 or 1.
    pub input_x: i64,
    /// Sampled jump input: 0 or 1.
    pub input_y: i64,
}

/// Mathematical image of a `Player`: the same record over unbounded
/// integers.
pub ghost struct PlayerModel {
    pub x: int,
    pub y: int,
    pub vx: int,
    pub vy: int,
    pub grounded: bool,
    pub jump_held_ms: int,
    pub input_x: int,
    pub input_y: int,
}

impl View for Player {
    type V = PlayerModel;

    open spec fn view(&self) -> PlayerModel {
        PlayerModel {
            x: self.x as int,
            y: self.y as int,
            vx: self.vx as int,
            vy: self.vy as int,
            grounded: self.grounded,
            jump_held_ms: self.jump_held_ms as int,
            input_x: self.input_x as int,
            input_y: self.input_y as int,
        }
    }
}

/// A player is well formed when its state sits inside the machine ranges
/// the motion arithmetic is proved overflow-free for, and its input vector
/// is a sampled direction.
pub open spec fn player_wf(p: PlayerModel) -> bool {
    &&& -POS_LIMIT <= p.x <= POS_LIMIT
    &&& -POS_LIMIT <= p.y <= POS_LIMIT
    &&& -VEL_LIMIT <= p.vx <= VEL_LIMIT
    &&& -VEL_LIMIT <= p.vy <= VEL_LIMIT
    &&& 0 <= p.jump_held_ms <= JUMP_HOLD_CAP_MS
    &&& (p.input_x == -1 || p.input_x == 0 || p.input_x == 1)
    &&& (p.input_y == 0 || p.input_y == 1)
}

/// Clamp `v` to the interval `[-lim, lim]`.
pub open spec fn clamp_mag(v: int, lim: int) -> int {
    if v > lim {
        lim
    } else if v < -lim {
        -lim
    } else {
        v
    }
}

/// Advance the jump-hold stopwatch, saturating at its cap.
pub open spec fn hold_adv(held: int, dt: int) -> int {
    if held + dt > JUMP_HOLD_CAP_MS {
        JUMP_HOLD_CAP_MS as int
    } else {
        held + dt
    }
}

/// One motion step of duration `dt` milliseconds, applied after collision
/// correction has adjusted input, velocity and position for the tick.
///
/// - Horizontal velocity is always `input_x * MOVE_SPEED`.
/// - Grounded and holding jump: the take-off impulse is re-applied and the
///   hold stopwatch advances. Grounded without jump: vertical velocity is
///   zero.
/// - Airborne with the hold window still open (0 < held < max) and jump
///   held: the held-jump boost is added and the stopwatch advances.
/// - Airborne otherwise — jump released or the hold window closed:
///   gravity applies and the stopwatch resets.
/// - Position then integrates by the new velocity over `dt`.
pub open spec fn move_spec(p: PlayerModel, dt: int) -> PlayerModel {
    let vx = p.input_x * MOVE_SPEED;
    let (vy, held): (int, int) = if p.grounded {
        if p.input_y > 0 {
            (JUMP_IMPULSE_PER_MS * dt, hold_adv(p.jump_held_ms, dt))
        } else {
            (0, p.jump_held_ms)
        }
    } else {
        if 0 < p.jump_held_ms && p.jump_held_ms < MAX_JUMP_HOLD_MS && p.input_y > 0 {
            (clamp_mag(p.vy + HELD_ACCEL_PER_MS * dt, VEL_LIMIT as int),
                hold_adv(p.jump_held_ms, dt))
        } else {
            (clamp_mag(p.vy - FALL_ACCEL_PER_MS * dt, VEL_LIMIT as int), 0)
        }
    };
    PlayerModel {
        x: clamp_mag(p.x + vx * dt, POS_LIMIT as int),
        y: clamp_mag(p.y + vy * dt, POS_LIMIT as int),
        vx: vx,
        vy: vy,
        jump_held_ms: held,
        ..p
    }
}

/// Clamp a value to `[-lim, lim]`.
fn clamp_i64(v: i64, lim: i64) -> (r: i64)
    requires
        lim >= 0,
    ensures
        r as int == clamp_mag(v as int, lim as int),
{
    if v > lim {
        lim
    } else if v < -lim {
        -lim
    } else {
        v
    }
}

/// Integrate input, jump state and gravity into velocity and position for
/// one tick of `dt_ms` milliseconds.
pub fn move_player(p: &mut Player, dt_ms: u32)
    requires
        player_wf(old(p)@),
        dt_ms <= MAX_TICK_MS,
    ensures
        final(p)@ == move_spec(old(p)@, dt_ms as int),
        player_wf(final(p)@),
{
    let dt = dt_ms as i64;
    p.vx = p.input_x * MOVE_SPEED;
    if p.grounded {
        if p.input_y > 0 {
            p.vy = JUMP_IMPULSE_PER_MS * dt;
            if p.jump_held_ms > JUMP_HOLD_CAP_MS - dt_ms {
                p.jump_held_ms = JUMP_HOLD_CAP_MS;
            } else {
                p.jump_held_ms = p.jump_held_ms + dt_ms;
            }
        } else {
            p.vy = 0;
        }
    } else {
        if 0 < p.jump_held_ms && p.jump_held_ms < MAX_JUMP_HOLD_MS && p.input_y > 0 {
            p.vy = clamp_i64(p.vy + HELD_ACCEL_PER_MS * dt, VEL_LIMIT);
            if p.jump_held_ms > JUMP_HOLD_CAP_MS - dt_ms {
                p.jump_held_ms = JUMP_HOLD_CAP_MS;
            } else {
                p.jump_held_ms = p.jump_held_ms + dt_ms;
            }
        } else {
            p.vy = clamp_i64(p.vy - FALL_ACCEL_PER_MS * dt, VEL_LIMIT);
            p.jump_held_ms = 0;
        }
    }
    proof {
        assert(-250_000_000 <= p.vx * dt <= 250_000_000) by (nonlinear_arith)
            requires
                -MOVE_SPEED <= p.vx <= MOVE_SPEED,
                0 <= dt <= 1_000,
        {}
        assert(-1_000_000_000_000_000 <= p.vy * dt <= 1_000_000_000_000_000)
            by (nonlinear_arith)
            requires
                -VEL_LIMIT <= p.vy <= VEL_LIMIT,
                0 <= dt <= 1_000,
        {}
    }
    p.x = clamp_i64(p.x + p.vx * dt, POS_LIMIT);
    p.y = clamp_i64(p.y + p.vy * dt, POS_LIMIT);
}

/// Turn the sampled key states into the tick's input vector. Right takes
/// precedence over left when both are held.
pub fn player_input(left: bool, right: bool, jump: bool) -> (r: (i64, i64))
    ensures
        r.0 == if right { 1int } else if left { -1int } else { 0int },
        r.1 == if jump { 1int } else { 0int },
{
    let x: i64 = if right {
        1
    } else if left {
        -1
    } else {
        0
    };
    let y: i64 = if jump {
        1
    } else {
        0
    };
    (x, y)
}

/// Law: the jump-hold window is a hard bound. Airborne with the hold
/// stopwatch at or past `MAX_JUMP_HOLD_MS`, a motion step adds no held-jump
/// contribution even if jump is still held: vertical velocity only receives
/// the fall contribution, and the stopwatch resets.
pub proof fn lemma_jump_hold_bound(p: PlayerModel, dt: int)
    requires
        !p.grounded,
        p.jump_held_ms >= MAX_JUMP_HOLD_MS,
    ensures
        move_spec(p, dt).vy == clamp_mag(p.vy - FALL_ACCEL_PER_MS * dt, VEL_LIMIT as int),
        move_spec(p, dt).jump_held_ms == 0,
{
}

} // verus!
