//! The player's ball: motion, wall and floor collisions, block hits and
//! firing.
use vstd::prelude::*;

use crate::chance::{random_range, sample_items};
use crate::fixed::{abs, div_toward_zero, lemma_trunc_div_bound, trunc_div, MICROS_PER_SECOND};
use crate::vec::{norm_sq, rotated, scaled_by, unit_of, Vec2};
use crate::{Effect, SoundId};

verus! {

// The ball stays a few units away from the edges of the 64 by 64 arena.
pub const MIN_X: i64 = 3000;
pub const MAX_X: i64 = 60999;
pub const MIN_Y: i64 = 7000;
pub const MAX_Y: i64 = 60999;

/// Below this speed a ball that reaches the floor comes to rest.
pub const BOUNCE_THRESHOLD: i64 = 3000;
/// Each floor bounce scales the velocity by this many thousandths.
pub const BOUNCE_FACTOR: i64 = 550;
/// The speed that one shot adds, in the direction of the target.
pub const FIRE_IMPULSE: i64 = 70_000;
/// A block hit scales the velocity by this many thousandths.
pub const BLOCK_DAMPING: i64 = 400;
/// Change of the vertical speed per second.
pub const GRAVITATIONAL_ACCELERATION: i64 = -45_000;
/// A ball less than this far above `MIN_Y` does not fall.
pub const NORMAL_THRESHOLD: i64 = 200;
/// Bounces slower than this make no sound.
pub const AUDIBLE_SPEED: i64 = 700;
/// A block hit turns the velocity by less than this many milliradians
/// either way (a twelfth of a turn).
pub const JITTER: i64 = 524;
/// The charges of a ball that has touched the floor.
pub const MAX_CHARGES: u8 = 2;
/// Each velocity component is held within this bound.
pub const MAX_SPEED: i64 = 1_000_000_000;
/// Positions that a ball may be given lie within this bound.
pub const POS_LIMIT: i64 = 0x100_0000_0000;

/// The player's ball.
#[derive(Clone, Copy, Debug, PartialEq, Eq, Structural)]
pub struct Ball {
    pub pos: Vec2,
    pub vel: Vec2,
    /// Shots left; the player can only push the ball while it has charges.
    pub charges: u8,
}

pub open spec fn is_valid(b: Ball) -> bool {
    abs(b.pos.x as int) <= POS_LIMIT && abs(b.pos.y as int) <= POS_LIMIT && abs(b.vel.x as int)
        <= MAX_SPEED && abs(b.vel.y as int) <= MAX_SPEED && b.charges <= MAX_CHARGES
}

/// The ball lies within the walls, the ceiling and the floor.
pub open spec fn in_arena(p: Vec2) -> bool {
    MIN_X <= p.x <= MAX_X && MIN_Y <= p.y <= MAX_Y
}

pub open spec fn initial_ball() -> Ball {
    Ball { pos: Vec2 { x: 3000, y: 3000 }, vel: Vec2 { x: 4000, y: 4000 }, charges: MAX_CHARGES }
}

pub open spec fn clamp_speed(v: int) -> int {
    if v > MAX_SPEED {
        MAX_SPEED as int
    } else if v < -MAX_SPEED {
        -MAX_SPEED
    } else {
        v
    }
}

/// How far a speed of `v` carries in `dt` microseconds.
pub open spec fn drift(v: int, dt: int) -> int {
    trunc_div(v * dt, MICROS_PER_SECOND as int)
}

pub open spec fn audible(v: Vec2) -> bool {
    norm_sq(v) > AUDIBLE_SPEED * AUDIBLE_SPEED
}

pub open spec fn is_crash(s: SoundId) -> bool {
    s == SoundId::Break1 || s == SoundId::Break2 || s == SoundId::Break3 || s == SoundId::Break4
}

/// First step of `update`: the ball moves along its velocity.
pub open spec fn moved(b: Ball, dt: int) -> Ball {
    Ball {
        pos: Vec2 {
            x: (b.pos.x + drift(b.vel.x as int, dt)) as i64,
            y: (b.pos.y + drift(b.vel.y as int, dt)) as i64,
        },
        ..b
    }
}

/// Second step: gravity, unless the ball rests on the floor.
pub open spec fn pulled(b: Ball, dt: int) -> Ball {
    if b.pos.y > MIN_Y + NORMAL_THRESHOLD {
        Ball {
            vel: Vec2 {
                y: clamp_speed(b.vel.y + drift(GRAVITATIONAL_ACCELERATION as int, dt)) as i64,
                ..b.vel
            },
            ..b
        }
    } else {
        b
    }
}

/// Third step: elastic bounces off the side walls and the ceiling, and
/// whether any happened.
pub open spec fn walled(b: Ball) -> (Ball, bool) {
    let (b1, h1) = if b.pos.x < MIN_X {
        (
            Ball {
                pos: Vec2 { x: MIN_X, ..b.pos },
                vel: Vec2 { x: (-b.vel.x) as i64, ..b.vel },
                ..b
            },
            true,
        )
    } else {
        (b, false)
    };
    let (b2, h2) = if b1.pos.x > MAX_X {
        (
            Ball {
                pos: Vec2 { x: MAX_X, ..b1.pos },
                vel: Vec2 { x: (-b1.vel.x) as i64, ..b1.vel },
                ..b1
            },
            true,
        )
    } else {
        (b1, false)
    };
    let (b3, h3) = if b2.pos.y > MAX_Y {
        (
            Ball {
                pos: Vec2 { y: MAX_Y, ..b2.pos },
                vel: Vec2 { y: (-b2.vel.y) as i64, ..b2.vel },
                ..b2
            },
            true,
        )
    } else {
        (b2, false)
    };
    (b3, h1 || h2 || h3)
}

/// The sound of a floor contact: a recharge where the ball had spent charges,
/// else a plain bounce; none when the ball is too slow to be heard.
pub open spec fn floor_sound(b: Ball) -> Seq<Effect> {
    if !audible(b.vel) {
        seq![]
    } else if b.charges < MAX_CHARGES {
        seq![Effect::Sound(SoundId::BounceCharge)]
    } else {
        seq![Effect::Sound(SoundId::Bounce)]
    }
}

/// Last step: a ball below the floor is put back on it with its charges
/// refilled, and either stops or bounces back damped.
pub open spec fn floored(b: Ball) -> (Ball, Seq<Effect>) {
    if b.pos.y < MIN_Y {
        let vel = if norm_sq(b.vel) < BOUNCE_THRESHOLD * BOUNCE_THRESHOLD {
            Vec2 { x: 0, y: 0 }
        } else {
            Vec2 {
                x: trunc_div(b.vel.x * BOUNCE_FACTOR, 1000) as i64,
                y: trunc_div(b.vel.y * (-BOUNCE_FACTOR), 1000) as i64,
            }
        };
        (Ball { pos: Vec2 { y: MIN_Y, ..b.pos }, vel, charges: MAX_CHARGES }, floor_sound(b))
    } else {
        (b, seq![])
    }
}

/// The ball after `dt` microseconds of flight, and the sounds on the way.
pub open spec fn stepped(b: Ball, dt: int) -> (Ball, Seq<Effect>) {
    let (b3, bounced) = walled(pulled(moved(b, dt), dt));
    let wall_sound = if bounced && audible(b3.vel) {
        seq![Effect::Sound(SoundId::Bounce)]
    } else {
        seq![]
    };
    let (b4, floor_fx) = floored(b3);
    (b4, wall_sound + floor_fx)
}

/// The ball after a shot at `(x, y)`, and its sound.
pub open spec fn fired(b: Ball, x: int, y: int) -> (Ball, Seq<Effect>) {
    if b.charges == 0 {
        (b, seq![])
    } else {
        let charges = (b.charges - 1) as u8;
        let dir = unit_of(Vec2 { x: (x - b.pos.x) as i64, y: (y - b.pos.y) as i64 });
        let kick = scaled_by(dir, FIRE_IMPULSE as int);
        let vel = Vec2 {
            x: clamp_speed(b.vel.x + kick.x) as i64,
            y: clamp_speed(b.vel.y + kick.y) as i64,
        };
        let fx = if charges == 0 {
            seq![Effect::Sound(SoundId::ImpulseExhaust)]
        } else if charges == 1 {
            seq![Effect::Sound(SoundId::Impulse)]
        } else {
            seq![]
        };
        (Ball { vel, charges, ..b }, fx)
    }
}

/// The ball after hitting a block, its velocity turned by `rads`.
pub open spec fn collided(b: Ball, rads: int) -> Ball {
    Ball { vel: rotated(scaled_by(b.vel, BLOCK_DAMPING as int), rads), ..b }
}

fn clamp_speed_exec(v: i64) -> (r: i64)
    ensures
        r == clamp_speed(v as int),
{
    if v > MAX_SPEED {
        MAX_SPEED
    } else if v < -MAX_SPEED {
        -MAX_SPEED
    } else {
        v
    }
}

fn drift_exec(v: i64, dt: u32) -> (r: i64)
    requires
        abs(v as int) <= MAX_SPEED,
    ensures
        r == drift(v as int, dt as int),
        abs(r as int) <= 5_000_000_000_000,
{
    assert(-5_000_000_000_000_000_000 <= v * dt <= 5_000_000_000_000_000_000) by (nonlinear_arith)
        requires
            -1_000_000_000 <= v <= 1_000_000_000,
            0 <= dt <= 0xffff_ffff,
    ;
    let p: i128 = (v as i128) * (dt as i128);
    let d: i128 = div_toward_zero(p, MICROS_PER_SECOND as i128);
    proof {
        lemma_trunc_div_bound(p as int, 1_000_000);
        assert(abs(d as int) <= 5_000_000_000_000) by (nonlinear_arith)
            requires
                abs(d as int) * 1_000_000 <= abs(p as int),
                abs(p as int) <= 5_000_000_000_000_000_000,
        ;
    }
    d as i64
}

fn speed_sq(v: Vec2) -> (r: i128)
    requires
        abs(v.x as int) <= MAX_SPEED,
        abs(v.y as int) <= MAX_SPEED,
    ensures
        r == norm_sq(v),
{
    let x: i128 = v.x as i128;
    let y: i128 = v.y as i128;
    assert(0 <= x * x <= 1_000_000_000_000_000_000) by (nonlinear_arith)
        requires
            -1_000_000_000 <= x <= 1_000_000_000,
    ;
    assert(0 <= y * y <= 1_000_000_000_000_000_000) by (nonlinear_arith)
        requires
            -1_000_000_000 <= y <= 1_000_000_000,
    ;
    x * x + y * y
}

fn damp(a: i64, factor: i64) -> (r: i64)
    requires
        abs(a as int) <= MAX_SPEED,
        abs(factor as int) <= 1000,
    ensures
        r == trunc_div(a * factor, 1000),
        abs(r as int) <= MAX_SPEED,
{
    assert(-1_000_000_000_000 <= a * factor <= 1_000_000_000_000) by (nonlinear_arith)
        requires
            -1_000_000_000 <= a <= 1_000_000_000,
            -1000 <= factor <= 1000,
    ;
    let p: i128 = (a as i128) * (factor as i128);
    assert(abs(p as int) <= abs(a as int) * 1000) by (nonlinear_arith)
        requires
            p == a * factor,
            -1000 <= factor <= 1000,
    ;
    let d: i128 = div_toward_zero(p, 1000);
    proof {
        lemma_trunc_div_bound(p as int, 1000);
        assert(abs(d as int) <= abs(a as int)) by (nonlinear_arith)
            requires
                abs(d as int) * 1000 <= abs(p as int),
                abs(p as int) <= abs(a as int) * 1000,
        ;
    }
    d as i64
}

proof fn lemma_damped_bound(a: int, r: int)
    requires
        abs(a) <= MAX_SPEED,
        r == trunc_div(a * BLOCK_DAMPING, 1000),
    ensures
        abs(r) <= 400_000_000,
{
    lemma_trunc_div_bound(a * 400, 1000);
    let p = a * 400;
    assert(abs(p) <= 400_000_000_000) by (nonlinear_arith)
        requires
            p == a * 400,
            -1_000_000_000 <= a <= 1_000_000_000,
    ;
}

impl Ball {
    pub fn new(x: i64, y: i64, dx: i64, dy: i64) -> (r: Ball)
        requires
            abs(x as int) <= POS_LIMIT,
            abs(y as int) <= POS_LIMIT,
            abs(dx as int) <= MAX_SPEED,
            abs(dy as int) <= MAX_SPEED,
        ensures
            r == (Ball { pos: Vec2 { x, y }, vel: Vec2 { x: dx, y: dy }, charges: MAX_CHARGES }),
            is_valid(r),
    {
        Ball { pos: Vec2::new(x, y), vel: Vec2::new(dx, dy), charges: MAX_CHARGES }
    }

    /// Advances the ball by `dt` microseconds and returns the sounds that
    /// the flight makes.
    pub fn update(&mut self, dt: u32) -> (effects: Vec<Effect>)
        requires
            is_valid(*old(self)),
        ensures
            (*final(self), effects@) == stepped(*old(self), dt as int),
            is_valid(*final(self)),
            in_arena(final(self).pos),
    {
        let mut effects: Vec<Effect> = Vec::new();
        let ghost b0 = *self;
        // Move to the next position.
        self.pos.x = self.pos.x + drift_exec(self.vel.x, dt);
        self.pos.y = self.pos.y + drift_exec(self.vel.y, dt);
        assert(*self == moved(b0, dt as int));
        // Fall, unless resting on the floor.
        if self.pos.y > MIN_Y + NORMAL_THRESHOLD {
            let g = drift_exec(GRAVITATIONAL_ACCELERATION, dt);
            self.vel.y = clamp_speed_exec(self.vel.y + g);
        }
        assert(*self == pulled(moved(b0, dt as int), dt as int));
        // Bounce elastically off the side walls and the ceiling.
        let mut bounced = false;
        if self.pos.x < MIN_X {
            self.pos.x = MIN_X;
            self.vel.x = -self.vel.x;
            bounced = true;
        }
        if self.pos.x > MAX_X {
            self.pos.x = MAX_X;
            self.vel.x = -self.vel.x;
            bounced = true;
        }
        if self.pos.y > MAX_Y {
            self.pos.y = MAX_Y;
            self.vel.y = -self.vel.y;
            bounced = true;
        }
        let ghost b3 = *self;
        assert((b3, bounced) == walled(pulled(moved(b0, dt as int), dt as int)));
        let audible_sq: i128 = (AUDIBLE_SPEED as i128) * (AUDIBLE_SPEED as i128);
        if bounced && speed_sq(self.vel) > audible_sq {
            effects.push(Effect::Sound(SoundId::Bounce));
        }
        let ghost wall_fx = effects@;
        // Land on the floor, losing speed.
        if self.pos.y < MIN_Y {
            let speed: i128 = speed_sq(self.vel);
            if speed > audible_sq {
                if self.charges < MAX_CHARGES {
                    effects.push(Effect::Sound(SoundId::BounceCharge));
                } else {
                    effects.push(Effect::Sound(SoundId::Bounce));
                }
            }
            self.charges = MAX_CHARGES;
            self.pos.y = MIN_Y;
            if speed < (BOUNCE_THRESHOLD as i128) * (BOUNCE_THRESHOLD as i128) {
                self.vel = Vec2::new(0, 0);
            } else {
                self.vel.y = damp(self.vel.y, -BOUNCE_FACTOR);
                self.vel.x = damp(self.vel.x, BOUNCE_FACTOR);
            }
        }
        assert(effects@ =~= wall_fx + floored(b3).1);
        effects
    }

    /// Hits a block: the ball loses speed and its course turns by `rads`.
    /// Returns the crash sound `crash`.
    pub fn collide_with(&mut self, rads: i64, crash: SoundId) -> (effects: Vec<Effect>)
        requires
            is_valid(*old(self)),
        ensures
            *final(self) == collided(*old(self), rads as int),
            effects@ == seq![Effect::Sound(crash)],
            is_valid(*final(self)),
    {
        let vx = damp(self.vel.x, BLOCK_DAMPING);
        let vy = damp(self.vel.y, BLOCK_DAMPING);
        proof {
            lemma_damped_bound(self.vel.x as int, vx as int);
            lemma_damped_bound(self.vel.y as int, vy as int);
        }
        self.vel.x = vx;
        self.vel.y = vy;
        self.vel.rotate(rads);
        let mut effects: Vec<Effect> = Vec::new();
        effects.push(Effect::Sound(crash));
        effects
    }

    /// Hits a block: the ball loses speed, its course turns by a random
    /// angle below `JITTER`, and one of the four crash sounds, picked at
    /// random, is returned.
    pub fn block_collide(&mut self) -> (effects: Vec<Effect>)
        requires
            is_valid(*old(self)),
        ensures
            exists|rads: int|
                -JITTER <= rads < JITTER && *final(self) == #[trigger] collided(*old(self), rads),
            effects@.len() == 1,
            exists|s: SoundId| is_crash(s) && effects@[0] == Effect::Sound(s),
            is_valid(*final(self)),
    {
        let rads = random_range(-JITTER, JITTER);
        let crash = random_crash_sound();
        self.collide_with(rads, crash)
    }

    /// What happens when the player clicks (or taps) at `(x, y)`: if the
    /// ball has charges left, one is spent and the ball gets `FIRE_IMPULSE`
    /// of speed toward that point, on top of its own. A click on the ball's
    /// own position has no direction: it spends a charge and adds nothing.
    /// Returns the shot's sound: `ImpulseExhaust` when no charge is left,
    /// `Impulse` when one is.
    pub fn fire_at(&mut self, x: i32, y: i32) -> (effects: Vec<Effect>)
        requires
            is_valid(*old(self)),
        ensures
            (*final(self), effects@) == fired(*old(self), x as int, y as int),
            is_valid(*final(self)),
    {
        if self.charges < 1 {
            return Vec::new();
        }
        self.charges = self.charges - 1;
        let mut dv = Vec2::new(x as i64 - self.pos.x, y as i64 - self.pos.y);
        dv.normalise();
        dv.scale(FIRE_IMPULSE);
        self.vel.x = clamp_speed_exec(self.vel.x + dv.x);
        self.vel.y = clamp_speed_exec(self.vel.y + dv.y);
        let mut effects: Vec<Effect> = Vec::new();
        if self.charges == 0 {
            effects.push(Effect::Sound(SoundId::ImpulseExhaust));
        } else if self.charges == 1 {
            effects.push(Effect::Sound(SoundId::Impulse));
        }
        effects
    }

}

impl Default for Ball {
    /// The ball at the start of a game: near the lower left corner, moving
    /// up and to the right, fully charged.
    fn default() -> (r: Ball)
        ensures
            r == initial_ball(),
            is_valid(r),
    {
        Ball::new(3000, 3000, 4000, 4000)
    }
}

/// One of the four crash sounds, picked at random.
pub(crate) fn random_crash_sound() -> (r: SoundId)
    ensures
        is_crash(r),
{
    let sounds: Vec<SoundId> = vec![SoundId::Break1, SoundId::Break2, SoundId::Break3, SoundId::Break4];
    let picked = sample_items(sounds, 1);
    assert(sounds@.contains(picked@[0]));
    picked[0]
}

/// A ball that lies still on the floor, between the walls, stays there: a
/// tick of any length leaves it as it was and makes no sound, so any number
/// of ticks do too.
pub proof fn lemma_resting_ball_stays(b: Ball, dt: u32)
    requires
        is_valid(b),
        b.pos.y == MIN_Y,
        b.vel == (Vec2 { x: 0, y: 0 }),
        MIN_X <= b.pos.x <= MAX_X,
    ensures
        stepped(b, dt as int) == (b, Seq::<Effect>::empty()),
{
    assert(moved(b, dt as int) == b);
    assert(pulled(b, dt as int) == b);
    assert(walled(b) == (b, false));
    assert(floored(b) == (b, Seq::<Effect>::empty()));
    assert(Seq::<Effect>::empty() + Seq::<Effect>::empty() =~= Seq::<Effect>::empty());
}

/// A fully charged ball takes two shots: the first leaves one charge and
/// sounds `Impulse`, the second leaves none and sounds `ImpulseExhaust`.
/// A third shot changes nothing and makes no sound.
pub proof fn lemma_charges_run_out(b: Ball, x1: i32, y1: i32, x2: i32, y2: i32, x3: i32, y3: i32)
    requires
        is_valid(b),
        b.charges == MAX_CHARGES,
    ensures
        fired(b, x1 as int, y1 as int).0.charges == 1,
        fired(b, x1 as int, y1 as int).1 == seq![Effect::Sound(SoundId::Impulse)],
        fired(fired(b, x1 as int, y1 as int).0, x2 as int, y2 as int).0.charges == 0,
        fired(fired(b, x1 as int, y1 as int).0, x2 as int, y2 as int).1 == seq![
            Effect::Sound(SoundId::ImpulseExhaust),
        ],
        ({
            let b2 = fired(fired(b, x1 as int, y1 as int).0, x2 as int, y2 as int).0;
            fired(b2, x3 as int, y3 as int) == (b2, Seq::<Effect>::empty())
        }),
{
}

/// A spent ball that reaches the floor fast enough to be heard gets its
/// charges back and sounds `BounceCharge`, not `Bounce`.
pub proof fn lemma_floor_recharge(b: Ball)
    requires
        b.charges == 0,
        b.pos.y < MIN_Y,
        audible(b.vel),
    ensures
        floored(b).0.charges == MAX_CHARGES,
        floored(b).1 == seq![Effect::Sound(SoundId::BounceCharge)],
{
}

/// The flight of a ball makes no sound but `Bounce` and `BounceCharge`.
pub proof fn lemma_flight_sounds(b: Ball, dt: int)
    ensures
        forall|i: int|
            0 <= i < stepped(b, dt).1.len() ==> (#[trigger] stepped(b, dt).1[i] == Effect::Sound(
                SoundId::Bounce,
            ) || stepped(b, dt).1[i] == Effect::Sound(SoundId::BounceCharge)),
{
}

/// A shot makes no sound but `Impulse` and `ImpulseExhaust`.
pub proof fn lemma_shot_sounds(b: Ball, x: int, y: int)
    ensures
        forall|i: int|
            0 <= i < fired(b, x, y).1.len() ==> (#[trigger] fired(b, x, y).1[i] == Effect::Sound(
                SoundId::Impulse,
            ) || fired(b, x, y).1[i] == Effect::Sound(SoundId::ImpulseExhaust)),
{
}

} // verus!
