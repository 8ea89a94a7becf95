//! The simulation core of SmashBing, a breakout-style arcade game.
//!
//! A ball bounces inside a 64 by 64 unit arena, destroys blocks on contact,
//! and takes impulses from the player's clicks. Hosts drive the game through
//! `Game::update` and act on the effects that it returns.
//!
//! All quantities are fixed point: lengths in thousandths of an arena unit,
//! speeds in thousandths of a unit per second, times in microseconds, angles
//! in milliradians and colour channels in thousandths.
use vstd::prelude::*;

use crate::ball::{
    collided, fired, initial_ball, is_crash, lemma_flight_sounds, lemma_shot_sounds, stepped, Ball,
    JITTER,
};
use crate::block::{
    block_rect, critter_count, freed_critters, is_fresh_field, new_blockset, Block, BlockEffect,
    CRITTER_BLOCKS,
};
use crate::chance::random_range;
use crate::rect::holds_point;
use crate::vec::Vec2;

pub mod ball;
pub mod block;
mod chance;
pub mod fixed;
pub mod paddle;
pub mod rect;
pub mod vec;

verus! {

/// Player input, handed to `Game::update`.
#[derive(Clone, Copy, Debug, PartialEq, Eq, Structural)]
pub enum Command {
    /// No input this tick.
    NoOp,
    /// Fire the ball toward this point of the arena (thousandths of a unit).
    Fire(i32, i32),
}

/// An effect for the host to perform: play a sound or end the session.
#[derive(Clone, Copy, Debug, PartialEq, Eq, Structural)]
pub enum Effect {
    Sound(SoundId),
    Exit,
}

/// The sounds that the game asks for.
#[derive(Clone, Copy, Debug, PartialEq, Eq, Structural)]
pub enum SoundId {
    Bounce,
    BounceCharge,
    Impulse,
    ImpulseExhaust,
    Break1,
    Break2,
    Break3,
    Break4,
    Win,
}

/// A running game: the ball and the blocks that are left.
pub struct Game {
    pub ball: Ball,
    pub blocks: Vec<Block>,
}

/// The state that every running game keeps to.
pub open spec fn game_ok(ball: Ball, blocks: Seq<Block>) -> bool {
    ball::is_valid(ball) && critter_count(blocks) <= CRITTER_BLOCKS
}

/// The ball after the shots of `cmds`, in order, and their sounds.
pub open spec fn fire_all(b: Ball, cmds: Seq<Command>) -> (Ball, Seq<Effect>)
    decreases cmds.len(),
{
    if cmds.len() == 0 {
        (b, seq![])
    } else {
        let (b1, fx1) = fire_all(b, cmds.drop_last());
        match cmds.last() {
            Command::NoOp => (b1, fx1),
            Command::Fire(x, y) => {
                let (b2, fx2) = fired(b1, x as int, y as int);
                (b2, fx1 + fx2)
            },
        }
    }
}

pub open spec fn touches(b: Block, p: Vec2) -> bool {
    holds_point(b.rect, p)
}

/// Whether a block of `s` that has no effect holds `p`.
pub open spec fn plain_hit(s: Seq<Block>, p: Vec2) -> bool
    decreases s.len(),
{
    if s.len() == 0 {
        false
    } else {
        plain_hit(s.drop_last(), p) || (touches(s.last(), p) && s.last().effect
            == BlockEffect::NoEffect)
    }
}

/// Whether a `Reset` block of `s` holds `p`.
pub open spec fn reset_hit(s: Seq<Block>, p: Vec2) -> bool
    decreases s.len(),
{
    if s.len() == 0 {
        false
    } else {
        reset_hit(s.drop_last(), p) || (touches(s.last(), p) && s.last().effect
            == BlockEffect::Reset)
    }
}

/// One `Exit` for each `Exit` block of `s` that holds `p`.
pub open spec fn exit_effects(s: Seq<Block>, p: Vec2) -> Seq<Effect>
    decreases s.len(),
{
    if s.len() == 0 {
        seq![]
    } else if touches(s.last(), p) && s.last().effect == BlockEffect::Exit {
        exit_effects(s.drop_last(), p).push(Effect::Exit)
    } else {
        exit_effects(s.drop_last(), p)
    }
}

/// The blocks of `s` that do not hold `p`, in order.
pub open spec fn untouched(s: Seq<Block>, p: Vec2) -> Seq<Block>
    decreases s.len(),
{
    if s.len() == 0 {
        seq![]
    } else if touches(s.last(), p) {
        untouched(s.drop_last(), p)
    } else {
        untouched(s.drop_last(), p).push(s.last())
    }
}

pub open spec fn exit_block() -> Block {
    Block {
        id: 0,
        rect: block_rect(8000, 26000),
        color: (900, 100, 100, 100),
        is_critter: false,
        effect: BlockEffect::Exit,
    }
}

pub open spec fn reset_block() -> Block {
    Block {
        id: 1,
        rect: block_rect(48000, 26000),
        color: (100, 900, 100, 100),
        is_critter: false,
        effect: BlockEffect::Reset,
    }
}

/// The two blocks shown after a win: one ends the session, one restarts.
pub open spec fn menu_field() -> Seq<Block> {
    seq![exit_block(), reset_block()]
}

/// What a tick does to a game that is not reset: given the ball after the
/// shots, the blocks and the random turn and crash sound of a block hit, the
/// ball and blocks afterwards and the effects after those of the shots and
/// the exits.
pub open spec fn played(b: Ball, s: Seq<Block>, dt: int, rads: int, crash: SoundId) -> (
    Ball,
    Seq<Block>,
    Seq<Effect>,
) {
    let p = b.pos;
    let hit = plain_hit(s, p);
    let b2 = if hit {
        collided(b, rads)
    } else {
        b
    };
    let crash_fx = if hit {
        seq![Effect::Sound(crash)]
    } else {
        seq![]
    };
    let rest = if hit {
        untouched(s, p)
    } else {
        s
    };
    let (b3, flight_fx) = stepped(b2, dt);
    if rest.len() == 0 {
        (b3, menu_field(), crash_fx + flight_fx + seq![Effect::Sound(SoundId::Win)])
    } else {
        (b3, rest, crash_fx + flight_fx)
    }
}

proof fn lemma_untouched_critters(s: Seq<Block>, p: Vec2)
    ensures
        critter_count(untouched(s, p)) <= critter_count(s),
    decreases s.len(),
{
    if s.len() > 0 {
        lemma_untouched_critters(s.drop_last(), p);
        if !touches(s.last(), p) {
            assert(untouched(s, p).drop_last() == untouched(s.drop_last(), p));
        }
    }
}

/// What `update` does, given the random turn `rads` and crash sound `crash`
/// of a block hit.
pub open spec fn ticked(
    ball0: Ball,
    blocks0: Seq<Block>,
    ball: Ball,
    blocks: Seq<Block>,
    effects: Seq<Effect>,
    dt: int,
    cmds: Seq<Command>,
    rads: int,
    crash: SoundId,
) -> bool {
    let (b1, fire_fx) = fire_all(ball0, cmds);
    let exits = exit_effects(blocks0, b1.pos);
    if reset_hit(blocks0, b1.pos) {
        &&& ball == initial_ball()
        &&& is_fresh_field(blocks)
        &&& effects == fire_fx + exits
    } else {
        let (b3, s3, fx) = played(b1, blocks0, dt, rads, crash);
        &&& ball == b3
        &&& blocks == s3
        &&& effects == fire_fx + exits + fx
    }
}

impl Default for Game {
    /// A new game with the ball (almost) at rest and a random arrangement of
    /// blocks.
    fn default() -> (g: Game)
        ensures
            g.ball == initial_ball(),
            is_fresh_field(g.blocks@),
            game_ok(g.ball, g.blocks@),
    {
        Game { ball: Ball::default(), blocks: new_blockset() }
    }
}

impl Game {
    /// Advances the game by `dt` microseconds, with the player's `commands`;
    /// `rads` and `crash` are the turn of the ball and the crash sound if it
    /// hits a block. Returns the effects for the host, in order: those of the
    /// shots, the exits, the block hit, the flight and the win.
    ///
    /// A tick in which the ball lies on a `Reset` block resets the game and
    /// ends after the exits. Otherwise the ball hits the blocks without effect
    /// that hold it: every block that holds it is removed, and the ball is
    /// slowed and turned. The ball then flies for `dt`; when no block is left
    /// the game is won and the menu field takes the place of the blocks.
    pub fn update_with(&mut self, dt: u32, commands: &[Command], rads: i64, crash: SoundId) -> (effects: Vec<Effect>)
        requires
            game_ok(old(self).ball, old(self).blocks@),
        ensures
            game_ok(final(self).ball, final(self).blocks@),
            ticked(
                old(self).ball,
                old(self).blocks@,
                final(self).ball,
                final(self).blocks@,
                effects@,
                dt as int,
                commands@,
                rads as int,
                crash,
            ),
    {
        let mut effects: Vec<Effect> = Vec::new();
        // The player's shots.
        let mut k: usize = 0;
        while k < commands.len()
            invariant
                k <= commands@.len(),
                self.blocks@ == old(self).blocks@,
                ball::is_valid(self.ball),
                (self.ball, effects@) == fire_all(old(self).ball, commands@.take(k as int)),
            decreases commands@.len() - k,
        {
            assert(commands@.take(k + 1).drop_last() == commands@.take(k as int));
            match commands[k] {
                Command::NoOp => {},
                Command::Fire(x, y) => {
                    let mut fx = self.ball.fire_at(x, y);
                    effects.append(&mut fx);
                },
            }
            k = k + 1;
        }
        assert(commands@.take(k as int) == commands@);
        let ghost fire_fx = effects@;
        // Which blocks hold the ball.
        let p = self.ball.pos;
        let mut colliding = false;
        let mut reset = false;
        let mut m: usize = 0;
        while m < self.blocks.len()
            invariant
                m <= self.blocks@.len(),
                self.blocks@ == old(self).blocks@,
                self.ball.pos == p,
                colliding == plain_hit(self.blocks@.take(m as int), p),
                reset == reset_hit(self.blocks@.take(m as int), p),
                effects@ == fire_fx + exit_effects(self.blocks@.take(m as int), p),
            decreases self.blocks@.len() - m,
        {
            assert(self.blocks@.take(m + 1).drop_last() == self.blocks@.take(m as int));
            let b: Block = self.blocks[m];
            if b.rect.contains(p) {
                match b.effect {
                    BlockEffect::NoEffect => colliding = true,
                    BlockEffect::Reset => reset = true,
                    BlockEffect::Exit => effects.push(Effect::Exit),
                }
            }
            m = m + 1;
        }
        assert(self.blocks@.take(m as int) == self.blocks@);
        if reset {
            self.reset();
            return effects;
        }
        let ghost b1 = self.ball;
        let ghost s0 = self.blocks@;
        if colliding {
            let mut fx = self.ball.collide_with(rads, crash);
            effects.append(&mut fx);
            let mut kept: Vec<Block> = Vec::new();
            let mut m: usize = 0;
            while m < self.blocks.len()
                invariant
                    m <= self.blocks@.len(),
                    self.blocks@ == s0,
                    kept@ == untouched(s0.take(m as int), p),
                decreases self.blocks@.len() - m,
            {
                assert(s0.take(m + 1).drop_last() == s0.take(m as int));
                let b: Block = self.blocks[m];
                if !b.rect.contains(p) {
                    kept.push(b);
                }
                m = m + 1;
            }
            assert(s0.take(m as int) == s0);
            self.blocks = kept;
            proof {
                lemma_untouched_critters(s0, p);
            }
        }
        let ghost exits = exit_effects(s0, p);
        let ghost crash_fx = if colliding {
            seq![Effect::Sound(crash)]
        } else {
            seq![]
        };
        assert(effects@ == fire_fx + exits + crash_fx);
        let ghost b2 = self.ball;
        // The flight.
        let mut fx = self.ball.update(dt);
        let ghost flight_fx = fx@;
        effects.append(&mut fx);
        // The win.
        if self.blocks.len() == 0 {
            effects.push(Effect::Sound(SoundId::Win));
            self.set_menu();
            assert(self.blocks@ =~= menu_field());
            assert(effects@ =~= fire_fx + exits + (crash_fx + flight_fx + seq![
                Effect::Sound(SoundId::Win),
            ]));
        } else {
            assert(effects@ =~= fire_fx + exits + (crash_fx + flight_fx));
        }
        proof {
            lemma_menu_critters();
        }
        effects
    }

    /// Advances the game by `dt` microseconds, with the player's `commands`,
    /// as `update_with` does with a random turn below `JITTER` either way and
    /// one of the four crash sounds.
    pub fn update(&mut self, dt: u32, commands: &[Command]) -> (effects: Vec<Effect>)
        requires
            game_ok(old(self).ball, old(self).blocks@),
        ensures
            game_ok(final(self).ball, final(self).blocks@),
            exists|rads: int, crash: SoundId|
                -JITTER <= rads < JITTER && is_crash(crash) && #[trigger] ticked(
                    old(self).ball,
                    old(self).blocks@,
                    final(self).ball,
                    final(self).blocks@,
                    effects@,
                    dt as int,
                    commands@,
                    rads,
                    crash,
                ),
    {
        let rads = random_range(-JITTER, JITTER);
        let crash = ball::random_crash_sound();
        self.update_with(dt, commands, rads, crash)
    }

    /// How many critters have been freed; drawn as a family of critters at
    /// the top of the screen.
    pub fn freed_critters(&self) -> (r: u8)
        requires
            game_ok(self.ball, self.blocks@),
        ensures
            r == CRITTER_BLOCKS - critter_count(self.blocks@),
    {
        freed_critters(&self.blocks)
    }

    /// Resets the game to a fresh state.
    fn reset(&mut self)
        ensures
            final(self).ball == initial_ball(),
            is_fresh_field(final(self).blocks@),
            game_ok(final(self).ball, final(self).blocks@),
    {
        self.ball = Ball::default();
        self.blocks = new_blockset();
    }

    /// Adds the two blocks of the menu: one that ends the session and one
    /// that restarts the game. Called when the last block is cleared.
    fn set_menu(&mut self)
        ensures
            final(self).ball == old(self).ball,
            final(self).blocks@ == old(self).blocks@ + menu_field(),
    {
        self.blocks.push(Block::new(0, 8000, 26000, (900, 100, 100, 100), false, BlockEffect::Exit));
        self.blocks.push(Block::new(1, 48000, 26000, (100, 900, 100, 100), false, BlockEffect::Reset));
        assert(self.blocks@ =~= old(self).blocks@ + menu_field());
    }
}

proof fn lemma_menu_critters()
    ensures
        critter_count(menu_field()) == 0,
{
    reveal_with_fuel(critter_count, 3);
    assert(menu_field().drop_last() =~= seq![exit_block()]);
    assert(seq![exit_block()].drop_last() =~= Seq::<Block>::empty());
}

/// The shots make no `Win` sound.
proof fn lemma_shots_never_win(b: Ball, cmds: Seq<Command>)
    ensures
        forall|i: int|
            0 <= i < fire_all(b, cmds).1.len() ==> #[trigger] fire_all(b, cmds).1[i] != Effect::Sound(
                SoundId::Win,
            ),
    decreases cmds.len(),
{
    if cmds.len() > 0 {
        lemma_shots_never_win(b, cmds.drop_last());
        let b1 = fire_all(b, cmds.drop_last()).0;
        match cmds.last() {
            Command::NoOp => {},
            Command::Fire(x, y) => {
                lemma_shot_sounds(b1, x as int, y as int);
            },
        }
    }
}

/// Exits are all that `exit_effects` holds.
proof fn lemma_exits_only(s: Seq<Block>, p: Vec2)
    ensures
        forall|i: int|
            0 <= i < exit_effects(s, p).len() ==> #[trigger] exit_effects(s, p)[i] == Effect::Exit,
    decreases s.len(),
{
    if s.len() > 0 {
        lemma_exits_only(s.drop_last(), p);
    }
}

/// Winning: when the field holds a single block without effect and the ball,
/// after the shots, lies on it, the tick breaks it, the menu field takes the
/// place of the blocks, and the effects end with the one `Win` sound that
/// they hold.
pub proof fn lemma_win_transition(
    ball0: Ball,
    blk: Block,
    ball: Ball,
    blocks: Seq<Block>,
    effects: Seq<Effect>,
    dt: int,
    cmds: Seq<Command>,
    rads: int,
    crash: SoundId,
)
    requires
        blk.effect == BlockEffect::NoEffect,
        touches(blk, fire_all(ball0, cmds).0.pos),
        ticked(ball0, seq![blk], ball, blocks, effects, dt, cmds, rads, crash),
        is_crash(crash),
    ensures
        blocks == menu_field(),
        effects.len() > 0,
        effects.last() == Effect::Sound(SoundId::Win),
        forall|i: int| 0 <= i < effects.len() - 1 ==> effects[i] != Effect::Sound(SoundId::Win),
{
    let s = seq![blk];
    let (b1, fire_fx) = fire_all(ball0, cmds);
    let p = b1.pos;
    assert(s.drop_last() =~= Seq::<Block>::empty());
    assert(s.last() == blk);
    assert(!reset_hit(Seq::<Block>::empty(), p));
    assert(!plain_hit(Seq::<Block>::empty(), p));
    assert(untouched(Seq::<Block>::empty(), p) == Seq::<Block>::empty());
    assert(exit_effects(Seq::<Block>::empty(), p) == Seq::<Effect>::empty());
    assert(!reset_hit(s, p));
    assert(plain_hit(s, p));
    assert(untouched(s, p) =~= Seq::<Block>::empty());
    let exits = exit_effects(s, p);
    let b2 = collided(b1, rads);
    let flight_fx = stepped(b2, dt).1;
    let fx = seq![Effect::Sound(crash)] + flight_fx + seq![Effect::Sound(SoundId::Win)];
    assert(effects == fire_fx + exits + fx);
    lemma_shots_never_win(ball0, cmds);
    lemma_exits_only(s, p);
    lemma_flight_sounds(b2, dt);
    assert forall|i: int| 0 <= i < effects.len() - 1 implies effects[i] != Effect::Sound(SoundId::Win) by {
        if i < fire_fx.len() {
            assert(effects[i] == fire_fx[i]);
        } else if i < fire_fx.len() + exits.len() {
            assert(effects[i] == exits[i - fire_fx.len()]);
        } else if i == fire_fx.len() + exits.len() {
            assert(effects[i] == Effect::Sound(crash));
        } else {
            assert(effects[i] == flight_fx[i - fire_fx.len() - exits.len() - 1]);
        }
    }
}

/// Restarting: in the menu, a tick in which the ball, after the shots, lies
/// on the `Reset` block gives the starting ball and a new field of
/// `BLOCK_COLS * BLOCK_ROWS` blocks with `CRITTER_BLOCKS` critters, and no
/// effects beyond those of the shots and the exits.
pub proof fn lemma_reset_transition(
    ball0: Ball,
    ball: Ball,
    blocks: Seq<Block>,
    effects: Seq<Effect>,
    dt: int,
    cmds: Seq<Command>,
    rads: int,
    crash: SoundId,
)
    requires
        touches(reset_block(), fire_all(ball0, cmds).0.pos),
        ticked(ball0, menu_field(), ball, blocks, effects, dt, cmds, rads, crash),
    ensures
        ball == initial_ball(),
        is_fresh_field(blocks),
        blocks.len() == crate::block::BLOCK_COLS * crate::block::BLOCK_ROWS,
        critter_count(blocks) == CRITTER_BLOCKS,
        effects == fire_all(ball0, cmds).1 + exit_effects(menu_field(), fire_all(ball0, cmds).0.pos),
{
    assert(menu_field().last() == reset_block());
}

} // verus!
