use std::collections::hash_map::DefaultHasher;
use std::collections::HashSet;
use std::hash::{Hash, Hasher};

use smashbing::ball::Ball;
use smashbing::block::{
    block_color_with, clamp, freed_critters, grey_with, new_blockset, random_critter_locations, Block,
    BlockEffect,
};
use smashbing::paddle::Paddle;
use smashbing::rect::Rect;
use smashbing::vec::Vec2;
use smashbing::{Command, Effect, Game, SoundId};

fn hash_of(b: &Block) -> u64 {
    let mut h = DefaultHasher::new();
    b.hash(&mut h);
    h.finish()
}

#[test]
fn test_criter_locations() {
    let locs = random_critter_locations();
    assert_eq!(locs.len(), 7);
}

#[test]
fn critter_locations_are_distinct_grid_cells() {
    for _ in 0..50 {
        let locs = random_critter_locations();
        let set: HashSet<(u8, u8)> = locs.iter().cloned().collect();
        assert_eq!(set.len(), 7);
        assert!(locs.iter().all(|&(i, j)| i < 6 && j < 8));
    }
}

#[test]
fn blocks_compare_by_id() {
    let a = Block::new(3, 0, 0, (0, 0, 0, 1000), false, BlockEffect::NoEffect);
    let b = Block::new(3, 40000, 9000, (500, 500, 500, 500), true, BlockEffect::Exit);
    let c = Block::new(4, 0, 0, (0, 0, 0, 1000), false, BlockEffect::NoEffect);
    assert!(a == b);
    assert_eq!(hash_of(&a), hash_of(&b));
    assert!(a != c);
}

#[test]
fn block_has_standard_size() {
    let b = Block::new(9, 8000, 16000, (1, 2, 3, 4), true, BlockEffect::Reset);
    assert_eq!(b.rect, Rect::new(8000, 16000, 16000, 21000));
    assert_eq!(b.id, 9);
    assert!(b.is_critter);
    assert_eq!(b.effect, BlockEffect::Reset);
}

#[test]
fn new_field_is_full_grid() {
    let blocks = new_blockset();
    assert_eq!(blocks.len(), 48);
    assert_eq!(blocks.iter().filter(|b| b.is_critter).count(), 7);
    assert_eq!(freed_critters(&blocks), 0);
    let shades: HashSet<(u16, u16, u16, u16)> = blocks.iter().map(|b| b.color).collect();
    assert!(shades.len() > 2);
    for (k, b) in blocks.iter().enumerate() {
        let (i, j) = ((k / 8) as i64, (k % 8) as i64);
        assert_eq!(b.id as usize, k);
        assert_eq!(b.rect, Rect::new(8000 + i * 8000, 16000 + i * 8000, 16000 + j * 5000, 21000 + j * 5000));
        assert_eq!(b.effect, BlockEffect::NoEffect);
        if b.is_critter {
            let (r, g, bl, a) = b.color;
            assert!(r == g && g == bl && (100..500).contains(&r) && a == 1000);
        } else {
            assert!(b.color.1 > b.color.0);
        }
    }
}

#[test]
fn green_and_grey_shades() {
    assert_eq!(block_color_with(0, 0, 0), (392, 875, 129, 1000));
    assert_eq!(block_color_with(5, 7, 0), (49, 456, 133, 1000));
    assert_eq!(block_color_with(0, 0, -300), (494, 1000, 128, 1000));
    assert_eq!(block_color_with(3, 3, 200), (152, 582, 131, 1000));
    assert_eq!(grey_with(-200), (100, 100, 100, 1000));
    assert_eq!(grey_with(150), (450, 450, 450, 1000));
    assert_eq!(clamp(-5, 0, 10), 0);
    assert_eq!(clamp(15, 0, 10), 10);
    assert_eq!(clamp(7, 0, 10), 7);
}

#[test]
fn freed_critters_counts_missing_critters() {
    let mut blocks = new_blockset();
    let first = blocks.iter().position(|b| b.is_critter).unwrap();
    blocks.remove(first);
    assert_eq!(freed_critters(&blocks), 1);
    blocks.retain(|b| !b.is_critter);
    assert_eq!(freed_critters(&blocks), 7);
}

fn game_with(ball: Ball, blocks: Vec<Block>) -> Game {
    Game { ball, blocks }
}

#[test]
fn fresh_game() {
    let g = Game::default();
    assert_eq!(g.ball, Ball::default());
    assert_eq!(g.blocks.len(), 48);
    assert_eq!(g.freed_critters(), 0);
}

#[test]
fn clearing_last_block_wins() {
    let blk = Block::new(17, 20000, 30000, (0, 500, 0, 1000), false, BlockEffect::NoEffect);
    let mut g = game_with(Ball::new(24000, 32000, 0, 0), vec![blk]);
    let fx = g.update(16_667, &[Command::NoOp]);
    assert_eq!(g.blocks.len(), 2);
    assert_eq!(g.blocks[0].id, 0);
    assert_eq!(g.blocks[0].effect, BlockEffect::Exit);
    assert_eq!(g.blocks[0].rect, Rect::new(8000, 16000, 26000, 31000));
    assert_eq!(g.blocks[1].id, 1);
    assert_eq!(g.blocks[1].effect, BlockEffect::Reset);
    assert_eq!(g.blocks[1].rect, Rect::new(48000, 56000, 26000, 31000));
    assert_eq!(fx.last(), Some(&Effect::Sound(SoundId::Win)));
    assert_eq!(fx.iter().filter(|e| **e == Effect::Sound(SoundId::Win)).count(), 1);
    assert!(matches!(
        fx[0],
        Effect::Sound(SoundId::Break1)
            | Effect::Sound(SoundId::Break2)
            | Effect::Sound(SoundId::Break3)
            | Effect::Sound(SoundId::Break4)
    ));
}

#[test]
fn reset_block_restarts_game() {
    let blk = Block::new(17, 20000, 30000, (0, 500, 0, 1000), false, BlockEffect::NoEffect);
    let mut g = game_with(Ball::new(24000, 32000, 0, 0), vec![blk]);
    g.update(16_667, &[]);
    assert_eq!(g.blocks.len(), 2);
    g.ball = Ball::new(52000, 28000, 9000, 9000);
    g.ball.charges = 1;
    let fx = g.update(16_667, &[]);
    assert!(fx.is_empty());
    assert_eq!(g.ball, Ball::default());
    assert_eq!(g.blocks.len(), 48);
    assert_eq!(g.blocks.iter().filter(|b| b.is_critter).count(), 7);
    assert_eq!(g.freed_critters(), 0);
}

#[test]
fn exit_block_asks_host_to_exit() {
    let blk = Block::new(17, 20000, 30000, (0, 500, 0, 1000), false, BlockEffect::NoEffect);
    let mut g = game_with(Ball::new(24000, 32000, 0, 0), vec![blk]);
    g.update(16_667, &[]);
    g.ball = Ball::new(12000, 28000, 0, 0);
    let fx = g.update(16_667, &[]);
    assert_eq!(fx, vec![Effect::Exit]);
    assert_eq!(g.blocks.len(), 2);
}

#[test]
fn effects_come_in_order() {
    let blk = Block::new(5, 20000, 30000, (0, 500, 0, 1000), false, BlockEffect::NoEffect);
    let other = Block::new(6, 40000, 30000, (0, 500, 0, 1000), true, BlockEffect::NoEffect);
    let mut g = game_with(Ball::new(24000, 32000, 0, 0), vec![blk, other]);
    let fx = g.update_with(16_667, &[Command::Fire(24000, 60000), Command::NoOp], 0, SoundId::Break2);
    assert_eq!(fx, vec![Effect::Sound(SoundId::Impulse), Effect::Sound(SoundId::Break2)]);
    assert_eq!(g.blocks.len(), 1);
    assert_eq!(g.blocks[0].id, 6);
    assert_eq!(g.freed_critters(), 6);
    // Shot straight up at 70 units per second, then damped to 0.4 of it.
    assert_eq!(g.ball.vel.x, 0);
    assert!(g.ball.vel.y > 27000 && g.ball.vel.y <= 28000);
    assert_eq!(g.ball.charges, 1);
}

#[test]
fn ball_off_blocks_just_flies() {
    let blk = Block::new(5, 20000, 30000, (0, 500, 0, 1000), false, BlockEffect::NoEffect);
    let mut g = game_with(Ball::new(40000, 40000, 1000, 0), vec![blk]);
    let fx = g.update_with(1_000_000, &[], 0, SoundId::Break1);
    assert!(fx.is_empty());
    assert_eq!(g.blocks.len(), 1);
    assert_eq!(g.ball.pos, Vec2::new(41000, 40000));
    assert_eq!(g.ball.vel, Vec2::new(1000, -45000));
}

#[test]
fn paddle_follows_pointer_within_bounds() {
    let mut p = Paddle::default();
    assert_eq!(p.rect, Rect::new(46000, 54000, 4000, 7000));
    p.move_towards(&55000);
    assert_eq!(p.rect, Rect::new(47000, 55000, 4000, 7000));
    p.move_towards(&65000);
    assert_eq!(p.rect, Rect::new(54000, 62000, 4000, 7000));
    p.move_towards(&500000);
    assert_eq!(p.rect.right, 100000);
    p.move_towards(&-500000);
    assert_eq!(p.rect.left, 0);
    let mut q = Paddle { rect: Rect::new(-3000, 5000, 4000, 7000), rebounding: false };
    q.stay_in_bounds();
    assert_eq!(q.rect, Rect::new(0, 8000, 4000, 7000));
}
