use smashbing::ball::{Ball, MAX_X, MIN_X, MIN_Y};
use smashbing::vec::Vec2;
use smashbing::{Effect, SoundId};

#[test]
fn fresh_ball_starts_charged() {
    let b = Ball::default();
    assert_eq!(b.pos, Vec2::new(3000, 3000));
    assert_eq!(b.vel, Vec2::new(4000, 4000));
    assert_eq!(b.charges, 2);
}

#[test]
fn charges_run_out_after_two_shots() {
    let mut b = Ball::default();
    let fx = b.fire_at(3000, 10000);
    assert_eq!(b.charges, 1);
    assert_eq!(fx, vec![Effect::Sound(SoundId::Impulse)]);
    // Straight up: the impulse of 70 units per second goes to y alone.
    assert_eq!(b.vel, Vec2::new(4000, 74000));
    let fx = b.fire_at(10000, 3000);
    assert_eq!(b.charges, 0);
    assert_eq!(fx, vec![Effect::Sound(SoundId::ImpulseExhaust)]);
    assert_eq!(b.vel, Vec2::new(74000, 74000));
    let before = b;
    let fx = b.fire_at(0, 0);
    assert!(fx.is_empty());
    assert_eq!(b, before);
}

#[test]
fn firing_at_the_ball_itself_adds_nothing() {
    let mut b = Ball::default();
    let fx = b.fire_at(3000, 3000);
    assert_eq!(fx, vec![Effect::Sound(SoundId::Impulse)]);
    assert_eq!(b.charges, 1);
    assert_eq!(b.vel, Vec2::new(4000, 4000));
}

#[test]
fn resting_ball_stays_at_rest() {
    let mut b = Ball::new(30000, MIN_Y, 0, 0);
    b.charges = 0;
    for _ in 0..1000 {
        let fx = b.update(16_667);
        assert!(fx.is_empty());
        assert_eq!(b.pos, Vec2::new(30000, MIN_Y));
        assert_eq!(b.vel, Vec2::new(0, 0));
    }
}

#[test]
fn floor_recharges_spent_ball() {
    let mut b = Ball::new(30000, 7100, 0, -20000);
    b.charges = 0;
    let fx = b.update(10_000);
    assert_eq!(b.charges, 2);
    assert_eq!(fx, vec![Effect::Sound(SoundId::BounceCharge)]);
    assert_eq!(b.pos, Vec2::new(30000, MIN_Y));
    // Damped: -0.55 of the vertical speed.
    assert_eq!(b.vel, Vec2::new(0, 11000));
}

#[test]
fn charged_ball_bounces_off_floor() {
    let mut b = Ball::new(30000, 7100, 0, -20000);
    let fx = b.update(10_000);
    assert_eq!(fx, vec![Effect::Sound(SoundId::Bounce)]);
    assert_eq!(b.charges, 2);
}

#[test]
fn slow_landing_comes_to_rest() {
    let mut b = Ball::new(30000, 7010, 1000, -2000);
    b.charges = 1;
    let fx = b.update(10_000);
    assert_eq!(fx, vec![Effect::Sound(SoundId::BounceCharge)]);
    assert_eq!(b.vel, Vec2::new(0, 0));
    assert_eq!(b.pos.y, MIN_Y);
    assert_eq!(b.charges, 2);
}

#[test]
fn walls_reflect_without_loss() {
    let mut b = Ball::new(MIN_X + 100, 30000, -20000, 0);
    let fx = b.update(10_000);
    assert_eq!(b.pos.x, MIN_X);
    assert_eq!(b.vel.x, 20000);
    assert_eq!(fx, vec![Effect::Sound(SoundId::Bounce)]);
    let mut c = Ball::new(MAX_X - 100, 30000, 20000, 0);
    c.update(10_000);
    assert_eq!(c.pos.x, MAX_X);
    assert_eq!(c.vel.x, -20000);
}

#[test]
fn gravity_pulls_a_flying_ball() {
    let mut b = Ball::new(30000, 30000, 0, 0);
    let fx = b.update(1_000_000);
    assert!(fx.is_empty());
    assert_eq!(b.vel, Vec2::new(0, -45000));
    assert_eq!(b.pos, Vec2::new(30000, 30000));
    b.update(100_000);
    assert_eq!(b.pos.y, 30000 - 4500);
}

#[test]
fn block_hit_damps_and_turns() {
    let mut b = Ball::new(30000, 30000, 10000, 0);
    let fx = b.collide_with(0, SoundId::Break3);
    assert_eq!(fx, vec![Effect::Sound(SoundId::Break3)]);
    assert_eq!(b.vel, Vec2::new(4000, 0));
    let mut c = Ball::new(30000, 30000, 10000, 0);
    c.collide_with(1571, SoundId::Break1);
    assert_eq!(c.vel, Vec2::new(0, 4000));
}

#[test]
fn random_block_hit_stays_within_jitter() {
    let mut seen = std::collections::HashSet::new();
    let mut sounds = std::collections::HashSet::new();
    for _ in 0..200 {
        let mut b = Ball::new(30000, 30000, 10000, 0);
        let fx = b.block_collide();
        assert_eq!(fx.len(), 1);
        assert!(matches!(
            fx[0],
            Effect::Sound(SoundId::Break1)
                | Effect::Sound(SoundId::Break2)
                | Effect::Sound(SoundId::Break3)
                | Effect::Sound(SoundId::Break4)
        ));
        assert!((b.vel.magnitude() as i64 - 4000).abs() <= 2);
        // Turned by less than a twelfth of a turn: x stays above 4000 * cos(0.524).
        assert!(b.vel.x >= 3460);
        assert!(b.vel.y.abs() <= 2001);
        seen.insert((b.vel.x, b.vel.y));
        sounds.insert(format!("{:?}", fx[0]));
    }
    assert!(seen.len() > 1);
    assert!(sounds.len() > 1);
}
