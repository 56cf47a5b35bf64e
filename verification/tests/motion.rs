use cannonball::ball::Ball;
use cannonball::constants::SimulationConstants;
use cannonball::simulation::SimulationState;
use cannonball::vector::Vec2;

fn in_domain(s: &SimulationState) -> bool {
    0 <= s.ball.pos.x
        && s.ball.pos.x <= s.constants.sim_width
        && s.constants.min_y <= s.ball.pos.y
        && s.ball.pos.y <= s.constants.sim_height
}

#[test]
fn standard_scene_stays_in_its_domain() {
    let mut s: SimulationState = SimulationState::new();
    // The launch point lies below the lowest height: the first step brings
    // the ball inside.
    assert!(!in_domain(&s));
    let mut k: u32 = 0;
    while k < 2000 {
        assert!(s.can_advance());
        s.symplectic_euler(16_666);
        assert!(in_domain(&s));
        k += 1;
    }
    assert_eq!(s.ball.pos, Vec2::new(26_922_240, 400_000));
    assert_eq!(s.ball.vel, Vec2::new(5_314_410, 1_003_414));
}

#[test]
fn far_away_ball_is_brought_into_the_domain() {
    let starts: [(i64, i64, i64, i64); 4] = [
        (i64::MAX, i64::MAX, 1_000_000, 1_000_000),
        (i64::MIN, i64::MIN, -1_000_000, -1_000_000),
        (-1, 400_000 - 1, 0, 0),
        (35_555_556, 20_000_001, 0, 0),
    ];
    for start in starts {
        let mut s: SimulationState = SimulationState::with_parts(
            Ball::with_state(Vec2::new(start.0, start.1), Vec2::new(start.2, start.3)),
            SimulationConstants::standard(),
        );
        assert!(s.can_advance());
        s.symplectic_euler(0);
        assert!(in_domain(&s));
    }
}

#[test]
fn first_bounces_of_the_standard_scene_lose_a_tenth() {
    let mut s: SimulationState = SimulationState::new();
    let mut floor_seen: bool = false;
    let mut wall_seen: bool = false;
    let mut k: u32 = 0;
    while k < 250 {
        let before: Ball = s.ball;
        s.symplectic_euler(16_666);
        k += 1;
        if !floor_seen && s.ball.pos.y == 400_000 {
            floor_seen = true;
            assert_eq!(k, 183);
            assert_eq!(before.vel.y, -14_753_360);
            // Five kicks of 0.032696 before the floor was met.
            let arrival: i64 = 14_753_360 + 5 * 32_696;
            assert_eq!(s.ball.vel.y, arrival * 900_000 / 1_000_000);
            assert_eq!(s.ball.vel.y, 13_425_156);
            assert_eq!(s.ball.vel.x, before.vel.x);
        }
        if !wall_seen && s.ball.pos.x == 35_555_555 {
            wall_seen = true;
            assert_eq!(k, 213);
            assert_eq!(before.vel.x, 10_000_000);
            assert_eq!(s.ball.vel.x, -9_000_000);
            assert_eq!(s.ball.vel.y, before.vel.y - 5 * 32_696);
        }
    }
    assert!(floor_seen && wall_seen);
}

#[test]
fn bounce_never_speeds_the_ball_up() {
    let mut s: SimulationState = SimulationState::new();
    let mut k: u32 = 0;
    while k < 2000 {
        let before: Ball = s.ball;
        s.symplectic_euler(16_666);
        assert!(s.ball.vel.x.abs() <= before.vel.x.abs());
        if s.ball.vel.x != before.vel.x {
            assert_eq!(s.ball.vel.x, -(before.vel.x * 9 / 10));
            assert!(s.ball.pos.x == 0 || s.ball.pos.x == 35_555_555);
        }
        k += 1;
    }
}

#[test]
fn ball_without_sideways_speed_does_not_drift() {
    let mut s: SimulationState = SimulationState::with_parts(
        Ball::with_state(Vec2::new(7_000_000, 9_000_000), Vec2::new(0, 3_000_000)),
        SimulationConstants::standard(),
    );
    let mut k: u32 = 0;
    while k < 500 {
        s.symplectic_euler(16_666);
        assert_eq!(s.ball.pos.x, 7_000_000);
        assert_eq!(s.ball.vel.x, 0);
        k += 1;
    }
}

#[test]
fn falling_ball_sinks_until_it_meets_the_floor() {
    let mut s: SimulationState = SimulationState::with_parts(
        Ball::with_state(Vec2::new(7_000_000, 19_000_000), Vec2::new(0, 0)),
        SimulationConstants::standard(),
    );
    let mut k: u32 = 0;
    loop {
        let before: Ball = s.ball;
        s.symplectic_euler(16_666);
        k += 1;
        if s.ball.pos.y == 400_000 {
            assert!(s.ball.vel.y > 0);
            break;
        }
        assert!(s.ball.pos.y < before.pos.y);
        assert_eq!(s.ball.vel.y, before.vel.y - 163_480);
        assert!(k < 1000);
    }
    assert!(k > 100);
}

#[test]
fn empty_domain_cannot_hold_the_ball() {
    let mut constants: SimulationConstants = SimulationConstants::standard();
    constants.sim_width = -1_000_000;
    let mut s: SimulationState = SimulationState::with_parts(
        Ball::with_state(Vec2::new(-5_000_000, 5_000_000), Vec2::new(0, 0)),
        constants,
    );
    s.symplectic_euler(0);
    // The left wall is looked at first.
    assert_eq!(s.ball.pos.x, 0);
    assert!(!in_domain(&s));
}
