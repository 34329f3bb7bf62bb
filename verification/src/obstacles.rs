//! Obstacle kinds and their fixed sizes, in milli-units of the reference
//! (player) height.
use vstd::prelude::*;
use crate::rng::rand_below;

verus! {

#[derive(Clone, Copy, PartialEq, Eq, Structural, Debug)]
pub enum Obstacle {
    Bird2,
    CactusSmall5,
    DinoGameOver1,
    Ground,
    CactusBig1,
    DinoDuck2,
    CactusBig2,
    Cloud,
    DinoGameOver2,
    DinoJump,
    CactusSmall2,
    CactusSmall4,
    DinoRun1,
    DinoDuck1,
    CactusSmall6,
    Bird1,
    CactusBigPair,
    DinoRun2,
    CactusSmall1,
    CactusSmall3,
    CactusBigSmall,
}

pub const TALLEST_CACTUS: Obstacle = Obstacle::CactusBig1;

/// Width and height of each obstacle kind, in milli-units.
pub open spec fn spec_obstacle_size(obstacle: Obstacle) -> (int, int) {
    match obstacle {
        Obstacle::Bird2 => (979, 851),
        Obstacle::Cloud => (979, 287),
        Obstacle::CactusSmall1 => (362, 745),
        Obstacle::DinoRun2 => (936, 1_000),
        Obstacle::DinoRun1 => (936, 1_000),
        Obstacle::Bird1 => (979, 851),
        Obstacle::CactusSmall6 => (362, 745),
        Obstacle::DinoGameOver2 => (936, 1_000),
        Obstacle::Ground => (25_532, 255),
        Obstacle::CactusBig1 => (532, 1_064),
        Obstacle::CactusBig2 => (532, 1_064),
        Obstacle::CactusSmall3 => (362, 745),
        Obstacle::CactusSmall5 => (362, 745),
        Obstacle::DinoGameOver1 => (936, 1_000),
        Obstacle::CactusSmall2 => (362, 745),
        Obstacle::DinoDuck2 => (1_255, 638),
        Obstacle::DinoJump => (936, 1_000),
        Obstacle::CactusBigPair => (1_043, 1_064),
        Obstacle::CactusBigSmall => (1_596, 1_064),
        Obstacle::CactusSmall4 => (362, 745),
        Obstacle::DinoDuck1 => (1_255, 638),
    }
}

/// The kinds that the ground-obstacle generator may draw.
pub open spec fn is_cactus(obstacle: Obstacle) -> bool {
    match obstacle {
        Obstacle::CactusSmall1 | Obstacle::CactusSmall2 | Obstacle::CactusSmall3
        | Obstacle::CactusSmall4 | Obstacle::CactusSmall5 | Obstacle::CactusSmall6
        | Obstacle::CactusBig1 | Obstacle::CactusBig2 | Obstacle::CactusBigPair
        | Obstacle::CactusBigSmall => true,
        _ => false,
    }
}

/// Every obstacle is between 362 and 25 532 milli-units wide and between
/// 255 and 1 064 milli-units tall; every cactus is at most as tall as
/// `TALLEST_CACTUS`.
pub proof fn lemma_obstacle_size_bounds(obstacle: Obstacle)
    ensures
        362 <= spec_obstacle_size(obstacle).0 <= 25_532,
        255 <= spec_obstacle_size(obstacle).1 <= 1_064,
        spec_obstacle_size(obstacle).1 <= spec_obstacle_size(TALLEST_CACTUS).1,
{
}

/// Width and height of an obstacle, in milli-units.
pub fn obstacle_size(obstacle: &Obstacle) -> (size: (i64, i64))
    ensures
        size.0 == spec_obstacle_size(*obstacle).0,
        size.1 == spec_obstacle_size(*obstacle).1,
{
    match obstacle {
        Obstacle::Bird2 => (979, 851),
        Obstacle::Cloud => (979, 287),
        Obstacle::CactusSmall1 => (362, 745),
        Obstacle::DinoRun2 => (936, 1_000),
        Obstacle::DinoRun1 => (936, 1_000),
        Obstacle::Bird1 => (979, 851),
        Obstacle::CactusSmall6 => (362, 745),
        Obstacle::DinoGameOver2 => (936, 1_000),
        Obstacle::Ground => (25_532, 255),
        Obstacle::CactusBig1 => (532, 1_064),
        Obstacle::CactusBig2 => (532, 1_064),
        Obstacle::CactusSmall3 => (362, 745),
        Obstacle::CactusSmall5 => (362, 745),
        Obstacle::DinoGameOver1 => (936, 1_000),
        Obstacle::CactusSmall2 => (362, 745),
        Obstacle::DinoDuck2 => (1_255, 638),
        Obstacle::DinoJump => (936, 1_000),
        Obstacle::CactusBigPair => (1_043, 1_064),
        Obstacle::CactusBigSmall => (1_596, 1_064),
        Obstacle::CactusSmall4 => (362, 745),
        Obstacle::DinoDuck1 => (1_255, 638),
    }
}

/// The cactus kind each uniform draw in `0..=9` stands for.
pub open spec fn spec_cactus_from_draw(draw: u32) -> Obstacle {
    match draw {
        0u32 => Obstacle::CactusSmall5,
        1u32 => Obstacle::CactusBig1,
        2u32 => Obstacle::CactusBig2,
        3u32 => Obstacle::CactusSmall2,
        4u32 => Obstacle::CactusSmall4,
        5u32 => Obstacle::CactusSmall6,
        6u32 => Obstacle::CactusBigPair,
        7u32 => Obstacle::CactusSmall1,
        8u32 => Obstacle::CactusSmall3,
        _ => Obstacle::CactusBigSmall,
    }
}

/// Maps a uniform draw in `0..=9` to a cactus kind.
pub fn cactus_from_draw(draw: u32) -> (obstacle: Obstacle)
    requires
        draw <= 9,
    ensures
        obstacle == spec_cactus_from_draw(draw),
        is_cactus(obstacle),
{
    match draw {
        0 => Obstacle::CactusSmall5,
        1 => Obstacle::CactusBig1,
        2 => Obstacle::CactusBig2,
        3 => Obstacle::CactusSmall2,
        4 => Obstacle::CactusSmall4,
        5 => Obstacle::CactusSmall6,
        6 => Obstacle::CactusBigPair,
        7 => Obstacle::CactusSmall1,
        8 => Obstacle::CactusSmall3,
        _ => Obstacle::CactusBigSmall,
    }
}

/// Draws a uniformly random cactus kind.
pub fn random_cactus(rng: &mut rand::rngs::ThreadRng) -> (obstacle: Obstacle)
    ensures
        is_cactus(obstacle),
{
    let draw = rand_below(rng, 10);
    cactus_from_draw(draw)
}

} // verus!
