// A grid raycaster in exact integer arithmetic: light spread from torches
// and smoothed over cell corners (`lighting`), a flickering torch
// (`torch`), a tile map with sliding doors (`tilemap`), a DDA ray caster
// (`raycast`), the column painter (`screen`), sprite billboards (`sprite`)
// and the viewer's moves (`player`).
use vstd::prelude::*;

pub mod grid;
pub mod lighting;
pub mod player;
pub mod raycast;
pub mod screen;
pub mod sprite;
pub mod tilemap;
pub mod torch;

verus! {

/// The four compass faces a ray can strike.
#[derive(PartialEq, Eq, Structural, Clone, Copy, Debug)]
pub enum Orientation {
    N,
    E,
    S,
    W,
}

} // verus!
