use vstd::prelude::*;

verus! {

/// What the trajectory demo does with the projectile's current position.
#[derive(Clone, Copy, Debug, PartialEq, Eq, Structural)]
pub enum TrajectoryStep {
    /// The projectile has left the canvas: the flight is over.
    Stop,
    /// Mark the pixel in column `x`, row `y` (rows count down from the top).
    Plot { x: usize, y: usize },
    /// The position lies on the canvas's far edge, which has no pixel: mark
    /// nothing and go on.
    Pass,
}

/// A position, rounded to whole units with `y` counting up from the bottom,
/// has left a `width` by `height` canvas: it is left of or below the origin,
/// or beyond the far edges.
pub open spec fn out_of_bounds(x: int, y: int, width: nat, height: nat) -> bool {
    x < 0 || y < 0 || x > width || y > height
}

/// The projectile at `(x, y)` has left the canvas; see `out_of_bounds`.
pub fn coords_out_of_bounds(x: i64, y: i64, width: usize, height: usize) -> (r: bool)
    ensures
        r == out_of_bounds(x as int, y as int, width as nat, height as nat),
{
    x < 0 || y < 0 || x as u64 > width as u64 || y as u64 > height as u64
}

/// The decision for a projectile at `(x, y)` over a `width` by `height`
/// canvas: stop once it is out of bounds, else mark the pixel at its place,
/// with the rows flipped so that up is up.
pub fn trajectory_step(x: i64, y: i64, width: usize, height: usize) -> (s: TrajectoryStep)
    ensures
        out_of_bounds(x as int, y as int, width as nat, height as nat) ==> s == TrajectoryStep::Stop,
        !out_of_bounds(x as int, y as int, width as nat, height as nat) && x < width && y > 0 ==> s
            == (TrajectoryStep::Plot { x: x as usize, y: (height - y) as usize }),
        !out_of_bounds(x as int, y as int, width as nat, height as nat) && (x == width || y == 0)
            ==> s == TrajectoryStep::Pass,
{
    if coords_out_of_bounds(x, y, width, height) {
        TrajectoryStep::Stop
    } else if (x as u64) < width as u64 && y > 0 {
        TrajectoryStep::Plot { x: x as usize, y: height - y as usize }
    } else {
        TrajectoryStep::Pass
    }
}

} // verus!
