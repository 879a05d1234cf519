//! What a navigator heads for, and when it regenerates its path.
use vstd::prelude::*;
use bevy_ecs::entity::Entity;
use glam::Vec2;

verus! {

/// A target to navigate to
#[derive(Clone, Copy, Debug)]
pub enum PathTarget {
    /// A position
    Static(Vec2),
    /// An entity that has a position
    Dynamic(Entity),
}

/// The largest duration, in nanoseconds: a time that never comes.
pub const NEVER: u128 = 18_446_744_073_709_551_615_999_999_999;

/// Whether a navigator regenerates its path on this tick, and when it does so
/// next. Times are nanoseconds since startup. With a repath interval the path
/// is regenerated once the due time has come, and falls due again one interval
/// later; without one it is made on the first tick (due time zero) and never again.
pub fn repath_due(repath_frequency: Option<u128>, next_repath: u128, elapsed: u128) -> (r: (
    bool,
    u128,
))
    requires
        next_repath <= elapsed ==> (repath_frequency matches Some(f) ==> elapsed + f <= NEVER),
    ensures
        r == match repath_frequency {
            Some(f) => if next_repath <= elapsed {
                (true, (elapsed + f) as u128)
            } else {
                (false, next_repath)
            },
            None => if next_repath == 0 {
                (true, NEVER)
            } else {
                (false, next_repath)
            },
        },
{
    match repath_frequency {
        Some(repath_frequency) => {
            if next_repath <= elapsed {
                (true, elapsed + repath_frequency)
            } else {
                (false, next_repath)
            }
        },
        None => {
            if next_repath == 0 {
                (true, NEVER)
            } else {
                (false, next_repath)
            }
        },
    }
}

} // verus!
