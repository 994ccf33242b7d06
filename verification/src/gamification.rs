//! Gamification: achievement badges, leaderboards, streaks, challenges,
//! rewards and progression tiers.

use vstd::prelude::*;

verus! {

/// The gamification engine contract.
pub struct GamificationEngine;

} // verus!
