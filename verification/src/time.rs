use vstd::prelude::*;

verus! {

pub const SECONDS_PER_DAY: u64 = 86_400;

pub const DAYS_PER_YEAR: u32 = 365;

/// Simulated seconds covered by one fixed simulation tick.
pub const SIMULATION_TICK_SECONDS: u64 = 60;

/// Fixed simulation ticks in one simulated day.
pub const SIMULATION_TICKS_PER_DAY: u32 = 1440;

/// Fixed simulation ticks in one simulated year.
pub const SIMULATION_TICKS_PER_YEAR: u32 = 525_600;

/// One tick covers a whole number of seconds, and a day a whole number of ticks.
pub proof fn lemma_tick_constants_agree()
    ensures
        SIMULATION_TICKS_PER_DAY * SIMULATION_TICK_SECONDS == SECONDS_PER_DAY,
        SIMULATION_TICKS_PER_YEAR == SIMULATION_TICKS_PER_DAY * DAYS_PER_YEAR,
{
}

} // verus!
