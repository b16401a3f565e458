//! The timer units as the engine sees them: each is a shared atomic counter
//! that a host-side 60Hz task drives upward toward its idle value, while the
//! engine reads and re-arms it at arbitrary times. A counter value `g`
//! stands for a remaining countdown of `255 - g % 256`; pushing the counter
//! to the terminal value or past it is the shutdown signal for its task.
//! Reads race benignly with the ticking task, so no contract here pins the
//! value a read observes; what the engine and the task compute *from* an
//! observed value is verified below.

use vstd::prelude::*;

use atomic_counter::AtomicCounter;
use atomic_counter::RelaxedCounter;
use std::sync::Arc;

verus! {

/// The counter value at which a timer unit's task stops for good.
pub const TERMINAL_COUNT: usize = 256;

#[verifier::external_type_specification]
#[verifier::external_body]
pub struct ExRelaxedCounter(RelaxedCounter);

/// Relies on atomic_counter::RelaxedCounter::new: a fresh shared counter,
/// here armed at 255, the value that stands for a countdown of zero.
#[verifier::external_body]
pub fn create_counter() -> (r: Arc<RelaxedCounter>) {
    Arc::new(RelaxedCounter::new(255))
}

/// Relies on atomic_counter::AtomicCounter::get for RelaxedCounter: an atomic
/// load of the shared value. A concurrent tick may change it at any moment,
/// so nothing is promised of the result.
#[verifier::external_body]
pub fn counter_get(c: &Arc<RelaxedCounter>) -> (r: usize) {
    (**c).get()
}

/// Relies on atomic_counter::AtomicCounter::reset for RelaxedCounter: an
/// atomic swap of the shared value to zero.
#[verifier::external_body]
pub fn counter_reset(c: &Arc<RelaxedCounter>) {
    (**c).reset();
}

/// Relies on atomic_counter::AtomicCounter::add for RelaxedCounter: an atomic
/// wrapping addition of `amount` to the shared value.
#[verifier::external_body]
pub fn counter_add(c: &Arc<RelaxedCounter>, amount: usize) {
    (**c).add(amount);
}

/// The remaining countdown that an observed counter value stands for.
pub open spec fn countdown_of(g: usize) -> u8 {
    (255 - (g % 256)) as u8
}

/// Maps an observed counter value to the timer value the engine reports.
pub fn timer_value(g: usize) -> (r: u8)
    ensures
        r == countdown_of(g),
{
    let m = g % 256;
    return 255 - (m as u8);
}

/// The amount a unit's counter is re-armed with after a reset, so that the
/// remaining countdown equals `vx`.
pub fn arm_amount(vx: u8) -> (r: usize)
    ensures
        r == 255 - vx as int,
{
    return 255 - vx as usize;
}

/// One decision of a 60Hz timer task, from the counter value it observed:
/// count down (that is, step the counter toward its idle value) only while
/// below the idle value, and keep ticking only while the counter has not
/// been driven to the terminal value.
pub fn tick_decision(g: usize) -> (r: (bool, bool))
    ensures
        r.0 == (g < 255),
        r.1 == (g < TERMINAL_COUNT),
{
    return (g < 255, g < TERMINAL_COUNT);
}

/// One tick of a timer unit's task: observe the shared counter, count down
/// if the unit is armed, and report whether the task should keep running.
/// The observation itself races with the engine, so only the decision taken
/// from it is contract-pinned (in `tick_decision`).
pub fn ticker_step(c: &Arc<RelaxedCounter>) -> (cont: bool) {
    let g = counter_get(c);
    let (count, cont) = tick_decision(g);
    if count {
        counter_add(c, 1);
    }
    return cont;
}

} // verus!
