use vstd::prelude::*;
use crate::cards::CardsError;

verus! {

/// The memory state of a card.
#[derive(PartialEq, Eq, Structural, Clone, Copy, Debug)]
pub enum MemoryState {
    New,
    Learning,
    Review,
    Relearning,
}

/// How well a card was recalled at a review.
#[derive(PartialEq, Eq, Structural, Clone, Copy, Debug)]
pub enum Rating {
    Again,
    Hard,
    Good,
    Easy,
}

/// The record of the most recent review of a card.
#[derive(PartialEq, Eq, Structural, Clone, Copy, Debug)]
pub struct ReviewLog {
    pub rating: Rating,
    pub elapsed_days: i64,
    pub scheduled_days: i64,
    pub state: MemoryState,
    /// Seconds since the Unix epoch.
    pub reviewed_date: i64,
}

/// The scheduling state of a card.
///
/// Times are seconds since the Unix epoch. Stability and difficulty are
/// memory parameters that only the scheduler interprets; they are carried as
/// the bit patterns of 32-bit floats.
#[derive(PartialEq, Eq, Structural, Clone, Copy, Debug)]
pub struct Schedule {
    pub due: i64,
    pub stability_bits: u32,
    pub difficulty_bits: u32,
    pub elapsed_days: i64,
    pub scheduled_days: i64,
    pub reps: i32,
    pub lapses: i32,
    pub state: MemoryState,
    pub last_review: i64,
    pub previous_state: MemoryState,
    pub log: Option<ReviewLog>,
}

/// The states that a review may lead to from state `from`.
pub open spec fn allowed_transition(from: MemoryState, to: MemoryState) -> bool {
    match from {
        MemoryState::New => to == MemoryState::Learning || to == MemoryState::Review,
        MemoryState::Learning => to != MemoryState::New,
        MemoryState::Review => to == MemoryState::Review || to == MemoryState::Relearning,
        MemoryState::Relearning => to == MemoryState::Review || to == MemoryState::Relearning,
    }
}

/// Whether a review may move a card from state `from` to state `to`.
pub fn is_allowed_transition(from: MemoryState, to: MemoryState) -> (r: bool)
    ensures
        r == allowed_transition(from, to),
{
    match from {
        MemoryState::New => to == MemoryState::Learning || to == MemoryState::Review,
        MemoryState::Learning => to != MemoryState::New,
        MemoryState::Review => to == MemoryState::Review || to == MemoryState::Relearning,
        MemoryState::Relearning => to == MemoryState::Review || to == MemoryState::Relearning,
    }
}

/// Whether `next`, proposed by the scheduler for a card in state `cur`, is an
/// acceptable result of a review: it follows an allowed transition and
/// carries a review log.
pub open spec fn valid_review(cur: Schedule, next: Schedule) -> bool {
    allowed_transition(cur.state, next.state) && next.log.is_some()
}

/// The schedule recorded after a review: the scheduler's result, with the
/// previous state and the review time stamped by the engine.
pub open spec fn reviewed(cur: Schedule, next: Schedule, now: i64) -> Schedule {
    Schedule { previous_state: cur.state, last_review: now, ..next }
}

/// Checks the scheduler's result `next` for a card whose schedule is `cur`
/// and, where it is acceptable, returns the schedule to record.
pub fn review_schedule(cur: Schedule, next: Schedule, now: i64) -> (r: Option<Schedule>)
    ensures
        r == (if valid_review(cur, next) { Some(reviewed(cur, next, now)) } else { None::<Schedule> }),
{
    if is_allowed_transition(cur.state, next.state) && next.log.is_some() {
        Some(Schedule { previous_state: cur.state, last_review: now, ..next })
    } else {
        None
    }
}

/// The code under which a memory state is stored (1 to 4).
pub fn state_code(s: MemoryState) -> (r: i64)
    ensures
        1 <= r <= 4,
        state_from_code(r) == Some(s),
{
    match s {
        MemoryState::New => 1,
        MemoryState::Learning => 2,
        MemoryState::Review => 3,
        MemoryState::Relearning => 4,
    }
}

pub open spec fn state_from_code(c: i64) -> Option<MemoryState> {
    if c == 1 {
        Some(MemoryState::New)
    } else if c == 2 {
        Some(MemoryState::Learning)
    } else if c == 3 {
        Some(MemoryState::Review)
    } else if c == 4 {
        Some(MemoryState::Relearning)
    } else {
        None
    }
}

/// Reads a stored memory state code; `InvalidState` for a code that names no
/// state.
pub fn state_of_code(c: i64) -> (r: Result<MemoryState, CardsError>)
    ensures
        r == match state_from_code(c) {
            Some(st) => Ok::<MemoryState, CardsError>(st),
            None => Err(CardsError::InvalidState),
        },
{
    if c == 1 {
        Ok(MemoryState::New)
    } else if c == 2 {
        Ok(MemoryState::Learning)
    } else if c == 3 {
        Ok(MemoryState::Review)
    } else if c == 4 {
        Ok(MemoryState::Relearning)
    } else {
        Err(CardsError::InvalidState)
    }
}

pub open spec fn rating_from_code(c: i64) -> Option<Rating> {
    if c == 1 {
        Some(Rating::Again)
    } else if c == 2 {
        Some(Rating::Hard)
    } else if c == 3 {
        Some(Rating::Good)
    } else if c == 4 {
        Some(Rating::Easy)
    } else {
        None
    }
}

/// Reads a rating code (1 Again, 2 Hard, 3 Good, 4 Easy);
/// `SchedulingFailure` for a code that names no rating.
pub fn rating_of_code(c: i64) -> (r: Result<Rating, CardsError>)
    ensures
        r == match rating_from_code(c) {
            Some(g) => Ok::<Rating, CardsError>(g),
            None => Err(CardsError::SchedulingFailure),
        },
{
    if c == 1 {
        Ok(Rating::Again)
    } else if c == 2 {
        Ok(Rating::Hard)
    } else if c == 3 {
        Ok(Rating::Good)
    } else if c == 4 {
        Ok(Rating::Easy)
    } else {
        Err(CardsError::SchedulingFailure)
    }
}

/// The code under which a rating is stored (1 to 4).
pub fn rating_code(r: Rating) -> (c: i64)
    ensures
        1 <= c <= 4,
        rating_from_code(c) == Some(r),
{
    match r {
        Rating::Again => 1,
        Rating::Hard => 2,
        Rating::Good => 3,
        Rating::Easy => 4,
    }
}

} // verus!
