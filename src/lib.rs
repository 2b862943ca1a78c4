//! A review queue engine for spaced repetition over named decks of cards.
//!
//! `schedule` models a card's scheduling state and the rules of a review
//! transition, `queue` builds the ordered queue of cards due for review, and
//! `cards` holds the decks together with the cached queue that every mutation
//! rebuilds.
pub mod schedule;
pub mod queue;
pub mod cards;
