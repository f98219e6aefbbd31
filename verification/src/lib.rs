//! A damage meter for Granblue Fantasy: Relink.
//!
//! A hook inside the running game sees every hit. It finds out who dealt it
//! and who took it, which player stands behind a pet or a form, and which
//! modifiers the hit was computed from, and tells the meter about it. The meter
//! adds the hits of each skill up and says what its damage is made of.
//!
//! * [`process`] finds the game and searches its code for functions to hook.
//! * [`hooks`] holds the hooks: [`hooks::damage`] for hits,
//!   [`hooks::damage_details`] with [`hooks::status_collection`] and
//!   [`hooks::status_layout`] for their modifiers, and [`hooks::player`] for
//!   the players.
//! * [`protocol`] holds the messages from the hook to the meter.
//! * [`skill_state`] holds the statistics of a skill, and [`grouping`] the
//!   grouping of modifiers by status.
//!
//! The memory of the game, its functions and rounding arithmetic answer as
//! they please. [`memory::Memory`], [`hooks::Actors`],
//! [`hooks::status_collection::StatusCalls`] and [`arithmetic::Arithmetic`]
//! name what is asked of them and promise nothing of the answers; contracts
//! say, by [`outcome`] sets, what follows from whatever they are.

pub mod arithmetic;
pub mod grouping;
pub mod hooks;
pub mod memory;
pub mod outcome;
pub mod process;
pub mod protocol;
pub mod skill_state;
pub mod text;
