//! Jumping to short character sequences on screen.
//!
//! The user types a few characters; every occurrence of them in the
//! visible region is found, and the one to jump to is picked either by
//! cycling through the occurrences or by typing the label shown over it.
//! This crate holds the decisions of that interaction: which labels are
//! shown, which occurrence is focused, what key is searched for, and how
//! each key press moves the session on. The host editor does the
//! searching and drawing, as the [`sneak::Action`]s it is handed ask.
pub mod labels;
pub mod matches;
pub mod pattern;
pub mod sneak;
