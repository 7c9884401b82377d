//! Rules engine for Klondike solitaire.
//!
//! The library owns the authoritative game state (tableau, foundations,
//! stock, waste), validates and applies player actions, and decides the
//! win condition. Rendering and input handling are left to callers.

pub mod actions;
pub mod card;
pub mod pile;
pub mod state;
pub mod text;
