//! Player actions, the draw-count mode, and the errors an action can raise.

use vstd::prelude::*;

use crate::card::Position;

verus! {

/// An action a player can ask the engine to perform.
#[derive(Debug, Clone, Copy, PartialEq, Eq, Structural)]
pub enum GameAction {
    /// Move card(s) from one position to another
    MoveCard { from: Position, to: Position },
    /// Flip a face-down tableau top card face-up
    FlipCard(Position),
    /// Deal cards from stock to waste pile
    DealFromStock,
    /// Start a new game
    NewGame,
    /// Undo the last move
    Undo,
}

/// How many cards a deal moves from stock to waste.
#[derive(Debug, Clone, Copy, PartialEq, Eq, Structural)]
pub enum DrawCount {
    /// Deal 1 card at a time from stock (easier)
    One,
    /// Deal up to 3 cards at a time from stock (harder)
    Three,
}

/// Why an action was rejected. A rejected action never changes the state.
#[derive(Debug, Clone, Copy, PartialEq, Eq, Structural)]
pub enum ErrorKind {
    /// A tableau column index is out of range
    InvalidColumn,
    /// A card index inside a pile is out of range
    InvalidIndex,
    /// Only the top card of a pile can be flipped
    NotTopCard,
    /// The card to flip is already face-up
    AlreadyFaceUp,
    /// The position kind does not support the requested action
    WrongPileKind,
    /// Both stock and waste are empty, nothing to deal
    EmptyPiles,
    /// No liftable run starts at the source position
    NoMovableCards,
    /// A run of several cards can only land on a tableau column
    InvalidSequenceTarget,
    /// The run's first card cannot rest on the destination column
    IllegalTableauPlacement,
    /// The card cannot rest on the destination foundation
    IllegalFoundationPlacement,
    /// Source and destination are the same pile
    NoOpMove,
    /// The undo history is empty
    NothingToUndo,
}

} // verus!
