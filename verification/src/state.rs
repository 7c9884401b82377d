//! The aggregate game state and the action dispatcher: dealing, flipping,
//! moving runs of cards, undo, and win detection, with the state invariants
//! they preserve.

use vstd::prelude::*;
use vstd::multiset::Multiset;
use vstd::string::StringExecFns;

use rand::seq::SliceRandom;

use crate::actions::{DrawCount, ErrorKind, GameAction};
use crate::card::{create_deck, full_deck, Card, Rank, Suit};
use crate::pile::{
    all_face_down, all_face_up, card_id, face_up_suffix, foundation_wf, liftable_prefix,
    liftable_run,
    lemma_face_down_from_multiset, lemma_foundation_drop, lemma_foundation_push,
    lemma_liftable_prefix_step, lemma_pile_ids_concat,
    lemma_pile_ids_drop_last, lemma_suffix_append_face_up, lemma_suffix_take,
    lemma_pile_ids_empty, lemma_pile_ids_push, lemma_pile_ids_reverse, lemma_pile_ids_split,
    lemma_pile_ids_turned, lemma_pile_ids_update, lemma_piles_ids_all_empty,
    lemma_piles_ids_push, lemma_piles_ids_update, pile_ids, piles_ids, turned_down, turned_up,
};
use crate::text::{dec_spec, u64_string};

pub use crate::card::Position;

verus! {

/// How many prior states the undo history retains at most.
pub const HISTORY_LIMIT: usize = 100;

/// A saved board: everything `Undo` restores.
#[derive(Debug, Clone)]
pub struct Snapshot {
    pub tableau: Vec<Vec<Card>>,
    pub foundations: Vec<Vec<Card>>,
    pub stock: Vec<Card>,
    pub waste: Vec<Card>,
    pub move_count: u32,
    pub game_won: bool,
}

/// The aggregate root of a Klondike game.
#[derive(Debug, Clone)]
pub struct GameState {
    /// Seven tableau columns (0-6), each a stack of cards, bottom first
    pub tableau: Vec<Vec<Card>>,
    /// Four foundation piles (0-3), each built ascending from Ace in one suit
    pub foundations: Vec<Vec<Card>>,
    /// Stock pile (face-down cards to deal from, dealt from the end)
    pub stock: Vec<Card>,
    /// Waste pile (face-up cards dealt from stock, most recent last)
    pub waste: Vec<Card>,
    /// Number of state-changing actions applied to the current game
    pub move_count: u32,
    /// Seconds since the Unix epoch when the current game started
    pub start_time: u64,
    /// Whether all 52 cards rest on the foundations
    pub game_won: bool,
    /// How many cards to draw from stock at once
    pub draw_count: DrawCount,
    /// Saved boards for `Undo`, oldest first
    pub history: Vec<Snapshot>,
}

/// The views of a vector of piles.
pub open spec fn piles_view(v: Vec<Vec<Card>>) -> Seq<Seq<Card>> {
    v@.map_values(|p: Vec<Card>| p@)
}

/// The multiset of card identities a whole board holds.
pub open spec fn board_ids(
    t: Seq<Seq<Card>>,
    f: Seq<Seq<Card>>,
    stock: Seq<Card>,
    waste: Seq<Card>,
) -> Multiset<(Suit, Rank)> {
    piles_ids(t).add(piles_ids(f)).add(pile_ids(stock)).add(pile_ids(waste))
}

/// The identities of the full 52-card deck: each suit-rank pair once.
pub open spec fn full_deck_ids() -> Multiset<(Suit, Rank)> {
    pile_ids(full_deck())
}

/// The invariants every reachable board satisfies: 7 tableau columns whose
/// face-up cards sit on top, 4 ascending one-suit foundations, a face-down
/// stock, a face-up waste, the win flag true exactly when every foundation
/// holds 13 cards, and conservation: the piles together hold exactly the
/// 52 distinct cards of the deck.
pub open spec fn board_ok(
    t: Seq<Seq<Card>>,
    f: Seq<Seq<Card>>,
    stock: Seq<Card>,
    waste: Seq<Card>,
    won: bool,
) -> bool {
    &&& t.len() == 7
    &&& f.len() == 4
    &&& board_ids(t, f, stock, waste) == full_deck_ids()
    &&& forall|c: int| 0 <= c < 7 ==> face_up_suffix(#[trigger] t[c])
    &&& forall|i: int| 0 <= i < 4 ==> foundation_wf(#[trigger] f[i])
    &&& all_face_down(stock)
    &&& all_face_up(waste)
    &&& (won <==> forall|i: int| 0 <= i < 4 ==> (#[trigger] f[i]).len() == 13)
}

/// A snapshot that satisfies the board invariants.
pub open spec fn snap_wf(s: Snapshot) -> bool {
    board_ok(
        piles_view(s.tableau),
        piles_view(s.foundations),
        s.stock@,
        s.waste@,
        s.game_won,
    )
}

impl GameState {
    /// The cards of tableau column `c`.
    pub open spec fn tab(self, c: int) -> Seq<Card> {
        self.tableau@[c]@
    }

    /// The cards of foundation pile `f`.
    pub open spec fn fnd(self, f: int) -> Seq<Card> {
        self.foundations@[f]@
    }

    /// The views of the tableau columns.
    pub open spec fn tabs(self) -> Seq<Seq<Card>> {
        piles_view(self.tableau)
    }

    /// The views of the foundation piles.
    pub open spec fn fnds(self) -> Seq<Seq<Card>> {
        piles_view(self.foundations)
    }

    /// The multiset of card identities the whole state holds.
    pub open spec fn cards_ids(self) -> Multiset<(Suit, Rank)> {
        board_ids(self.tabs(), self.fnds(), self.stock@, self.waste@)
    }

    /// All four foundations are complete.
    pub open spec fn spec_won(self) -> bool {
        forall|f: int| 0 <= f < 4 ==> (#[trigger] self.fnd(f)).len() == 13
    }

    /// The board invariants, on the current piles.
    pub open spec fn board_wf(self) -> bool {
        board_ok(self.tabs(), self.fnds(), self.stock@, self.waste@, self.game_won)
    }

    /// The full invariant: board invariants, and a bounded history of
    /// boards that satisfy them too.
    pub open spec fn wf(self) -> bool {
        &&& self.board_wf()
        &&& self.history@.len() <= HISTORY_LIMIT
        &&& forall|i: int| 0 <= i < self.history@.len() ==> snap_wf(#[trigger] self.history@[i])
    }

    /// The state's piles and counters equal the snapshot's.
    pub open spec fn board_eq_snap(self, s: Snapshot) -> bool {
        &&& piles_view(self.tableau) == piles_view(s.tableau)
        &&& piles_view(self.foundations) == piles_view(s.foundations)
        &&& self.stock@ == s.stock@
        &&& self.waste@ == s.waste@
        &&& self.move_count == s.move_count
        &&& self.game_won == s.game_won
    }

    /// Two states agree on every pile, the move counter, and the win flag.
    pub open spec fn same_board(self, other: GameState) -> bool {
        &&& self.tabs() == other.tabs()
        &&& self.fnds() == other.fnds()
        &&& self.stock@ == other.stock@
        &&& self.waste@ == other.waste@
        &&& self.move_count == other.move_count
        &&& self.game_won == other.game_won
    }

    /// The shape of a freshly dealt game: column `c` holds `c + 1` cards
    /// with only the last face-up, the stock holds the remaining 24 cards,
    /// foundations and waste are empty, nothing has been played yet.
    pub open spec fn fresh_board(self) -> bool {
        &&& forall|c: int| 0 <= c < 7 ==> (#[trigger] self.tab(c)).len() == c + 1
        &&& forall|c: int, i: int|
            0 <= c < 7 && 0 <= i < self.tab(c).len()
                ==> ((#[trigger] self.tab(c)[i]).face_up <==> i == c)
        &&& self.stock@.len() == 24
        &&& forall|f: int| 0 <= f < 4 ==> (#[trigger] self.fnd(f)).len() == 0
        &&& self.waste@.len() == 0
        &&& self.move_count == 0
        &&& !self.game_won
    }

    /// `post` is `pre` with a snapshot of `pre`'s board pushed onto the
    /// history, the oldest entry dropped when the history was full.
    pub open spec fn pushed_history(pre: GameState, post: GameState) -> bool {
        &&& post.history@.len() >= 1
        &&& post.history@.len() <= HISTORY_LIMIT
        &&& pre.board_eq_snap(post.history@.last())
        &&& post.history@.drop_last() == (if pre.history@.len() < HISTORY_LIMIT {
            pre.history@
        } else {
            pre.history@.drop_first()
        })
    }

    /// The error flipping at `pos` raises, if any. Only the face-down top
    /// card of a tableau column can be flipped.
    pub open spec fn flip_error(self, pos: Position) -> Option<ErrorKind> {
        match pos {
            Position::Tableau(col, idx) => if col >= 7 {
                Some(ErrorKind::InvalidColumn)
            } else if idx >= self.tab(col as int).len() {
                Some(ErrorKind::InvalidIndex)
            } else if idx as int != self.tab(col as int).len() - 1 {
                Some(ErrorKind::NotTopCard)
            } else if self.tab(col as int)[idx as int].face_up {
                Some(ErrorKind::AlreadyFaceUp)
            } else {
                None
            },
            _ => Some(ErrorKind::WrongPileKind),
        }
    }

    /// `post` is `pre` with the card at tableau position `pos` turned
    /// face-up, the move counter one higher, and a snapshot of `pre`
    /// pushed for undo.
    pub open spec fn flip_applied(pre: GameState, post: GameState, pos: Position) -> bool {
        &&& (pos matches Position::Tableau(col, idx) && post.tabs() == pre.tabs().update(
            col as int,
            pre.tab(col as int).update(
                idx as int,
                Card { face_up: true, ..pre.tab(col as int)[idx as int] },
            ),
        ))
        &&& post.fnds() == pre.fnds()
        &&& post.stock@ == pre.stock@
        &&& post.waste@ == pre.waste@
        &&& post.move_count == pre.move_count + 1
        &&& post.game_won == pre.game_won
        &&& post.draw_count == pre.draw_count
        &&& post.start_time == pre.start_time
        &&& GameState::pushed_history(pre, post)
    }

    /// The liftable run starting at `pos`: a single top card of the waste
    /// or of a foundation, or the whole face-up descending alternating-color
    /// run from `pos` to the top of a tableau column; empty when nothing at
    /// `pos` is liftable.
    pub open spec fn lift_from(self, pos: Position) -> Seq<Card> {
        match pos {
            Position::Stock => Seq::<Card>::empty(),
            Position::Waste(idx) => if self.waste@.len() > 0 && idx as int == self.waste@.len()
                - 1 {
                seq![self.waste@.last()]
            } else {
                Seq::<Card>::empty()
            },
            Position::Foundation(p) => if p < 4 && self.fnd(p as int).len() > 0 {
                seq![self.fnd(p as int).last()]
            } else {
                Seq::<Card>::empty()
            },
            Position::Tableau(col, idx) => if col < 7 && (idx as int) < self.tab(
                col as int,
            ).len() && liftable_run(self.tab(col as int), idx as int) {
                self.tab(col as int).skip(idx as int)
            } else {
                Seq::<Card>::empty()
            },
        }
    }

    /// The error moving the run at `from` onto `to` raises, if any,
    /// checked in order: a liftable run must exist, several cards can only
    /// land on a tableau column, the destination must be in range and
    /// accept the run's bottom card, and the destination must differ from
    /// the source pile.
    pub open spec fn move_error(self, from: Position, to: Position) -> Option<ErrorKind> {
        let run = self.lift_from(from);
        if run.len() == 0 {
            Some(ErrorKind::NoMovableCards)
        } else if run.len() > 1 && !(to is Tableau) {
            Some(ErrorKind::InvalidSequenceTarget)
        } else {
            let lead = run[0];
            match to {
                Position::Tableau(col, _) => if col >= 7 {
                    Some(ErrorKind::InvalidColumn)
                } else if !(self.tab(col as int).len() == 0 && lead.rank is King || self.tab(
                    col as int,
                ).len() > 0 && lead.spec_can_place_on_tableau(self.tab(col as int).last())) {
                    Some(ErrorKind::IllegalTableauPlacement)
                } else if spec_same_pile(from, to) {
                    Some(ErrorKind::NoOpMove)
                } else {
                    None
                },
                Position::Foundation(f) => if f >= 4 {
                    Some(ErrorKind::InvalidIndex)
                } else if !lead.spec_can_place_on_foundation(
                    if self.fnd(f as int).len() == 0 {
                        None
                    } else {
                        Some(self.fnd(f as int).last())
                    },
                ) {
                    Some(ErrorKind::IllegalFoundationPlacement)
                } else if spec_same_pile(from, to) {
                    Some(ErrorKind::NoOpMove)
                } else {
                    None
                },
                _ => Some(ErrorKind::WrongPileKind),
            }
        }
    }

    /// The tableau columns after the run at `from` is removed.
    pub open spec fn tabs_removed(self, from: Position) -> Seq<Seq<Card>> {
        match from {
            Position::Tableau(cf, idx) => self.tabs().update(
                cf as int,
                self.tab(cf as int).take(idx as int),
            ),
            _ => self.tabs(),
        }
    }

    /// The foundation piles after the run at `from` is removed.
    pub open spec fn fnds_removed(self, from: Position) -> Seq<Seq<Card>> {
        match from {
            Position::Foundation(p) => self.fnds().update(
                p as int,
                self.fnd(p as int).drop_last(),
            ),
            _ => self.fnds(),
        }
    }

    /// The waste pile after the run at `from` is removed.
    pub open spec fn waste_removed(self, from: Position) -> Seq<Card> {
        match from {
            Position::Waste(_) => self.waste@.drop_last(),
            _ => self.waste@,
        }
    }

    /// `post` is `pre` after a successful move: the liftable run at `from`
    /// leaves its source pile from the tail and lands, in order, on top of
    /// the destination pile; the move counter grows by one, a snapshot of
    /// `pre` is pushed for undo, and the win flag is recomputed.
    pub open spec fn move_applied(
        pre: GameState,
        post: GameState,
        from: Position,
        to: Position,
    ) -> bool {
        let run = pre.lift_from(from);
        let t1 = pre.tabs_removed(from);
        let f1 = pre.fnds_removed(from);
        let w1 = pre.waste_removed(from);
        &&& match to {
            Position::Tableau(ct, _) => post.tabs() == t1.update(
                ct as int,
                t1[ct as int] + run,
            ) && post.fnds() == f1 && post.waste@ == w1,
            Position::Foundation(p) => post.fnds() == f1.update(
                p as int,
                f1[p as int] + run,
            ) && post.tabs() == t1 && post.waste@ == w1,
            _ => false,
        }
        &&& post.stock@ == pre.stock@
        &&& post.move_count == pre.move_count + 1
        &&& post.draw_count == pre.draw_count
        &&& post.start_time == pre.start_time
        &&& GameState::pushed_history(pre, post)
        &&& (post.game_won <==> forall|i: int|
            0 <= i < 4 ==> (#[trigger] post.fnds()[i]).len() == 13)
    }

    /// Whether clicking `pos` can do anything: the stock always deals;
    /// a tableau position only as the top card of its column.
    pub open spec fn spec_can_click(self, pos: Position) -> bool {
        match pos {
            Position::Stock => true,
            Position::Tableau(col, idx) => col < 7 && (idx as int) < self.tab(col as int).len()
                && idx as int == self.tab(col as int).len() - 1,
            Position::Waste(_) => false,
            Position::Foundation(_) => false,
        }
    }

    /// Whether `card` may land on tableau column `col`: a King on an empty
    /// column, else a card placeable on the column's top card.
    pub open spec fn spec_can_drop_on_tableau(self, card: Card, col: int) -> bool {
        &&& 0 <= col < 7
        &&& if self.tab(col).len() == 0 {
            card.rank is King
        } else {
            card.spec_can_place_on_tableau(self.tab(col).last())
        }
    }

    /// Whether `card` may land on foundation `f`.
    pub open spec fn spec_can_drop_on_foundation(self, card: Card, f: int) -> bool {
        &&& 0 <= f < 4
        &&& card.spec_can_place_on_foundation(
            if self.fnd(f).len() == 0 {
                None
            } else {
                Some(self.fnd(f).last())
            },
        )
    }

    /// The tableau drop targets among columns `0..n` for a run led by
    /// `lead`, lowest column first, skipping the run's own source column.
    pub open spec fn tab_targets(self, lead: Card, source: Position, n: int) -> Seq<Position>
        decreases n,
    {
        if n <= 0 {
            Seq::<Position>::empty()
        } else {
            let rest = self.tab_targets(lead, source, n - 1);
            if self.spec_can_drop_on_tableau(lead, n - 1) && !spec_is_same_position(
                source,
                Position::Tableau((n - 1) as usize, 0),
            ) {
                rest.push(Position::Tableau((n - 1) as usize, self.tab(n - 1).len() as usize))
            } else {
                rest
            }
        }
    }

    /// The foundation drop targets among piles `0..n` for a single card.
    pub open spec fn fnd_targets(self, lead: Card, n: int) -> Seq<Position>
        decreases n,
    {
        if n <= 0 {
            Seq::<Position>::empty()
        } else {
            let rest = self.fnd_targets(lead, n - 1);
            if self.spec_can_drop_on_foundation(lead, n - 1) {
                rest.push(Position::Foundation((n - 1) as usize))
            } else {
                rest
            }
        }
    }

    /// Every position where the dragged run may be dropped: the fitting
    /// tableau columns, and, for a single card, the fitting foundations.
    pub open spec fn spec_drop_targets(self, cards: Seq<Card>, source: Position) -> Seq<
        Position,
    > {
        if cards.len() == 0 {
            Seq::<Position>::empty()
        } else {
            self.tab_targets(cards[0], source, 7) + (if cards.len() == 1 {
                self.fnd_targets(cards[0], 4)
            } else {
                Seq::<Position>::empty()
            })
        }
    }

    /// The characters of the one-line status summary.
    pub open spec fn spec_summary(self) -> Seq<char> {
        "Moves: "@ + dec_spec(self.move_count as int) + " | Stock: "@ + dec_spec(
            self.stock@.len() as int,
        ) + " | Waste: "@ + dec_spec(self.waste@.len() as int) + " | Draw: "@ + (
        if self.draw_count is Three {
            "Three"@
        } else {
            "One"@
        })
    }

    /// The error undoing raises, if any: only when the history is empty.
    pub open spec fn undo_error(self) -> Option<ErrorKind> {
        if self.history@.len() == 0 {
            Some(ErrorKind::NothingToUndo)
        } else {
            None
        }
    }

    /// `post` is `pre` with the most recent snapshot popped from the
    /// history and restored: every pile, the move counter, and the win
    /// flag return to their saved values.
    pub open spec fn undo_applied(pre: GameState, post: GameState) -> bool {
        &&& pre.history@.len() > 0
        &&& post.board_eq_snap(pre.history@.last())
        &&& post.history@ == pre.history@.drop_last()
        &&& post.draw_count == pre.draw_count
        &&& post.start_time == pre.start_time
    }

    /// `post` is a freshly dealt game in `pre`'s draw mode, with a
    /// snapshot of `pre` pushed for undo.
    pub open spec fn newgame_applied(pre: GameState, post: GameState) -> bool {
        &&& post.fresh_board()
        &&& post.draw_count == pre.draw_count
        &&& GameState::pushed_history(pre, post)
    }

    /// The error `action` raises on this state, if any.
    pub open spec fn action_error(self, action: GameAction) -> Option<ErrorKind> {
        match action {
            GameAction::DealFromStock => self.deal_error(),
            GameAction::FlipCard(pos) => self.flip_error(pos),
            GameAction::MoveCard { from, to } => self.move_error(from, to),
            GameAction::NewGame => None,
            GameAction::Undo => self.undo_error(),
        }
    }

    /// The error dealing raises, if any: only when both piles are empty.
    pub open spec fn deal_error(self) -> Option<ErrorKind> {
        if self.stock@.len() == 0 && self.waste@.len() == 0 {
            Some(ErrorKind::EmptyPiles)
        } else {
            None
        }
    }

    /// `post` is `pre` after one successful deal: with a non-empty stock,
    /// the top `deal_amount` stock cards move to the waste, turned face-up,
    /// in the order they are dealt; with an empty stock, the whole waste is
    /// recycled into the stock face-down in reverse order. The move counter
    /// grows by one and a snapshot of `pre` is pushed for undo.
    pub open spec fn deal_applied(pre: GameState, post: GameState) -> bool {
        &&& post.tabs() == pre.tabs()
        &&& post.fnds() == pre.fnds()
        &&& post.move_count == pre.move_count + 1
        &&& post.game_won == pre.game_won
        &&& post.draw_count == pre.draw_count
        &&& post.start_time == pre.start_time
        &&& GameState::pushed_history(pre, post)
        &&& if pre.stock@.len() == 0 {
            post.stock@ == turned_down(pre.waste@.reverse())
                && post.waste@ == Seq::<Card>::empty()
        } else {
            let k = deal_amount(pre.draw_count, pre.stock@.len() as int);
            post.stock@ == pre.stock@.take(pre.stock@.len() - k)
                && post.waste@ == pre.waste@
                + turned_up(pre.stock@.skip(pre.stock@.len() - k).reverse())
        }
    }
}

/// Whether two positions lie in the same tableau column; any other pair
/// of positions counts as distinct for drop-target purposes.
pub open spec fn spec_is_same_position(a: Position, b: Position) -> bool {
    match (a, b) {
        (Position::Tableau(c1, _), Position::Tableau(c2, _)) => c1 == c2,
        _ => false,
    }
}

/// Whether two positions address the same pile: the same tableau column,
/// the same foundation, the stock, or the waste.
pub open spec fn spec_same_pile(a: Position, b: Position) -> bool {
    match (a, b) {
        (Position::Tableau(c1, _), Position::Tableau(c2, _)) => c1 == c2,
        (Position::Foundation(p1), Position::Foundation(p2)) => p1 == p2,
        (Position::Stock, Position::Stock) => true,
        (Position::Waste(_), Position::Waste(_)) => true,
        _ => false,
    }
}

fn same_pile(a: Position, b: Position) -> (r: bool)
    ensures
        r == spec_same_pile(a, b),
{
    match (a, b) {
        (Position::Tableau(c1, _), Position::Tableau(c2, _)) => c1 == c2,
        (Position::Foundation(p1), Position::Foundation(p2)) => p1 == p2,
        (Position::Stock, Position::Stock) => true,
        (Position::Waste(_), Position::Waste(_)) => true,
        _ => false,
    }
}

/// How many cards one deal moves from a stock of `stock_len` cards:
/// one in `One` mode, up to three in `Three` mode.
pub open spec fn deal_amount(d: DrawCount, stock_len: int) -> int {
    if d is One {
        1
    } else if stock_len < 3 {
        stock_len
    } else {
        3
    }
}

/// A snapshot of a well-formed board is well-formed.
pub proof fn lemma_snap_of_wf(g: GameState, s: Snapshot)
    requires
        g.board_wf(),
        g.board_eq_snap(s),
    ensures
        snap_wf(s),
{
}

/// Relies on rand's `SliceRandom::shuffle`: it permutes the slice in place
/// (a Fisher-Yates shuffle), so the multiset of cards is unchanged.
#[verifier::external_body]
fn shuffle_cards(cards: &mut Vec<Card>)
    ensures
        final(cards)@.len() == old(cards)@.len(),
        final(cards)@.to_multiset() == old(cards)@.to_multiset(),
        pile_ids(final(cards)@) == pile_ids(old(cards)@),
{
    cards.shuffle(&mut rand::rng());
}

/// Relies on `std::time::SystemTime::now` for the wall-clock time; the
/// result is the current time in seconds since the Unix epoch, or 0 if the
/// clock reads before the epoch.
#[verifier::external_body]
fn now_seconds() -> u64 {
    match std::time::SystemTime::now().duration_since(std::time::UNIX_EPOCH) {
        Ok(d) => d.as_secs(),
        Err(_) => 0,
    }
}

/// Copy a pile of cards.
fn clone_pile(p: &Vec<Card>) -> (r: Vec<Card>)
    ensures
        r@ == p@,
{
    let mut r: Vec<Card> = Vec::new();
    let mut i: usize = 0;
    while i < p.len()
        invariant
            i <= p@.len(),
            r@ == p@.take(i as int),
        decreases p@.len() - i,
    {
        proof {
            assert(p@.take(i as int + 1) =~= p@.take(i as int).push(p@[i as int]));
        }
        r.push(p[i]);
        i = i + 1;
    }
    proof {
        assert(p@.take(p@.len() as int) =~= p@);
    }
    r
}

/// Copy a group of piles.
fn clone_piles(v: &Vec<Vec<Card>>) -> (r: Vec<Vec<Card>>)
    ensures
        piles_view(r) == piles_view(*v),
{
    let mut r: Vec<Vec<Card>> = Vec::new();
    let mut i: usize = 0;
    while i < v.len()
        invariant
            i <= v@.len(),
            r@.len() == i,
            forall|j: int| 0 <= j < i ==> (#[trigger] r@[j])@ == v@[j]@,
        decreases v@.len() - i,
    {
        r.push(clone_pile(&v[i]));
        i = i + 1;
    }
    proof {
        assert(piles_view(r) =~= piles_view(*v));
    }
    r
}

/// The triangular number: how many cards the first `n` tableau columns take.
pub open spec fn tri(n: int) -> int {
    n * (n + 1) / 2
}

/// Deal a shuffled deck into a fresh board: triangular tableau columns with
/// only each column's last card face-up, the rest to the stock.
fn deal_game(deck: Vec<Card>, draw_count: DrawCount) -> (g: GameState)
    requires
        deck@.len() == 52,
        all_face_down(deck@),
        pile_ids(deck@) == full_deck_ids(),
    ensures
        g.wf(),
        g.fresh_board(),
        g.draw_count == draw_count,
        g.history@.len() == 0,
{
    let ghost deck0 = deck@;
    let mut deck = deck;
    let mut tableau: Vec<Vec<Card>> = Vec::new();
    let mut col: usize = 0;
    while col < 7
        invariant
            col <= 7,
            deck@.len() + tri(col as int) == 52,
            all_face_down(deck@),
            tableau@.len() == col,
            forall|c: int| 0 <= c < col ==> (#[trigger] tableau@[c])@.len() == c + 1,
            forall|c: int, i: int|
                0 <= c < col && 0 <= i < tableau@[c]@.len()
                    ==> ((#[trigger] tableau@[c]@[i]).face_up <==> i == c),
            piles_ids(piles_view(tableau)).add(pile_ids(deck@)) == pile_ids(deck0),
        decreases 7 - col,
    {
        let n = col + 1;
        proof {
            assert(tri(col as int + 1) == tri(col as int) + col + 1) by (nonlinear_arith);
            assert(tri(col as int + 1) <= 28) by (nonlinear_arith)
                requires 0 <= col < 7;
        }
        let mut pile: Vec<Card> = Vec::new();
        proof {
            lemma_pile_ids_empty();
            broadcast use vstd::multiset::group_multiset_axioms;
            assert(piles_ids(piles_view(tableau)).add(pile_ids(pile@)).add(pile_ids(deck@))
                =~= pile_ids(deck0));
        }
        let mut row: usize = 0;
        while row < n
            invariant
                row <= n,
                n == col + 1,
                col < 7,
                deck@.len() + tri(col as int) + row == 52,
                tri(col as int) + n <= 28,
                all_face_down(deck@),
                pile@.len() == row,
                forall|i: int| 0 <= i < row ==> ((#[trigger] pile@[i]).face_up <==> i == n - 1),
                piles_ids(piles_view(tableau)).add(pile_ids(pile@)).add(pile_ids(deck@))
                    == pile_ids(deck0),
                tableau@.len() == col,
                forall|c: int| 0 <= c < col ==> (#[trigger] tableau@[c])@.len() == c + 1,
                forall|c: int, i: int|
                    0 <= c < col && 0 <= i < tableau@[c]@.len()
                        ==> ((#[trigger] tableau@[c]@[i]).face_up <==> i == c),
            decreases n - row,
        {
            let ghost deck_before = deck@;
            let popped = deck.pop();
            let mut card = match popped {
                Some(c) => c,
                None => Card::new(Suit::Hearts, Rank::Ace, false),
            };
            card.face_up = row == n - 1;
            proof {
                lemma_pile_ids_drop_last(deck_before);
                assert(card_id(card) == card_id(deck_before.last()));
                lemma_pile_ids_push(pile@, card);
                broadcast use vstd::multiset::group_multiset_axioms;
                assert(piles_ids(piles_view(tableau)).add(pile_ids(pile@.push(card)))
                    .add(pile_ids(deck@)) =~= pile_ids(deck0));
            }
            pile.push(card);
            row = row + 1;
        }
        let ghost tview_before = piles_view(tableau);
        tableau.push(pile);
        proof {
            lemma_piles_ids_push(tview_before, pile@);
            assert(piles_view(tableau) =~= tview_before.push(pile@));
            broadcast use vstd::multiset::group_multiset_axioms;
            assert(piles_ids(piles_view(tableau)).add(pile_ids(deck@)) =~= pile_ids(deck0));
        }
        col = col + 1;
    }
    let mut foundations: Vec<Vec<Card>> = Vec::new();
    foundations.push(Vec::new());
    foundations.push(Vec::new());
    foundations.push(Vec::new());
    foundations.push(Vec::new());
    let g = GameState {
        tableau,
        foundations,
        stock: deck,
        waste: Vec::new(),
        move_count: 0,
        start_time: now_seconds(),
        game_won: false,
        draw_count,
        history: Vec::new(),
    };
    proof {
        assert(tri(7) == 28);
        assert(g.stock@.len() == 24);
        lemma_piles_ids_all_empty(g.fnds());
        lemma_pile_ids_empty();
        broadcast use vstd::multiset::group_multiset_axioms;
        assert(g.cards_ids() =~= full_deck_ids());
        assert forall|c: int| 0 <= c < 7 implies face_up_suffix(#[trigger] g.tabs()[c]) by {
            let p = g.tab(c);
            assert forall|i: int, j: int|
                0 <= i <= j < p.len() && (#[trigger] p[i]).face_up
                    implies (#[trigger] p[j]).face_up by {
                assert(i == c);
            }
        }
        assert forall|c: int| 0 <= c < 7 implies (#[trigger] g.tab(c)).len() == c + 1 by {
            assert(g.tableau@[c]@.len() == c + 1);
        }
        assert forall|c: int, i: int|
            0 <= c < 7 && 0 <= i < g.tab(c).len()
                implies ((#[trigger] g.tab(c)[i]).face_up <==> i == c) by {
            assert((g.tableau@[c]@[i].face_up <==> i == c));
        }
        assert forall|f: int| 0 <= f < 4 implies (#[trigger] g.fnd(f)).len() == 0 by {
            assert(g.foundations@[f]@.len() == 0);
        }
        assert(g.fnds()[0].len() != 13);
        assert(g.board_wf());
    }
    g
}

impl GameState {
    /// Create a new game with properly shuffled and dealt cards
    pub fn new() -> (g: GameState)
        ensures
            g.wf(),
            g.fresh_board(),
            g.draw_count == DrawCount::Three,
            g.history@.len() == 0,
    {
        Self::new_with_draw_count(DrawCount::Three)
    }

    /// Create a new game with specific draw count
    pub fn new_with_draw_count(draw_count: DrawCount) -> (g: GameState)
        ensures
            g.wf(),
            g.fresh_board(),
            g.draw_count == draw_count,
            g.history@.len() == 0,
    {
        let mut deck = create_deck();
        let ghost before = deck@;
        shuffle_cards(&mut deck);
        proof {
            lemma_face_down_from_multiset(before, deck@);
        }
        deal_game(deck, draw_count)
    }
}

impl GameState {
    /// Copy the current board into a snapshot.
    fn take_snapshot(&self) -> (s: Snapshot)
        ensures
            self.board_eq_snap(s),
    {
        Snapshot {
            tableau: clone_piles(&self.tableau),
            foundations: clone_piles(&self.foundations),
            stock: clone_pile(&self.stock),
            waste: clone_pile(&self.waste),
            move_count: self.move_count,
            game_won: self.game_won,
        }
    }

    /// Save the current board for undo, dropping the oldest entry when
    /// the history is full. Nothing but the history changes.
    fn push_snapshot(&mut self)
        requires
            old(self).history@.len() <= HISTORY_LIMIT,
        ensures
            GameState::pushed_history(*old(self), *final(self)),
            *final(self) == (GameState { history: final(self).history, ..*old(self) }),
            old(self).board_wf() ==> snap_wf(final(self).history@.last()),
    {
        let snap = self.take_snapshot();
        if self.history.len() >= HISTORY_LIMIT {
            self.history.remove(0);
            proof {
                assert(self.history@ =~= old(self).history@.drop_first());
            }
        }
        self.history.push(snap);
        proof {
            assert(self.history@.drop_last() =~= (if old(self).history@.len() < HISTORY_LIMIT {
                old(self).history@
            } else {
                old(self).history@.drop_first()
            }));
            if old(self).board_wf() {
                lemma_snap_of_wf(*old(self), snap);
            }
        }
    }

    /// Deal cards from stock to waste pile, or recycle the waste into the
    /// stock when the stock is empty. Fails only when both are empty.
    pub fn deal_from_stock(&mut self) -> (r: Result<(), ErrorKind>)
        requires
            old(self).wf(),
            old(self).move_count < u32::MAX,
        ensures
            final(self).wf(),
            r is Ok <==> old(self).deal_error() is None,
            (r matches Err(e) ==> Some(e) == old(self).deal_error()
                && *final(self) == *old(self)),
            r is Ok ==> GameState::deal_applied(*old(self), *final(self)),
    {
        if self.stock.len() == 0 {
            if self.waste.len() == 0 {
                return Err(ErrorKind::EmptyPiles);
            }
            self.push_snapshot();
            let ghost mid = *self;
            let ghost w0 = self.waste@;
            while self.waste.len() > 0
                invariant
                    self.waste@ == w0.take(self.waste@.len() as int),
                    self.waste@.len() <= w0.len(),
                    self.stock@ == turned_down(w0.skip(self.waste@.len() as int).reverse()),
                    *self == (GameState {
                        stock: self.stock,
                        waste: self.waste,
                        ..mid
                    }),
                decreases self.waste@.len(),
            {
                let ghost wlen = self.waste@.len() as int;
                let popped = self.waste.pop();
                let mut card = match popped {
                    Some(c) => c,
                    None => Card::new(Suit::Hearts, Rank::Ace, false),
                };
                card.face_up = false;
                proof {
                    assert(self.waste@ =~= w0.take(wlen - 1));
                    assert(w0.skip(wlen - 1) =~= seq![w0[wlen - 1]] + w0.skip(wlen));
                    assert(w0.skip(wlen - 1).reverse()
                        =~= w0.skip(wlen).reverse().push(w0[wlen - 1]));
                    assert(turned_down(w0.skip(wlen - 1).reverse())
                        =~= turned_down(w0.skip(wlen).reverse()).push(card));
                }
                self.stock.push(card);
            }
            self.move_count = self.move_count + 1;
            proof {
                assert(w0.take(0) =~= Seq::<Card>::empty());
                assert(w0.skip(0) =~= w0);
                self.lemma_recycle_wf(*old(self), mid, w0);
            }
            Ok(())
        } else {
            self.push_snapshot();
            let ghost mid = *self;
            let ghost s0 = self.stock@;
            let ghost w0 = self.waste@;
            let amount: usize = match self.draw_count {
                DrawCount::One => 1,
                DrawCount::Three => {
                    if self.stock.len() < 3 {
                        self.stock.len()
                    } else {
                        3
                    }
                },
            };
            let ghost k = deal_amount(old(self).draw_count, s0.len() as int);
            proof {
                assert(amount == k);
            }
            let mut dealt: usize = 0;
            while dealt < amount
                invariant
                    dealt <= amount,
                    amount == k,
                    k == deal_amount(mid.draw_count, s0.len() as int),
                    1 <= k <= s0.len(),
                    self.stock@ == s0.take(s0.len() - dealt),
                    self.waste@ == w0 + turned_up(s0.skip(s0.len() - dealt).reverse()),
                    *self == (GameState {
                        stock: self.stock,
                        waste: self.waste,
                        ..mid
                    }),
                decreases amount - dealt,
            {
                let ghost slen = self.stock@.len() as int;
                let popped = self.stock.pop();
                let mut card = match popped {
                    Some(c) => c,
                    None => Card::new(Suit::Hearts, Rank::Ace, false),
                };
                card.face_up = true;
                proof {
                    assert(self.stock@ =~= s0.take(slen - 1));
                    assert(s0.skip(slen - 1) =~= seq![s0[slen - 1]] + s0.skip(slen));
                    assert(s0.skip(slen - 1).reverse()
                        =~= s0.skip(slen).reverse().push(s0[slen - 1]));
                    assert(turned_up(s0.skip(slen - 1).reverse())
                        =~= turned_up(s0.skip(slen).reverse()).push(card));
                    assert(w0 + turned_up(s0.skip(slen - 1).reverse())
                        =~= (w0 + turned_up(s0.skip(slen).reverse())).push(card));
                }
                self.waste.push(card);
                dealt = dealt + 1;
            }
            self.move_count = self.move_count + 1;
            proof {
                self.lemma_deal_wf(*old(self), mid, s0, w0, k);
            }
            Ok(())
        }
    }

    /// Flip a face-down card to face-up. Only the top card of a tableau
    /// column can be flipped, and only while it lies face-down.
    pub fn flip_card(&mut self, position: Position) -> (r: Result<(), ErrorKind>)
        requires
            old(self).wf(),
            old(self).move_count < u32::MAX,
        ensures
            final(self).wf(),
            r is Ok <==> old(self).flip_error(position) is None,
            (r matches Err(e) ==> Some(e) == old(self).flip_error(position)
                && *final(self) == *old(self)),
            r is Ok ==> GameState::flip_applied(*old(self), *final(self), position),
    {
        match position {
            Position::Tableau(col, idx) => {
                if col >= 7 {
                    return Err(ErrorKind::InvalidColumn);
                }
                let plen = self.tableau[col].len();
                if idx >= plen {
                    return Err(ErrorKind::InvalidIndex);
                }
                if idx != plen - 1 {
                    return Err(ErrorKind::NotTopCard);
                }
                if self.tableau[col][idx].face_up {
                    return Err(ErrorKind::AlreadyFaceUp);
                }
                self.push_snapshot();
                let ghost mid = *self;
                let popped = self.tableau[col].pop();
                let mut card = match popped {
                    Some(c) => c,
                    None => Card::new(Suit::Hearts, Rank::Ace, false),
                };
                card.face_up = true;
                self.tableau[col].push(card);
                self.move_count = self.move_count + 1;
                proof {
                    let pre = *old(self);
                    let c = col as int;
                    let i = idx as int;
                    let p = pre.tab(c);
                    let p2 = p.update(i, Card { face_up: true, ..p[i] });
                    assert(self.tableau@[c]@ =~= p2);
                    assert(self.tabs() =~= pre.tabs().update(c, p2));
                    lemma_pile_ids_update(p, i, Card { face_up: true, ..p[i] });
                    lemma_piles_ids_update(pre.tabs(), c, p2);
                    broadcast use vstd::multiset::group_multiset_axioms;
                    assert forall|x: (Suit, Rank)|
                        piles_ids(self.tabs()).count(x) == piles_ids(pre.tabs()).count(x) by {
                        assert(piles_ids(pre.tabs().update(c, p2)).add(pile_ids(pre.tabs()[c]))
                            .count(x) == piles_ids(pre.tabs()).add(pile_ids(p2)).count(x));
                    }
                    assert(self.cards_ids() =~= pre.cards_ids());
                    assert forall|ii: int, jj: int|
                        0 <= ii <= jj < p2.len() && (#[trigger] p2[ii]).face_up
                            implies (#[trigger] p2[jj]).face_up by {
                        if ii < p2.len() - 1 {
                            assert(p[ii].face_up ==> p[p.len() - 1].face_up);
                        }
                    }
                    assert(face_up_suffix(p2));
                    assert forall|cc: int| 0 <= cc < 7
                        implies face_up_suffix(#[trigger] self.tabs()[cc]) by {
                        if cc != c {
                            assert(self.tabs()[cc] == pre.tabs()[cc]);
                        }
                    }
                    self.lemma_history_wf(pre, mid);
                    assert(self.board_wf());
                }
                Ok(())
            },
            _ => Err(ErrorKind::WrongPileKind),
        }
    }

    /// The liftable run starting at `position`, bottom card first; empty
    /// when nothing at `position` can be lifted.
    pub fn get_cards_at_position(&self, position: Position) -> (run: Vec<Card>)
        requires
            self.wf(),
        ensures
            run@ == self.lift_from(position),
    {
        match position {
            Position::Stock => Vec::new(),
            Position::Waste(idx) => {
                if self.waste.len() > 0 && idx == self.waste.len() - 1 {
                    let mut v: Vec<Card> = Vec::new();
                    v.push(self.waste[idx]);
                    proof {
                        assert(v@ =~= seq![self.waste@.last()]);
                    }
                    v
                } else {
                    Vec::new()
                }
            },
            Position::Foundation(p) => {
                if p < 4 && self.foundations[p].len() > 0 {
                    let mut v: Vec<Card> = Vec::new();
                    v.push(self.foundations[p][self.foundations[p].len() - 1]);
                    proof {
                        assert(v@ =~= seq![self.fnd(p as int).last()]);
                    }
                    v
                } else {
                    Vec::new()
                }
            },
            Position::Tableau(col, idx) => {
                if col >= 7 {
                    return Vec::new();
                }
                let plen = self.tableau[col].len();
                if idx >= plen {
                    return Vec::new();
                }
                let mut good = true;
                let mut j = idx;
                while j < plen
                    invariant
                        col < 7,
                        idx <= j <= plen,
                        self.wf(),
                        plen == self.tab(col as int).len(),
                        good <==> liftable_prefix(self.tab(col as int), idx as int, j as int),
                    decreases plen - j,
                {
                    proof {
                        lemma_liftable_prefix_step(self.tab(col as int), idx as int, j as int);
                    }
                    if !self.tableau[col][j].face_up {
                        good = false;
                    } else if j > idx && !self.tableau[col][j].can_place_on_tableau(
                        &self.tableau[col][j - 1],
                    ) {
                        good = false;
                    }
                    j = j + 1;
                }
                if !good {
                    return Vec::new();
                }
                let mut run: Vec<Card> = Vec::new();
                let mut t = idx;
                while t < plen
                    invariant
                        col < 7,
                        idx <= t <= plen,
                        self.wf(),
                        plen == self.tab(col as int).len(),
                        run@ == self.tab(col as int).subrange(idx as int, t as int),
                    decreases plen - t,
                {
                    proof {
                        assert(self.tab(col as int).subrange(idx as int, t as int + 1)
                            =~= self.tab(col as int).subrange(idx as int, t as int).push(
                            self.tab(col as int)[t as int]));
                    }
                    run.push(self.tableau[col][t]);
                    t = t + 1;
                }
                proof {
                    assert(run@ =~= self.tab(col as int).skip(idx as int));
                }
                run
            },
        }
    }

    /// Remove the liftable run at `from` from its source pile, from the tail.
    fn remove_run(&mut self, from: Position)
        requires
            old(self).tableau@.len() == 7,
            old(self).foundations@.len() == 4,
            old(self).lift_from(from).len() > 0,
        ensures
            final(self).tabs() == old(self).tabs_removed(from),
            final(self).fnds() == old(self).fnds_removed(from),
            final(self).waste@ == old(self).waste_removed(from),
            final(self).tableau@.len() == old(self).tableau@.len(),
            final(self).foundations@.len() == old(self).foundations@.len(),
            *final(self) == (GameState {
                tableau: final(self).tableau,
                foundations: final(self).foundations,
                waste: final(self).waste,
                ..*old(self)
            }),
    {
        match from {
            Position::Tableau(col, idx) => {
                self.tableau[col].truncate(idx);
                proof {
                    assert(self.tabs() =~= old(self).tabs_removed(from));
                }
            },
            Position::Foundation(p) => {
                self.foundations[p].pop();
                proof {
                    assert(self.foundations@[p as int]@
                        =~= old(self).fnd(p as int).drop_last());
                    assert(self.fnds() =~= old(self).fnds_removed(from));
                }
            },
            Position::Waste(_) => {
                self.waste.pop();
                proof {
                    assert(self.waste@ =~= old(self).waste@.drop_last());
                }
            },
            Position::Stock => {
            },
        }
    }

    /// Land the run on tableau column `col`, in order.
    fn append_run_tableau(&mut self, col: usize, run: &Vec<Card>)
        requires
            old(self).tableau@.len() == 7,
            col < 7,
        ensures
            final(self).tabs() == old(self).tabs().update(
                col as int,
                old(self).tab(col as int) + run@,
            ),
            final(self).tableau@.len() == 7,
            *final(self) == (GameState { tableau: final(self).tableau, ..*old(self) }),
    {
        let mut pile = self.tableau.remove(col);
        let ghost base = pile@;
        let mut i: usize = 0;
        while i < run.len()
            invariant
                i <= run@.len(),
                pile@ == base + run@.take(i as int),
            decreases run@.len() - i,
        {
            proof {
                assert(base + run@.take(i as int + 1)
                    =~= (base + run@.take(i as int)).push(run@[i as int]));
            }
            pile.push(run[i]);
            i = i + 1;
        }
        proof {
            assert(run@.take(run@.len() as int) =~= run@);
        }
        self.tableau.insert(col, pile);
        proof {
            assert(self.tableau@ =~= old(self).tableau@.update(col as int, pile));
            assert forall|j: int| 0 <= j < 7
                implies self.tabs()[j] == old(self).tabs().update(
                    col as int,
                    old(self).tab(col as int) + run@,
                )[j] by {
                assert(self.tabs()[j] == self.tableau@[j]@);
                if j != col as int {
                    assert(self.tableau@[j] == old(self).tableau@[j]);
                }
            }
            assert(self.tabs() =~= old(self).tabs().update(
                col as int,
                old(self).tab(col as int) + run@,
            ));
        }
    }

    /// Set the win flag: true exactly when every foundation holds 13 cards.
    fn recompute_won(&mut self)
        requires
            old(self).foundations@.len() == 4,
        ensures
            *final(self) == (GameState { game_won: final(self).game_won, ..*old(self) }),
            final(self).game_won <==> (forall|i: int|
                0 <= i < 4 ==> (#[trigger] final(self).fnds()[i]).len() == 13),
    {
        let won = self.foundations[0].len() == 13 && self.foundations[1].len() == 13
            && self.foundations[2].len() == 13 && self.foundations[3].len() == 13;
        self.game_won = won;
        proof {
            assert(self.fnds()[0] == self.foundations@[0]@);
            assert(self.fnds()[1] == self.foundations@[1]@);
            assert(self.fnds()[2] == self.foundations@[2]@);
            assert(self.fnds()[3] == self.foundations@[3]@);
            if won {
                assert forall|i: int| 0 <= i < 4
                    implies (#[trigger] self.fnds()[i]).len() == 13 by {
                    assert(self.fnds()[i] == self.foundations@[i]@);
                }
            }
        }
    }

    /// Move the liftable run at `from` onto `to`. A multi-card run can only
    /// land on a tableau column; a single card can also land on a matching
    /// foundation. A rejected move leaves the state unchanged.
    pub fn move_card(&mut self, from: Position, to: Position) -> (r: Result<(), ErrorKind>)
        requires
            old(self).wf(),
            old(self).move_count < u32::MAX,
        ensures
            final(self).wf(),
            r is Ok <==> old(self).move_error(from, to) is None,
            (r matches Err(e) ==> Some(e) == old(self).move_error(from, to)
                && *final(self) == *old(self)),
            r is Ok ==> GameState::move_applied(*old(self), *final(self), from, to),
    {
        let run = self.get_cards_at_position(from);
        if run.len() == 0 {
            return Err(ErrorKind::NoMovableCards);
        }
        if run.len() > 1 && !matches!(to, Position::Tableau(_, _)) {
            return Err(ErrorKind::InvalidSequenceTarget);
        }
        let lead = run[0];
        match to {
            Position::Tableau(col, _) => {
                if col >= 7 {
                    return Err(ErrorKind::InvalidColumn);
                }
                let dlen = self.tableau[col].len();
                let ok = if dlen == 0 {
                    matches!(lead.rank, Rank::King)
                } else {
                    lead.can_place_on_tableau(&self.tableau[col][dlen - 1])
                };
                if !ok {
                    return Err(ErrorKind::IllegalTableauPlacement);
                }
                if same_pile(from, to) {
                    return Err(ErrorKind::NoOpMove);
                }
                self.push_snapshot();
                let ghost mid = *self;
                self.remove_run(from);
                proof {
                    assert(self.tableau@.len() == 7);
                    assert(self.foundations@.len() == 4);
                }
                self.append_run_tableau(col, &run);
                self.move_count = self.move_count + 1;
                self.recompute_won();
                proof {
                    self.lemma_move_wf(*old(self), mid, from, to, run@);
                }
                Ok(())
            },
            Position::Foundation(f) => {
                if f >= 4 {
                    return Err(ErrorKind::InvalidIndex);
                }
                let flen = self.foundations[f].len();
                let ok = if flen == 0 {
                    lead.can_place_on_foundation(None)
                } else {
                    lead.can_place_on_foundation(Some(&self.foundations[f][flen - 1]))
                };
                if !ok {
                    return Err(ErrorKind::IllegalFoundationPlacement);
                }
                if same_pile(from, to) {
                    return Err(ErrorKind::NoOpMove);
                }
                self.push_snapshot();
                let ghost mid = *self;
                self.remove_run(from);
                let ghost f1 = old(self).fnds_removed(from);
                proof {
                    assert(self.tableau@.len() == 7);
                    assert(self.foundations@.len() == 4);
                    assert(self.fnds()[f as int] + run@
                        =~= self.fnds()[f as int].push(run@[0]));
                }
                let ghost before = self.fnds();
                self.foundations[f].push(run[0]);
                proof {
                    assert(self.fnds() =~= before.update(f as int, f1[f as int] + run@));
                }
                self.move_count = self.move_count + 1;
                self.recompute_won();
                proof {
                    self.lemma_move_wf(*old(self), mid, from, to, run@);
                }
                Ok(())
            },
            _ => Err(ErrorKind::WrongPileKind),
        }
    }

    /// Revert the most recent state-changing action: pop the latest
    /// snapshot and restore its piles, move counter, and win flag.
    pub fn undo(&mut self) -> (r: Result<(), ErrorKind>)
        requires
            old(self).wf(),
        ensures
            final(self).wf(),
            r is Ok <==> old(self).undo_error() is None,
            (r matches Err(e) ==> Some(e) == old(self).undo_error()
                && *final(self) == *old(self)),
            r is Ok ==> GameState::undo_applied(*old(self), *final(self)),
    {
        if self.history.len() == 0 {
            return Err(ErrorKind::NothingToUndo);
        }
        let popped = self.history.pop();
        match popped {
            Some(s) => {
                self.tableau = s.tableau;
                self.foundations = s.foundations;
                self.stock = s.stock;
                self.waste = s.waste;
                self.move_count = s.move_count;
                self.game_won = s.game_won;
                proof {
                    let last = old(self).history@.last();
                    assert(snap_wf(last));
                    assert(self.history@ =~= old(self).history@.drop_last());
                    assert forall|i: int| 0 <= i < self.history@.len()
                        implies snap_wf(#[trigger] self.history@[i]) by {
                        assert(self.history@[i] == old(self).history@[i]);
                    }
                    assert(self.board_wf());
                }
                Ok(())
            },
            None => Err(ErrorKind::NothingToUndo),
        }
    }

    /// Replace the whole board with a freshly dealt game in the same draw
    /// mode, saving the current board for undo.
    pub fn new_game(&mut self) -> (r: Result<(), ErrorKind>)
        requires
            old(self).wf(),
        ensures
            final(self).wf(),
            r is Ok,
            GameState::newgame_applied(*old(self), *final(self)),
    {
        self.push_snapshot();
        let ghost mid = *self;
        let fresh = Self::new_with_draw_count(self.draw_count);
        self.tableau = fresh.tableau;
        self.foundations = fresh.foundations;
        self.stock = fresh.stock;
        self.waste = fresh.waste;
        self.move_count = 0;
        self.start_time = fresh.start_time;
        self.game_won = false;
        proof {
            let pre = *old(self);
            assert(self.tabs() == fresh.tabs());
            assert(self.fnds() == fresh.fnds());
            assert forall|c: int| 0 <= c < 7
                implies (#[trigger] self.tab(c)).len() == c + 1 by {
                assert(self.tab(c) == fresh.tab(c));
            }
            assert forall|c: int, i: int|
                0 <= c < 7 && 0 <= i < self.tab(c).len()
                    implies ((#[trigger] self.tab(c)[i]).face_up <==> i == c) by {
                assert(self.tab(c) == fresh.tab(c));
            }
            assert forall|f: int| 0 <= f < 4
                implies (#[trigger] self.fnd(f)).len() == 0 by {
                assert(self.fnd(f) == fresh.fnd(f));
            }
            assert(self.board_wf());
            self.lemma_history_wf(pre, mid);
        }
        Ok(())
    }

    /// Handle a game action and update the state accordingly
    pub fn handle_action(&mut self, action: GameAction) -> (r: Result<(), ErrorKind>)
        requires
            old(self).wf(),
            old(self).move_count < u32::MAX,
        ensures
            final(self).wf(),
            final(self).draw_count == old(self).draw_count,
            r is Ok <==> old(self).action_error(action) is None,
            (r matches Err(e) ==> Some(e) == old(self).action_error(action)
                && *final(self) == *old(self)),
            r is Ok ==> match action {
                GameAction::DealFromStock => GameState::deal_applied(*old(self), *final(self)),
                GameAction::FlipCard(pos) => GameState::flip_applied(
                    *old(self),
                    *final(self),
                    pos,
                ),
                GameAction::MoveCard { from, to } => GameState::move_applied(
                    *old(self),
                    *final(self),
                    from,
                    to,
                ),
                GameAction::NewGame => GameState::newgame_applied(*old(self), *final(self)),
                GameAction::Undo => GameState::undo_applied(*old(self), *final(self)),
            },
    {
        match action {
            GameAction::DealFromStock => self.deal_from_stock(),
            GameAction::FlipCard(position) => self.flip_card(position),
            GameAction::MoveCard { from, to } => self.move_card(from, to),
            GameAction::NewGame => self.new_game(),
            GameAction::Undo => self.undo(),
        }
    }

    /// Check if a position can be clicked (for UI interaction)
    pub fn can_click_position(&self, position: Position) -> (r: bool)
        requires
            self.wf(),
        ensures
            r == self.spec_can_click(position),
    {
        match position {
            Position::Stock => true,
            Position::Tableau(col, idx) => {
                if col >= 7 {
                    return false;
                }
                let plen = self.tableau[col].len();
                if idx >= plen {
                    return false;
                }
                idx == plen - 1
            },
            Position::Waste(_) => false,
            Position::Foundation(_) => false,
        }
    }

    /// Whether `card` may land on tableau column `col`.
    pub fn can_drop_on_tableau(&self, card: Card, col: usize) -> (r: bool)
        requires
            self.wf(),
        ensures
            r == self.spec_can_drop_on_tableau(card, col as int),
    {
        if col >= 7 {
            return false;
        }
        let plen = self.tableau[col].len();
        if plen == 0 {
            matches!(card.rank, Rank::King)
        } else {
            card.can_place_on_tableau(&self.tableau[col][plen - 1])
        }
    }

    /// Whether `card` may land on foundation pile `foundation`.
    pub fn can_drop_on_foundation(&self, card: Card, foundation: usize) -> (r: bool)
        requires
            self.wf(),
        ensures
            r == self.spec_can_drop_on_foundation(card, foundation as int),
    {
        if foundation >= 4 {
            return false;
        }
        let plen = self.foundations[foundation].len();
        if plen == 0 {
            card.can_place_on_foundation(None)
        } else {
            card.can_place_on_foundation(Some(&self.foundations[foundation][plen - 1]))
        }
    }

    /// Whether two positions lie in the same tableau column.
    pub fn is_same_position(&self, pos1: Position, pos2: Position) -> (r: bool)
        ensures
            r == spec_is_same_position(pos1, pos2),
    {
        match (pos1, pos2) {
            (Position::Tableau(col1, _), Position::Tableau(col2, _)) => col1 == col2,
            _ => false,
        }
    }

    /// Every position where the dragged run may be dropped.
    pub fn get_valid_drop_targets(&self, cards: &Vec<Card>, source: Position) -> (targets: Vec<
        Position,
    >)
        requires
            self.wf(),
        ensures
            targets@ == self.spec_drop_targets(cards@, source),
    {
        let mut targets: Vec<Position> = Vec::new();
        if cards.len() == 0 {
            return targets;
        }
        let first_card = cards[0];
        let mut col: usize = 0;
        while col < 7
            invariant
                self.wf(),
                col <= 7,
                first_card == cards@[0],
                cards@.len() > 0,
                targets@ == self.tab_targets(first_card, source, col as int),
            decreases 7 - col,
        {
            if self.can_drop_on_tableau(first_card, col) && !self.is_same_position(
                source,
                Position::Tableau(col, 0),
            ) {
                targets.push(Position::Tableau(col, self.tableau[col].len()));
            }
            col = col + 1;
        }
        if cards.len() == 1 {
            let mut foundation: usize = 0;
            while foundation < 4
                invariant
                    self.wf(),
                    foundation <= 4,
                    first_card == cards@[0],
                    cards@.len() == 1,
                    targets@ == self.tab_targets(first_card, source, 7) + self.fnd_targets(
                        first_card,
                        foundation as int,
                    ),
                decreases 4 - foundation,
            {
                if self.can_drop_on_foundation(first_card, foundation) {
                    targets.push(Position::Foundation(foundation));
                }
                foundation = foundation + 1;
            }
        }
        proof {
            if cards@.len() == 1 {
                assert(targets@ == self.spec_drop_targets(cards@, source));
            } else {
                assert(targets@ =~= self.tab_targets(first_card, source, 7)
                    + Seq::<Position>::empty());
            }
        }
        targets
    }

    /// Get a summary of the current game state for display
    pub fn summary(&self) -> (r: String)
        ensures
            r@ == self.spec_summary(),
    {
        let mut s = "Moves: ".to_owned();
        s.append(u64_string(self.move_count as u64).as_str());
        s.append(" | Stock: ");
        s.append(u64_string(self.stock.len() as u64).as_str());
        s.append(" | Waste: ");
        s.append(u64_string(self.waste.len() as u64).as_str());
        s.append(" | Draw: ");
        match self.draw_count {
            DrawCount::Three => s.append("Three"),
            DrawCount::One => s.append("One"),
        }
        proof {
            assert(s@ =~= self.spec_summary());
        }
        s
    }

    /// Every card of a liftable run lies face-up.
    proof fn lemma_lift_face_up(self, from: Position)
        requires
            self.wf(),
        ensures
            all_face_up(self.lift_from(from)),
    {
        let run = self.lift_from(from);
        match from {
            Position::Tableau(cf, idx) => {
                let c = cf as int;
                let i = idx as int;
                if cf < 7 && i < self.tab(c).len() && liftable_run(self.tab(c), i) {
                    assert forall|t: int| 0 <= t < run.len()
                        implies (#[trigger] run[t]).face_up by {
                        assert(run[t] == self.tab(c)[i + t]);
                        assert(self.tab(c)[i + t].face_up);
                    }
                }
            },
            Position::Foundation(p) => {
                let q = p as int;
                if p < 4 && self.fnd(q).len() > 0 {
                    assert(foundation_wf(self.fnds()[q]));
                    assert(self.fnd(q)[self.fnd(q).len() - 1].face_up);
                }
            },
            Position::Waste(_) => {
                if self.waste@.len() > 0 {
                    assert(self.waste@[self.waste@.len() - 1].face_up);
                }
            },
            Position::Stock => {
            },
        }
    }

    /// After a successful move the invariants still hold and the
    /// transition matches `move_applied`.
    proof fn lemma_move_wf(
        self,
        pre: GameState,
        mid: GameState,
        from: Position,
        to: Position,
        run: Seq<Card>,
    )
        requires
            pre.wf(),
            pre.move_count < u32::MAX,
            pre.move_error(from, to) is None,
            run == pre.lift_from(from),
            GameState::pushed_history(pre, mid),
            mid == (GameState { history: mid.history, ..pre }),
            snap_wf(mid.history@.last()),
            ({
                let t1 = pre.tabs_removed(from);
                let f1 = pre.fnds_removed(from);
                let w1 = pre.waste_removed(from);
                match to {
                    Position::Tableau(ct, _) => self.tabs() == t1.update(
                        ct as int,
                        t1[ct as int] + run,
                    ) && self.fnds() == f1 && self.waste@ == w1,
                    Position::Foundation(p) => self.fnds() == f1.update(
                        p as int,
                        f1[p as int] + run,
                    ) && self.tabs() == t1 && self.waste@ == w1,
                    _ => false,
                }
            }),
            self.stock@ == pre.stock@,
            self == (GameState {
                tableau: self.tableau,
                foundations: self.foundations,
                waste: self.waste,
                move_count: self.move_count,
                game_won: self.game_won,
                ..mid
            }),
            self.move_count == pre.move_count + 1,
            self.game_won <==> (forall|i: int|
                0 <= i < 4 ==> (#[trigger] self.fnds()[i]).len() == 13),
        ensures
            self.wf(),
            GameState::move_applied(pre, self, from, to),
    {
        broadcast use vstd::multiset::group_multiset_axioms;

        let t = pre.tabs();
        let f = pre.fnds();
        let w = pre.waste@;
        let t1 = pre.tabs_removed(from);
        let f1 = pre.fnds_removed(from);
        let w1 = pre.waste_removed(from);

        pre.lemma_lift_face_up(from);
        assert(run.len() > 0);
        let lead = run[0];

        match from {
            Position::Tableau(cf, idx) => {
                let c = cf as int;
                let i = idx as int;
                assert(cf < 7 && i < t[c].len() && liftable_run(pre.tab(c), i));
                assert(run == t[c].skip(i));
                lemma_piles_ids_update(t, c, t[c].take(i));
                lemma_pile_ids_split(t[c], i);
            },
            Position::Foundation(p) => {
                let q = p as int;
                assert(p < 4 && f[q].len() > 0);
                assert(run =~= Seq::<Card>::empty().push(f[q].last()));
                lemma_piles_ids_update(f, q, f[q].drop_last());
                lemma_pile_ids_drop_last(f[q]);
                lemma_pile_ids_push(Seq::<Card>::empty(), f[q].last());
                lemma_pile_ids_empty();
            },
            Position::Waste(_) => {
                assert(w.len() > 0);
                assert(run =~= Seq::<Card>::empty().push(w.last()));
                lemma_pile_ids_drop_last(w);
                lemma_pile_ids_push(Seq::<Card>::empty(), w.last());
                lemma_pile_ids_empty();
            },
            Position::Stock => {
                assert(false);
            },
        }
        match to {
            Position::Tableau(ct, _) => {
                let d = ct as int;
                assert(ct < 7);
                lemma_piles_ids_update(t1, d, t1[d] + run);
                lemma_pile_ids_concat(t1[d], run);
            },
            Position::Foundation(p) => {
                let q = p as int;
                assert(p < 4);
                lemma_piles_ids_update(f1, q, f1[q] + run);
                lemma_pile_ids_concat(f1[q], run);
            },
            _ => {
                assert(false);
            },
        }
        assert forall|x: (Suit, Rank)|
            self.cards_ids().count(x) == pre.cards_ids().count(x) by {
            match from {
                Position::Tableau(cf, idx) => {
                    let c = cf as int;
                    let i = idx as int;
                    assert(piles_ids(t.update(c, t[c].take(i))).add(pile_ids(t[c])).count(x)
                        == piles_ids(t).add(pile_ids(t[c].take(i))).count(x));
                    assert(pile_ids(t[c]).count(x)
                        == pile_ids(t[c].take(i)).add(pile_ids(t[c].skip(i))).count(x));
                },
                Position::Foundation(p) => {
                    let q = p as int;
                    assert(piles_ids(f.update(q, f[q].drop_last())).add(pile_ids(f[q])).count(x)
                        == piles_ids(f).add(pile_ids(f[q].drop_last())).count(x));
                    assert(pile_ids(f[q]).count(x)
                        == pile_ids(f[q].drop_last()).insert(card_id(f[q].last())).count(x));
                    assert(pile_ids(run).count(x)
                        == pile_ids(Seq::<Card>::empty()).insert(card_id(f[q].last())).count(x));
                },
                Position::Waste(_) => {
                    assert(pile_ids(w).count(x)
                        == pile_ids(w.drop_last()).insert(card_id(w.last())).count(x));
                    assert(pile_ids(run).count(x)
                        == pile_ids(Seq::<Card>::empty()).insert(card_id(w.last())).count(x));
                },
                Position::Stock => {
                },
            }
            match to {
                Position::Tableau(ct, _) => {
                    let d = ct as int;
                    assert(piles_ids(t1.update(d, t1[d] + run)).add(pile_ids(t1[d])).count(x)
                        == piles_ids(t1).add(pile_ids(t1[d] + run)).count(x));
                    assert(pile_ids(t1[d] + run).count(x)
                        == pile_ids(t1[d]).add(pile_ids(run)).count(x));
                },
                Position::Foundation(p) => {
                    let q = p as int;
                    assert(piles_ids(f1.update(q, f1[q] + run)).add(pile_ids(f1[q])).count(x)
                        == piles_ids(f1).add(pile_ids(f1[q] + run)).count(x));
                    assert(pile_ids(f1[q] + run).count(x)
                        == pile_ids(f1[q]).add(pile_ids(run)).count(x));
                },
                _ => {
                },
            }
        }
        assert(self.cards_ids() =~= pre.cards_ids());

        assert forall|cc: int| 0 <= cc < 7
            implies face_up_suffix(#[trigger] self.tabs()[cc]) by {
            match from {
                Position::Tableau(cf, idx) => {
                    if cc == cf as int {
                        lemma_suffix_take(t[cc], idx as int);
                    }
                },
                _ => {
                },
            }
            assert(face_up_suffix(t1[cc]));
            match to {
                Position::Tableau(ct, _) => {
                    if cc == ct as int {
                        lemma_suffix_append_face_up(t1[cc], run);
                    }
                },
                _ => {
                },
            }
            assert(face_up_suffix(self.tabs()[cc]));
        }

        assert forall|q: int| 0 <= q < 4
            implies foundation_wf(#[trigger] self.fnds()[q]) by {
            match from {
                Position::Foundation(fp) => {
                    if q == fp as int {
                        lemma_foundation_drop(f[q]);
                    }
                },
                _ => {
                },
            }
            assert(foundation_wf(f1[q]));
            match to {
                Position::Foundation(fp) => {
                    if q == fp as int {
                        assert(f1[q] == f[q]);
                        assert(run.len() == 1);
                        assert(f[q] + run =~= f[q].push(lead));
                        assert(lead.face_up);
                        lemma_foundation_push(f[q], lead);
                    }
                },
                _ => {
                },
            }
            assert(foundation_wf(self.fnds()[q]));
        }

        assert forall|ii: int| 0 <= ii < self.waste@.len()
            implies (#[trigger] self.waste@[ii]).face_up by {
            assert(self.waste@[ii] == w[ii]);
        }

        self.lemma_history_wf(pre, mid);
        assert(self.board_wf());
    }

    /// After recycling the waste into the stock, the invariants still hold
    /// and the transition matches `deal_applied`.
    proof fn lemma_recycle_wf(self, pre: GameState, mid: GameState, w0: Seq<Card>)
        requires
            pre.wf(),
            pre.stock@.len() == 0,
            pre.waste@.len() > 0,
            pre.move_count < u32::MAX,
            GameState::pushed_history(pre, mid),
            mid == (GameState { history: mid.history, ..pre }),
            snap_wf(mid.history@.last()),
            w0 == pre.waste@,
            self.waste@ == Seq::<Card>::empty(),
            self.stock@ == turned_down(w0.reverse()),
            self == (GameState {
                stock: self.stock,
                waste: self.waste,
                move_count: self.move_count,
                ..mid
            }),
            self.move_count == pre.move_count + 1,
        ensures
            self.wf(),
            GameState::deal_applied(pre, self),
    {
        broadcast use vstd::multiset::group_multiset_axioms;

        lemma_pile_ids_turned(w0.reverse());
        lemma_pile_ids_reverse(w0);
        lemma_pile_ids_empty();
        assert(pre.stock@ =~= Seq::<Card>::empty());
        assert(self.tabs() =~= pre.tabs());
        assert(self.fnds() =~= pre.fnds());
        assert(self.cards_ids() =~= pre.cards_ids());
        assert forall|i: int| 0 <= i < self.stock@.len()
            implies !(#[trigger] self.stock@[i]).face_up by {
            assert(self.stock@[i] == (Card { face_up: false, ..w0.reverse()[i] }));
        }
        self.lemma_history_wf(pre, mid);
        assert(self.board_wf());
    }

    /// The history after a snapshot push holds only well-formed boards.
    proof fn lemma_history_wf(self, pre: GameState, mid: GameState)
        requires
            pre.wf(),
            GameState::pushed_history(pre, mid),
            snap_wf(mid.history@.last()),
            self.history == mid.history,
        ensures
            forall|i: int| 0 <= i < self.history@.len() ==> snap_wf(#[trigger] self.history@[i]),
    {
        assert forall|i: int| 0 <= i < self.history@.len()
            implies snap_wf(#[trigger] self.history@[i]) by {
            if i < self.history@.len() - 1 {
                assert(self.history@[i] == self.history@.drop_last()[i]);
                if pre.history@.len() < HISTORY_LIMIT {
                    assert(self.history@.drop_last()[i] == pre.history@[i]);
                } else {
                    assert(self.history@.drop_last()[i] == pre.history@[i + 1]);
                }
            } else {
                assert(self.history@[i] == mid.history@.last());
            }
        }
    }

    /// After dealing `k` cards from the stock to the waste, the invariants
    /// still hold and the transition matches `deal_applied`.
    proof fn lemma_deal_wf(self, pre: GameState, mid: GameState, s0: Seq<Card>, w0: Seq<Card>, k: int)
        requires
            pre.wf(),
            pre.stock@.len() > 0,
            pre.move_count < u32::MAX,
            GameState::pushed_history(pre, mid),
            mid == (GameState { history: mid.history, ..pre }),
            snap_wf(mid.history@.last()),
            s0 == pre.stock@,
            w0 == pre.waste@,
            k == deal_amount(pre.draw_count, s0.len() as int),
            1 <= k <= s0.len(),
            self.stock@ == s0.take(s0.len() - k),
            self.waste@ == w0 + turned_up(s0.skip(s0.len() - k).reverse()),
            self == (GameState {
                stock: self.stock,
                waste: self.waste,
                move_count: self.move_count,
                ..mid
            }),
            self.move_count == pre.move_count + 1,
        ensures
            self.wf(),
            GameState::deal_applied(pre, self),
    {
        broadcast use vstd::multiset::group_multiset_axioms;

        let moved = s0.skip(s0.len() - k);
        lemma_pile_ids_split(s0, s0.len() - k);
        lemma_pile_ids_turned(moved.reverse());
        lemma_pile_ids_reverse(moved);
        lemma_pile_ids_concat(w0, turned_up(moved.reverse()));
        assert(self.tabs() =~= pre.tabs());
        assert(self.fnds() =~= pre.fnds());
        assert(self.cards_ids() =~= pre.cards_ids());
        self.lemma_history_wf(pre, mid);
        assert forall|i: int| 0 <= i < self.stock@.len()
            implies !(#[trigger] self.stock@[i]).face_up by {
            assert(self.stock@[i] == s0[i]);
        }
        assert forall|i: int| 0 <= i < self.waste@.len()
            implies (#[trigger] self.waste@[i]).face_up by {
            if i >= w0.len() {
                assert(self.waste@[i]
                    == (Card { face_up: true, ..moved.reverse()[i - w0.len()] }));
            }
        }
        assert(self.board_wf());
    }
}

impl Default for GameState {
    /// A default game: freshly dealt, drawing three cards at a time.
    fn default() -> (g: GameState)
        ensures
            g.wf(),
            g.fresh_board(),
            g.draw_count == DrawCount::Three,
    {
        GameState::new()
    }
}

/// Law (conservation): every well-formed state holds, across all of its
/// piles together, exactly the 52 distinct cards of the standard deck.
/// Since every constructor establishes `wf` and every action preserves it,
/// this holds of every reachable state.
pub proof fn lemma_conservation(g: GameState)
    requires
        g.wf(),
    ensures
        g.cards_ids() == full_deck_ids(),
{
}

/// Law (win detection): in every well-formed state the win flag is set
/// exactly when all four foundations hold 13 cards each.
pub proof fn lemma_win_detection(g: GameState)
    requires
        g.wf(),
    ensures
        g.game_won <==> g.spec_won(),
{
    if g.game_won {
        assert forall|f: int| 0 <= f < 4 implies (#[trigger] g.fnd(f)).len() == 13 by {
            assert(g.fnds()[f].len() == 13);
            assert(g.fnd(f) == g.foundations@[f]@);
            assert(g.fnds()[f] == g.foundations@[f]@);
        }
    }
    if g.spec_won() {
        assert forall|f: int| 0 <= f < 4 implies (#[trigger] g.fnds()[f]).len() == 13 by {
            assert(g.fnd(f).len() == 13);
            assert(g.fnd(f) == g.foundations@[f]@);
            assert(g.fnds()[f] == g.foundations@[f]@);
        }
    }
}

/// Law (undo): after any successful state-changing action, which pushes a
/// snapshot of the prior state, an immediate undo restores every pile, the
/// move counter, and the win flag of that prior state exactly.
pub proof fn lemma_undo_restores(pre: GameState, post: GameState, und: GameState)
    requires
        GameState::pushed_history(pre, post),
        GameState::undo_applied(post, und),
    ensures
        und.same_board(pre),
{
}

/// Law (sequence extraction): a face-down card anywhere between `idx` and
/// the top of its tableau column makes the position non-liftable.
pub proof fn lemma_face_down_blocks_lift(g: GameState, col: usize, idx: usize, j: int)
    requires
        g.wf(),
        col < 7,
        idx as int <= j < g.tab(col as int).len(),
        !g.tab(col as int)[j].face_up,
    ensures
        g.lift_from(Position::Tableau(col, idx)) == Seq::<Card>::empty(),
{
    assert(!liftable_run(g.tab(col as int), idx as int));
}

} // verus!
