use klondike::actions::{DrawCount, ErrorKind, GameAction};
use klondike::card::{Card, Rank, Suit};
use klondike::state::{GameState, Position};
use klondike::text::u64_string;

fn card(suit: Suit, rank: Rank, face_up: bool) -> Card {
    Card::new(suit, rank, face_up)
}

fn empty_game(draw_count: DrawCount) -> GameState {
    let tableau: Vec<Vec<Card>> = vec![Vec::new(); 7];
    let foundations: Vec<Vec<Card>> = vec![Vec::new(); 4];
    GameState {
        tableau,
        foundations,
        stock: Vec::new(),
        waste: Vec::new(),
        move_count: 0,
        start_time: 0,
        game_won: false,
        draw_count,
        history: Vec::new(),
    }
}

fn suit_index(suit: Suit) -> usize {
    match suit {
        Suit::Hearts => 0,
        Suit::Diamonds => 1,
        Suit::Clubs => 2,
        Suit::Spades => 3,
    }
}

fn rank_index(rank: Rank) -> usize {
    (rank.value() - 1) as usize
}

/// A full one-suit foundation pile, Ace through King, face-up.
fn full_foundation(suit: Suit) -> Vec<Card> {
    let mut pile: Vec<Card> = Vec::new();
    for rank in Rank::all() {
        pile.push(card(suit, rank, true));
    }
    pile
}

/// Counts every card in every pile; passes only if each of the 52
/// suit-rank pairs occurs exactly once.
fn assert_conserved(game: &GameState) {
    let mut counts = [[0usize; 13]; 4];
    let mut total: usize = 0;
    let mut piles: Vec<&Vec<Card>> = Vec::new();
    for pile in &game.tableau {
        piles.push(pile);
    }
    for pile in &game.foundations {
        piles.push(pile);
    }
    piles.push(&game.stock);
    piles.push(&game.waste);
    for pile in piles {
        for c in pile.iter() {
            counts[suit_index(c.suit)][rank_index(c.rank)] += 1;
            total += 1;
        }
    }
    assert_eq!(total, 52);
    for suit_counts in counts.iter() {
        for count in suit_counts.iter() {
            assert_eq!(*count, 1);
        }
    }
}

#[test]
fn test_conservation_through_actions() {
    let mut game = GameState::new_with_draw_count(DrawCount::Three);
    assert_conserved(&game);

    // Exercise a mix of deals, flips and moves; legal or not, every card
    // must stay accounted for.
    for _ in 0..40 {
        let _ = game.handle_action(GameAction::DealFromStock);
        assert_conserved(&game);
    }
    for col in 0..7 {
        let top: usize = game.tableau[col].len().saturating_sub(1);
        let _ = game.handle_action(GameAction::FlipCard(Position::Tableau(col, top)));
        assert_conserved(&game);
    }
    // Try moving every tableau top card and the waste top everywhere.
    for col in 0..7 {
        let top: usize = game.tableau[col].len().saturating_sub(1);
        let cards = game.get_cards_at_position(Position::Tableau(col, top));
        let targets = game.get_valid_drop_targets(&cards, Position::Tableau(col, top));
        for target in targets {
            let _ = game.handle_action(GameAction::MoveCard {
                from: Position::Tableau(col, top),
                to: target,
            });
            assert_conserved(&game);
        }
    }
    let _ = game.handle_action(GameAction::Undo);
    assert_conserved(&game);
    let _ = game.handle_action(GameAction::NewGame);
    assert_conserved(&game);
}

#[test]
fn test_draw_three_capped_by_stock() {
    let mut game = empty_game(DrawCount::Three);
    game.stock = vec![
        card(Suit::Hearts, Rank::Five, false),
        card(Suit::Spades, Rank::Nine, false),
    ];
    let result = game.deal_from_stock();
    assert!(result.is_ok());
    assert_eq!(game.stock.len(), 0);
    assert_eq!(game.waste.len(), 2);
    assert_eq!(game.move_count, 1);
}

#[test]
fn test_recycle_reverses_waste() {
    let mut game = empty_game(DrawCount::Three);
    game.waste = vec![
        card(Suit::Hearts, Rank::Ace, true),
        card(Suit::Hearts, Rank::Two, true),
        card(Suit::Hearts, Rank::Three, true),
    ];
    let result = game.deal_from_stock();
    assert!(result.is_ok());
    assert!(game.waste.is_empty());
    assert_eq!(game.stock.len(), 3);
    assert_eq!(game.stock[0], card(Suit::Hearts, Rank::Three, false));
    assert_eq!(game.stock[1], card(Suit::Hearts, Rank::Two, false));
    assert_eq!(game.stock[2], card(Suit::Hearts, Rank::Ace, false));
    assert_eq!(game.move_count, 1);
}

#[test]
fn test_cannot_place_on_face_down_card() {
    let black_queen = card(Suit::Spades, Rank::Queen, true);
    let face_down_red_king = card(Suit::Hearts, Rank::King, false);
    assert!(!black_queen.can_place_on_tableau(&face_down_red_king));
}

#[test]
fn test_sequence_extraction() {
    let mut game = empty_game(DrawCount::Three);
    game.tableau[0] = vec![
        card(Suit::Hearts, Rank::King, true),
        card(Suit::Spades, Rank::Queen, true),
        card(Suit::Diamonds, Rank::Jack, true),
    ];

    // The whole face-up descending alternating run lifts as one unit.
    let run = game.get_cards_at_position(Position::Tableau(0, 0));
    assert_eq!(run.len(), 3);
    assert_eq!(run[0], card(Suit::Hearts, Rank::King, true));
    assert_eq!(run[2], card(Suit::Diamonds, Rank::Jack, true));

    // So does any suffix of it.
    let run = game.get_cards_at_position(Position::Tableau(0, 1));
    assert_eq!(run.len(), 2);

    // A face-down card anywhere in the range blocks the lift.
    game.tableau[0][1] = card(Suit::Spades, Rank::Queen, false);
    let run = game.get_cards_at_position(Position::Tableau(0, 0));
    assert!(run.is_empty());

    // Above the face-down card a lift still works.
    let run = game.get_cards_at_position(Position::Tableau(0, 2));
    assert_eq!(run.len(), 1);
}

#[test]
fn test_broken_sequence_not_liftable() {
    let mut game = empty_game(DrawCount::Three);
    // Same colors: not a valid run.
    game.tableau[0] = vec![
        card(Suit::Hearts, Rank::King, true),
        card(Suit::Diamonds, Rank::Queen, true),
    ];
    let run = game.get_cards_at_position(Position::Tableau(0, 0));
    assert!(run.is_empty());
}

#[test]
fn test_move_sequence_to_tableau() {
    let mut game = empty_game(DrawCount::Three);
    game.tableau[0] = vec![
        card(Suit::Clubs, Rank::Eight, true),
        card(Suit::Hearts, Rank::Seven, true),
    ];
    game.tableau[1] = vec![card(Suit::Diamonds, Rank::Nine, true)];

    let result = game.move_card(Position::Tableau(0, 0), Position::Tableau(1, 1));
    assert_eq!(result, Ok(()));
    assert!(game.tableau[0].is_empty());
    assert_eq!(game.tableau[1].len(), 3);
    assert_eq!(game.tableau[1][1], card(Suit::Clubs, Rank::Eight, true));
    assert_eq!(game.tableau[1][2], card(Suit::Hearts, Rank::Seven, true));
    assert_eq!(game.move_count, 1);
}

#[test]
fn test_only_king_starts_empty_column() {
    let mut game = empty_game(DrawCount::Three);
    game.waste = vec![card(Suit::Spades, Rank::Queen, true)];
    let result = game.move_card(Position::Waste(0), Position::Tableau(0, 0));
    assert_eq!(result, Err(ErrorKind::IllegalTableauPlacement));

    game.waste = vec![card(Suit::Spades, Rank::King, true)];
    let result = game.move_card(Position::Waste(0), Position::Tableau(0, 0));
    assert_eq!(result, Ok(()));
    assert_eq!(game.tableau[0].len(), 1);
    assert!(game.waste.is_empty());
}

#[test]
fn test_foundation_moves() {
    let mut game = empty_game(DrawCount::Three);
    game.waste = vec![card(Suit::Hearts, Rank::Ace, true)];

    // Only an Ace may start an empty foundation.
    let result = game.move_card(Position::Waste(0), Position::Foundation(0));
    assert_eq!(result, Ok(()));
    assert_eq!(game.foundations[0].len(), 1);

    // A Two of Hearts may follow the Ace of Hearts.
    game.waste = vec![card(Suit::Hearts, Rank::Two, true)];
    let result = game.move_card(Position::Waste(0), Position::Foundation(0));
    assert_eq!(result, Ok(()));
    assert_eq!(game.foundations[0].len(), 2);

    // A Two of Spades may not follow the Two of Hearts.
    game.waste = vec![card(Suit::Spades, Rank::Two, true)];
    let result = game.move_card(Position::Waste(0), Position::Foundation(0));
    assert_eq!(result, Err(ErrorKind::IllegalFoundationPlacement));

    // A non-Ace may not start the next empty foundation.
    let result = game.move_card(Position::Waste(0), Position::Foundation(1));
    assert_eq!(result, Err(ErrorKind::IllegalFoundationPlacement));
}

#[test]
fn test_multi_card_run_rejected_by_foundation() {
    let mut game = empty_game(DrawCount::Three);
    game.tableau[0] = vec![
        card(Suit::Clubs, Rank::Two, true),
        card(Suit::Hearts, Rank::Ace, true),
    ];
    let result = game.move_card(Position::Tableau(0, 0), Position::Foundation(0));
    assert_eq!(result, Err(ErrorKind::InvalidSequenceTarget));
}

#[test]
fn test_error_variants() {
    let mut fresh = GameState::new();
    assert_eq!(
        fresh.flip_card(Position::Tableau(7, 0)),
        Err(ErrorKind::InvalidColumn)
    );
    assert_eq!(
        fresh.flip_card(Position::Tableau(0, 10)),
        Err(ErrorKind::InvalidIndex)
    );
    assert_eq!(
        fresh.flip_card(Position::Tableau(6, 0)),
        Err(ErrorKind::NotTopCard)
    );
    assert_eq!(
        fresh.flip_card(Position::Tableau(0, 0)),
        Err(ErrorKind::AlreadyFaceUp)
    );
    assert_eq!(fresh.flip_card(Position::Stock), Err(ErrorKind::WrongPileKind));
    assert_eq!(
        fresh.move_card(Position::Stock, Position::Tableau(0, 0)),
        Err(ErrorKind::NoMovableCards)
    );
    assert_eq!(fresh.undo(), Err(ErrorKind::NothingToUndo));

    let mut game = empty_game(DrawCount::Three);
    assert_eq!(game.deal_from_stock(), Err(ErrorKind::EmptyPiles));

    game.waste = vec![card(Suit::Hearts, Rank::Five, true)];
    assert_eq!(
        game.move_card(Position::Waste(0), Position::Tableau(9, 0)),
        Err(ErrorKind::InvalidColumn)
    );
    assert_eq!(
        game.move_card(Position::Waste(0), Position::Foundation(9)),
        Err(ErrorKind::InvalidIndex)
    );
    assert_eq!(
        game.move_card(Position::Waste(0), Position::Stock),
        Err(ErrorKind::WrongPileKind)
    );
}

#[test]
fn test_rejection_leaves_state_unchanged() {
    let mut game = empty_game(DrawCount::Three);
    game.tableau[0] = vec![card(Suit::Hearts, Rank::Seven, true)];
    game.tableau[1] = vec![card(Suit::Diamonds, Rank::Nine, true)];
    game.waste = vec![card(Suit::Clubs, Rank::Four, true)];

    let tableau_before = game.tableau.clone();
    let foundations_before = game.foundations.clone();
    let stock_before = game.stock.clone();
    let waste_before = game.waste.clone();
    let move_count_before: u32 = game.move_count;

    // 7 of Hearts on 9 of Diamonds: illegal, and must change nothing.
    let result = game.move_card(Position::Tableau(0, 0), Position::Tableau(1, 1));
    assert_eq!(result, Err(ErrorKind::IllegalTableauPlacement));

    assert_eq!(game.tableau, tableau_before);
    assert_eq!(game.foundations, foundations_before);
    assert_eq!(game.stock, stock_before);
    assert_eq!(game.waste, waste_before);
    assert_eq!(game.move_count, move_count_before);
}

#[test]
fn test_win_detection() {
    let mut game = empty_game(DrawCount::Three);
    game.foundations[0] = full_foundation(Suit::Diamonds);
    game.foundations[1] = full_foundation(Suit::Clubs);
    game.foundations[2] = full_foundation(Suit::Spades);
    let mut hearts = full_foundation(Suit::Hearts);
    let king_hearts = hearts.pop().unwrap();
    game.foundations[3] = hearts;
    game.tableau[0] = vec![king_hearts];

    assert!(!game.game_won);
    let result = game.move_card(Position::Tableau(0, 0), Position::Foundation(3));
    assert_eq!(result, Ok(()));
    assert!(game.game_won);

    // Undoing the final move clears the flag again.
    let result = game.undo();
    assert_eq!(result, Ok(()));
    assert!(!game.game_won);
}

#[test]
fn test_undo_restores_after_deal() {
    let mut game = GameState::new_with_draw_count(DrawCount::One);
    let tableau_before = game.tableau.clone();
    let stock_before = game.stock.clone();
    let waste_before = game.waste.clone();
    let move_count_before: u32 = game.move_count;

    assert_eq!(game.handle_action(GameAction::DealFromStock), Ok(()));
    assert_ne!(game.stock, stock_before);

    assert_eq!(game.handle_action(GameAction::Undo), Ok(()));
    assert_eq!(game.tableau, tableau_before);
    assert_eq!(game.stock, stock_before);
    assert_eq!(game.waste, waste_before);
    assert_eq!(game.move_count, move_count_before);
}

#[test]
fn test_undo_restores_after_move_and_flip() {
    let mut game = empty_game(DrawCount::Three);
    game.tableau[0] = vec![
        card(Suit::Spades, Rank::Two, false),
        card(Suit::Hearts, Rank::Seven, true),
    ];
    game.tableau[1] = vec![card(Suit::Spades, Rank::Eight, true)];

    let tableau_before = game.tableau.clone();

    assert_eq!(
        game.move_card(Position::Tableau(0, 1), Position::Tableau(1, 1)),
        Ok(())
    );
    assert_eq!(game.flip_card(Position::Tableau(0, 0)), Ok(()));
    assert_eq!(game.move_count, 2);

    assert_eq!(game.undo(), Ok(()));
    assert_eq!(game.move_count, 1);
    assert!(!game.tableau[0][0].face_up);

    assert_eq!(game.undo(), Ok(()));
    assert_eq!(game.move_count, 0);
    assert_eq!(game.tableau, tableau_before);
}

#[test]
fn test_undo_restores_after_new_game() {
    let mut game = GameState::new_with_draw_count(DrawCount::One);
    assert_eq!(game.handle_action(GameAction::DealFromStock), Ok(()));
    let tableau_before = game.tableau.clone();
    let waste_before = game.waste.clone();

    assert_eq!(game.handle_action(GameAction::NewGame), Ok(()));
    assert_eq!(game.move_count, 0);
    assert!(game.waste.is_empty());
    assert_eq!(game.draw_count, DrawCount::One);

    assert_eq!(game.handle_action(GameAction::Undo), Ok(()));
    assert_eq!(game.tableau, tableau_before);
    assert_eq!(game.waste, waste_before);
    assert_eq!(game.move_count, 1);
}

#[test]
fn test_history_is_bounded() {
    let mut game = GameState::new_with_draw_count(DrawCount::Three);
    // The stock and waste cycle forever, so every deal succeeds.
    for _ in 0..150 {
        assert_eq!(game.handle_action(GameAction::DealFromStock), Ok(()));
    }
    for _ in 0..100 {
        assert_eq!(game.handle_action(GameAction::Undo), Ok(()));
    }
    assert_eq!(
        game.handle_action(GameAction::Undo),
        Err(ErrorKind::NothingToUndo)
    );
}

#[test]
fn test_drop_targets() {
    let mut game = empty_game(DrawCount::Three);
    game.tableau[0] = vec![card(Suit::Diamonds, Rank::Nine, true)];

    // An 8 of Clubs fits only on the 9 of Diamonds.
    game.waste = vec![card(Suit::Clubs, Rank::Eight, true)];
    let cards = game.get_cards_at_position(Position::Waste(0));
    let targets = game.get_valid_drop_targets(&cards, Position::Waste(0));
    assert_eq!(targets, vec![Position::Tableau(0, 1)]);

    // A King fits on every empty column.
    game.waste = vec![card(Suit::Spades, Rank::King, true)];
    let cards = game.get_cards_at_position(Position::Waste(0));
    let targets = game.get_valid_drop_targets(&cards, Position::Waste(0));
    assert_eq!(
        targets,
        vec![
            Position::Tableau(1, 0),
            Position::Tableau(2, 0),
            Position::Tableau(3, 0),
            Position::Tableau(4, 0),
            Position::Tableau(5, 0),
            Position::Tableau(6, 0),
        ]
    );

    // A single Ace fits on every empty foundation.
    game.waste = vec![card(Suit::Hearts, Rank::Ace, true)];
    let cards = game.get_cards_at_position(Position::Waste(0));
    let targets = game.get_valid_drop_targets(&cards, Position::Waste(0));
    assert_eq!(
        targets,
        vec![
            Position::Foundation(0),
            Position::Foundation(1),
            Position::Foundation(2),
            Position::Foundation(3),
        ]
    );
}

#[test]
fn test_move_from_foundation_back_to_tableau() {
    let mut game = empty_game(DrawCount::Three);
    game.foundations[0] = vec![
        card(Suit::Spades, Rank::Ace, true),
        card(Suit::Spades, Rank::Two, true),
    ];
    game.tableau[0] = vec![card(Suit::Diamonds, Rank::Three, true)];

    let result = game.move_card(Position::Foundation(0), Position::Tableau(0, 1));
    assert_eq!(result, Ok(()));
    assert_eq!(game.foundations[0], vec![card(Suit::Spades, Rank::Ace, true)]);
    assert_eq!(game.tableau[0].len(), 2);
    assert_eq!(game.tableau[0][1], card(Suit::Spades, Rank::Two, true));
}

#[test]
fn test_only_waste_top_is_liftable() {
    let mut game = empty_game(DrawCount::Three);
    game.waste = vec![
        card(Suit::Hearts, Rank::Four, true),
        card(Suit::Clubs, Rank::Nine, true),
    ];
    assert!(game.get_cards_at_position(Position::Waste(0)).is_empty());
    let run = game.get_cards_at_position(Position::Waste(1));
    assert_eq!(run, vec![card(Suit::Clubs, Rank::Nine, true)]);
    assert!(game.get_cards_at_position(Position::Stock).is_empty());
}

#[test]
fn test_decimal_rendering() {
    assert_eq!(u64_string(0), "0");
    assert_eq!(u64_string(7), "7");
    assert_eq!(u64_string(10), "10");
    assert_eq!(u64_string(305), "305");
    assert_eq!(u64_string(18446744073709551615), "18446744073709551615");
}

#[test]
fn test_summary_exact() {
    let game = empty_game(DrawCount::Three);
    assert_eq!(game.summary(), "Moves: 0 | Stock: 0 | Waste: 0 | Draw: Three");

    let mut game = empty_game(DrawCount::One);
    game.stock = vec![card(Suit::Hearts, Rank::Five, false)];
    game.move_count = 12;
    assert_eq!(game.summary(), "Moves: 12 | Stock: 1 | Waste: 0 | Draw: One");
}
