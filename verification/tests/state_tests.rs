use klondike::actions::DrawCount;
use klondike::state::{GameState, Position};

#[test]
fn test_game_state_creation() {
    let game_state = GameState::new();

    // Check that tableau has correct number of columns
    assert_eq!(game_state.tableau.len(), 7);

    // Check that foundations are empty initially
    for foundation in &game_state.foundations {
        assert!(foundation.is_empty());
    }

    // Check that waste is empty initially
    assert!(game_state.waste.is_empty());

    // Check initial game state
    assert_eq!(game_state.move_count, 0);
    assert!(!game_state.game_won);
    assert_eq!(game_state.draw_count, DrawCount::Three);
}

#[test]
fn test_tableau_dealing() {
    let game_state = GameState::new();

    // Check that tableau columns have correct number of cards
    // Column 0: 1 card, Column 1: 2 cards, ..., Column 6: 7 cards
    for (col, pile) in game_state.tableau.iter().enumerate() {
        assert_eq!(
            pile.len(),
            col + 1,
            "Column {} should have {} cards",
            col,
            col + 1
        );

        // Check that only the top card is face-up
        for (i, card) in pile.iter().enumerate() {
            if i == pile.len() - 1 {
                // Top card should be face-up
                assert!(card.face_up, "Top card in column {} should be face-up", col);
            } else {
                // Other cards should be face-down
                assert!(
                    !card.face_up,
                    "Non-top card in column {} should be face-down",
                    col
                );
            }
        }
    }
}

#[test]
fn test_total_cards_dealt() {
    let game_state = GameState::new();

    // Count cards in tableau
    let tableau_cards: usize = game_state.tableau.iter().map(|pile| pile.len()).sum();

    // Count cards in stock
    let stock_cards: usize = game_state.stock.len();

    // Total should be 52 (standard deck)
    assert_eq!(tableau_cards + stock_cards, 52);

    // Tableau should have 28 cards (1+2+3+4+5+6+7)
    assert_eq!(tableau_cards, 28);

    // Stock should have remaining 24 cards
    assert_eq!(stock_cards, 24);
}

#[test]
fn test_draw_count_setting() {
    let game_state_one = GameState::new_with_draw_count(DrawCount::One);
    let game_state_three = GameState::new_with_draw_count(DrawCount::Three);

    assert_eq!(game_state_one.draw_count, DrawCount::One);
    assert_eq!(game_state_three.draw_count, DrawCount::Three);
}

#[test]
fn test_summary_format() {
    let game_state = GameState::new();
    let summary = game_state.summary();

    // Check that summary contains expected information
    assert!(summary.contains("Moves: 0"));
    assert!(summary.contains("Stock: 24"));
    assert!(summary.contains("Waste: 0"));
    assert!(summary.contains("Draw: Three"));
}

#[test]
fn test_cards_are_shuffled() {
    // Create two game states and verify they have different card arrangements
    let game1 = GameState::new();
    let game2 = GameState::new();

    // Get the first few cards from each tableau to compare
    let mut cards1 = Vec::new();
    let mut cards2 = Vec::new();

    for pile in &game1.tableau {
        if let Some(card) = pile.first() {
            cards1.push(*card);
        }
    }

    for pile in &game2.tableau {
        if let Some(card) = pile.first() {
            cards2.push(*card);
        }
    }

    // It's extremely unlikely that two shuffled decks would have the same
    // first 7 cards in the same positions (but not impossible)
    // This test might occasionally fail due to randomness, but it's very unlikely
    let same_arrangement = cards1.iter().zip(cards2.iter()).all(|(a, b)| a == b);

    // If they're the same, let's at least verify we have valid cards
    if same_arrangement {
        assert!(!cards1.is_empty(), "Should have cards in tableau");
        assert_eq!(cards1.len(), 7, "Should have 7 tableau columns");
    }
}

#[test]
fn state_test_position_display() {
    let tableau_pos = Position::Tableau(2, 5);
    let foundation_pos = Position::Foundation(1);
    let stock_pos = Position::Stock;
    let waste_pos = Position::Waste(3);

    assert_eq!(tableau_pos.display_string(), "Tableau(2, 5)");
    assert_eq!(foundation_pos.display_string(), "Foundation(1)");
    assert_eq!(stock_pos.display_string(), "Stock");
    assert_eq!(waste_pos.display_string(), "Waste(3)");
}

#[test]
fn test_deal_from_stock() {
    let mut game_state = GameState::new_with_draw_count(DrawCount::One);
    let initial_stock_count: usize = game_state.stock.len();
    let initial_waste_count: usize = game_state.waste.len();

    // Deal one card
    let result = game_state.deal_from_stock();
    assert!(result.is_ok());
    assert_eq!(game_state.stock.len(), initial_stock_count - 1);
    assert_eq!(game_state.waste.len(), initial_waste_count + 1);
    assert_eq!(game_state.move_count, 1);

    // Check that the dealt card is face-up
    if let Some(top_waste_card) = game_state.waste.last() {
        assert!(top_waste_card.face_up);
    }
}

#[test]
fn test_deal_from_stock_three_cards() {
    let mut game_state = GameState::new_with_draw_count(DrawCount::Three);
    let initial_stock_count: usize = game_state.stock.len();

    // Deal three cards
    let result = game_state.deal_from_stock();
    assert!(result.is_ok());
    assert_eq!(game_state.stock.len(), initial_stock_count - 3);
    assert_eq!(game_state.waste.len(), 3);
    assert_eq!(game_state.move_count, 1);

    // Check that all dealt cards are face-up
    for card in &game_state.waste {
        assert!(card.face_up);
    }
}

#[test]
fn test_deal_from_empty_stock_recycles_waste() {
    let mut game_state = GameState::new();

    // Empty the stock by dealing all cards
    while !game_state.stock.is_empty() {
        let _ = game_state.deal_from_stock();
    }

    let waste_count_before_recycle: usize = game_state.waste.len();
    assert!(waste_count_before_recycle > 0);
    assert!(game_state.stock.is_empty());

    // Deal from empty stock should recycle waste back to stock
    let result = game_state.deal_from_stock();
    assert!(result.is_ok());
    assert_eq!(game_state.stock.len(), waste_count_before_recycle);
    assert!(game_state.waste.is_empty());

    // All recycled cards should be face-down
    for card in &game_state.stock {
        assert!(!card.face_up);
    }
}

#[test]
fn test_flip_card_in_tableau() {
    let mut game_state = GameState::new();

    // Find a tableau column with face-down cards
    let mut test_col = None;
    for (col, pile) in game_state.tableau.iter().enumerate() {
        if pile.len() > 1 {
            // Check if there's a face-down card that's not the top card
            for (idx, card) in pile.iter().enumerate() {
                if !card.face_up && idx < pile.len() - 1 {
                    test_col = Some(col);
                    break;
                }
            }
            if test_col.is_some() {
                break;
            }
        }
    }

    if let Some(col) = test_col {
        // Remove the top card to expose a face-down card
        let top_card = game_state.tableau[col].pop().unwrap();
        let top_idx: usize = game_state.tableau[col].len() - 1;

        // The newly exposed card should be face-down
        assert!(!game_state.tableau[col][top_idx].face_up);

        // Flip the card
        let result = game_state.flip_card(Position::Tableau(col, top_idx));
        assert!(result.is_ok());
        assert!(game_state.tableau[col][top_idx].face_up);
        assert_eq!(game_state.move_count, 1);

        // Put the top card back
        game_state.tableau[col].push(top_card);
    }
}

#[test]
fn test_flip_card_errors() {
    let mut game_state = GameState::new();

    // Try to flip card in invalid column
    let result = game_state.flip_card(Position::Tableau(7, 0));
    assert!(result.is_err());

    // Try to flip card with invalid index
    let result = game_state.flip_card(Position::Tableau(0, 10));
    assert!(result.is_err());

    // Try to flip already face-up card (top card in tableau is face-up)
    let result = game_state.flip_card(Position::Tableau(0, 0));
    assert!(result.is_err());

    // Try to flip non-tableau position
    let result = game_state.flip_card(Position::Stock);
    assert!(result.is_err());
}

#[test]
fn test_can_click_position() {
    let game_state = GameState::new();

    // Can always click stock
    assert!(game_state.can_click_position(Position::Stock));

    // Can click top card in tableau
    assert!(game_state.can_click_position(Position::Tableau(0, 0))); // Column 0 has 1 card
    assert!(game_state.can_click_position(Position::Tableau(6, 6))); // Column 6 has 7 cards

    // Cannot click non-top cards in tableau
    assert!(!game_state.can_click_position(Position::Tableau(6, 0))); // Not top card
    assert!(!game_state.can_click_position(Position::Tableau(6, 5))); // Not top card

    // Cannot click invalid positions
    assert!(!game_state.can_click_position(Position::Tableau(7, 0))); // Invalid column
    assert!(!game_state.can_click_position(Position::Tableau(0, 5))); // Invalid index

    // Cannot click waste or foundation yet
    assert!(!game_state.can_click_position(Position::Waste(0)));
    assert!(!game_state.can_click_position(Position::Foundation(0)));
}
