use klondike::card::{create_deck, Card, Position, Rank, Suit};

#[test]
fn test_card_creation() {
    let card = Card::new(Suit::Hearts, Rank::Ace, true);
    assert_eq!(card.suit, Suit::Hearts);
    assert_eq!(card.rank, Rank::Ace);
    assert_eq!(card.face_up, true);
}

#[test]
fn test_card_colors() {
    let red_card = Card::new(Suit::Hearts, Rank::King, true);
    let black_card = Card::new(Suit::Spades, Rank::Queen, true);

    assert!(red_card.is_red());
    assert!(!red_card.is_black());
    assert!(black_card.is_black());
    assert!(!black_card.is_red());
}

#[test]
fn test_tableau_placement_rules() {
    let red_king = Card::new(Suit::Hearts, Rank::King, true);
    let black_queen = Card::new(Suit::Spades, Rank::Queen, true);
    let red_queen = Card::new(Suit::Diamonds, Rank::Queen, true);
    let black_jack = Card::new(Suit::Clubs, Rank::Jack, true);

    // Black Queen can go on Red King (alternating colors, descending rank)
    assert!(black_queen.can_place_on_tableau(&red_king));

    // Red Queen cannot go on Red King (same color)
    assert!(!red_queen.can_place_on_tableau(&red_king));

    // Black Jack can go on Red Queen
    assert!(black_jack.can_place_on_tableau(&red_queen));

    // Black Queen cannot go on Black Jack (wrong rank order)
    assert!(!black_queen.can_place_on_tableau(&black_jack));
}

#[test]
fn test_foundation_placement_rules() {
    let ace_hearts = Card::new(Suit::Hearts, Rank::Ace, true);
    let two_hearts = Card::new(Suit::Hearts, Rank::Two, true);
    let two_spades = Card::new(Suit::Spades, Rank::Two, true);
    let three_hearts = Card::new(Suit::Hearts, Rank::Three, true);

    // Ace can start a foundation
    assert!(ace_hearts.can_place_on_foundation(None));

    // Two of Hearts can go on Ace of Hearts
    assert!(two_hearts.can_place_on_foundation(Some(&ace_hearts)));

    // Two of Spades cannot go on Ace of Hearts (wrong suit)
    assert!(!two_spades.can_place_on_foundation(Some(&ace_hearts)));

    // Three of Hearts cannot go on Ace of Hearts (wrong rank)
    assert!(!three_hearts.can_place_on_foundation(Some(&ace_hearts)));

    // Only Ace can start foundation
    assert!(!two_hearts.can_place_on_foundation(None));
}

#[test]
fn test_card_flipping() {
    let mut card = Card::new(Suit::Clubs, Rank::Seven, false);
    assert!(!card.face_up);

    card.flip();
    assert!(card.face_up);

    card.flip();
    assert!(!card.face_up);

    let flipped = card.flipped();
    assert!(flipped.face_up);
    assert!(!card.face_up); // Original unchanged
}

#[test]
fn test_deck_creation() {
    let deck = create_deck();
    assert_eq!(deck.len(), 52);

    // Check we have all suits and ranks
    let mut hearts_count: usize = 0;
    let mut aces_count: usize = 0;

    for card in &deck {
        if card.suit == Suit::Hearts {
            hearts_count += 1;
        }
        if card.rank == Rank::Ace {
            aces_count += 1;
        }
        // All cards should start face down
        assert!(!card.face_up);
    }

    assert_eq!(hearts_count, 13); // 13 hearts
    assert_eq!(aces_count, 4); // 4 aces
}

#[test]
fn test_rank_ordering() {
    assert!(Rank::Ace < Rank::Two);
    assert!(Rank::Two < Rank::Three);
    assert!(Rank::Queen < Rank::King);
    assert_eq!(Rank::Ace.value(), 1);
    assert_eq!(Rank::King.value(), 13);
}

#[test]
fn test_card_display() {
    let face_up_card = Card::new(Suit::Hearts, Rank::Ace, true);
    let face_down_card = Card::new(Suit::Spades, Rank::King, false);

    assert_eq!(face_up_card.display_string(), "A\u{2665}");
    assert_eq!(face_down_card.display_string(), "\u{1F0A0}");
}

#[test]
fn card_test_position_display() {
    let tableau_pos = Position::Tableau(2, 5);
    let foundation_pos = Position::Foundation(1);
    let stock_pos = Position::Stock;
    let waste_pos = Position::Waste(3);

    assert_eq!(tableau_pos.display_string(), "Tableau(2, 5)");
    assert_eq!(foundation_pos.display_string(), "Foundation(1)");
    assert_eq!(stock_pos.display_string(), "Stock");
    assert_eq!(waste_pos.display_string(), "Waste(3)");
}

#[test]
fn test_suit_and_rank_symbols() {
    assert_eq!(Suit::Hearts.symbol(), "\u{2665}");
    assert_eq!(Suit::Diamonds.symbol(), "\u{2666}");
    assert_eq!(Suit::Clubs.symbol(), "\u{2663}");
    assert_eq!(Suit::Spades.symbol(), "\u{2660}");

    assert_eq!(Rank::Ace.display(), "A");
    assert_eq!(Rank::Ten.display(), "10");
    assert_eq!(Rank::Jack.display(), "J");
    assert_eq!(Rank::Queen.display(), "Q");
    assert_eq!(Rank::King.display(), "K");
}
