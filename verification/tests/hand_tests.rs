use pokerhaand::{
    Card, Hand,
    Rank::{self, Ace, Jack, King, Numeral, Queen},
    RankingCategory,
    Suit::{self, Clubs, Diamonds, Hearts, Spades},
};

fn c(suit: Suit, rank: Rank) -> Card {
    Card { suit, rank }
}

#[test]
fn detects_straight_flush() {
    let cards = [
        c(Hearts, Numeral(6)),
        c(Hearts, Numeral(7)),
        c(Hearts, Numeral(8)),
        c(Hearts, Numeral(9)),
        c(Hearts, Numeral(10)),
    ];
    assert_eq!(
        RankingCategory::from_cards(&cards),
        RankingCategory::StraightFlush
    );
}

#[test]
fn detects_four_of_a_kind() {
    let cards = [
        c(Spades, Queen),
        c(Hearts, Queen),
        c(Diamonds, Queen),
        c(Clubs, Queen),
        c(Hearts, Ace),
    ];
    assert_eq!(
        RankingCategory::from_cards(&cards),
        RankingCategory::FourOfAKind
    );
}

#[test]
fn detects_full_house() {
    let cards = [
        c(Clubs, Numeral(3)),
        c(Spades, Numeral(3)),
        c(Hearts, Numeral(3)),
        c(Clubs, Jack),
        c(Diamonds, Jack),
    ];
    assert_eq!(
        RankingCategory::from_cards(&cards),
        RankingCategory::FullHouse
    );
}

#[test]
fn detects_flush() {
    let cards = [
        c(Diamonds, Numeral(2)),
        c(Diamonds, Numeral(5)),
        c(Diamonds, Numeral(9)),
        c(Diamonds, Jack),
        c(Diamonds, King),
    ];
    assert_eq!(RankingCategory::from_cards(&cards), RankingCategory::Flush);
}

#[test]
fn detects_straight() {
    let cards = [
        c(Clubs, Numeral(4)),
        c(Hearts, Numeral(5)),
        c(Spades, Numeral(6)),
        c(Diamonds, Numeral(7)),
        c(Hearts, Numeral(8)),
    ];
    assert_eq!(
        RankingCategory::from_cards(&cards),
        RankingCategory::Straight
    );
}

#[test]
fn detects_three_of_a_kind() {
    let cards = [
        c(Spades, King),
        c(Clubs, King),
        c(Diamonds, King),
        c(Hearts, Numeral(4)),
        c(Hearts, Numeral(6)),
    ];
    assert_eq!(
        RankingCategory::from_cards(&cards),
        RankingCategory::ThreeOfAKind
    );
}

#[test]
fn detects_two_pair() {
    let cards = [
        c(Spades, Ace),
        c(Clubs, Ace),
        c(Hearts, Numeral(5)),
        c(Diamonds, Numeral(5)),
        c(Clubs, Queen),
    ];
    assert_eq!(
        RankingCategory::from_cards(&cards),
        RankingCategory::TwoPair
    );
}

#[test]
fn detects_one_pair() {
    let cards = [
        c(Hearts, Numeral(9)),
        c(Diamonds, Numeral(9)),
        c(Spades, Numeral(3)),
        c(Clubs, Jack),
        c(Spades, Queen),
    ];
    assert_eq!(
        RankingCategory::from_cards(&cards),
        RankingCategory::OnePair
    );
}

#[test]
fn detects_high_card() {
    let cards = [
        c(Spades, Numeral(2)),
        c(Clubs, Numeral(4)),
        c(Diamonds, Numeral(7)),
        c(Hearts, Jack),
        c(Clubs, King),
    ];
    assert_eq!(
        RankingCategory::from_cards(&cards),
        RankingCategory::HighCard
    );
}

#[test]
fn higher_category_wins() {
    let flush = Hand::from([
        c(Hearts, Numeral(2)),
        c(Hearts, Numeral(4)),
        c(Hearts, Numeral(6)),
        c(Hearts, Numeral(8)),
        c(Hearts, Queen),
    ]);

    let straight = Hand::from([
        c(Clubs, Numeral(5)),
        c(Diamonds, Numeral(6)),
        c(Spades, Numeral(7)),
        c(Hearts, Numeral(8)),
        c(Clubs, Numeral(9)),
    ]);

    assert!(flush > straight);
}

#[test]
fn kicker_breaks_tie_for_one_pair() {
    let hand1 = Hand::from([
        c(Hearts, Numeral(9)),
        c(Diamonds, Numeral(9)),
        c(Spades, Numeral(3)),
        c(Clubs, Jack),
        c(Spades, Queen),
    ]);

    let hand2 = Hand::from([
        c(Clubs, Numeral(9)),
        c(Spades, Numeral(9)),
        c(Diamonds, Numeral(3)),
        c(Hearts, Numeral(10)),
        c(Diamonds, Queen),
    ]);

    assert!(hand1 > hand2); // Jack kicker > Ten kicker
}

#[test]
fn same_hand_different_order_is_equal() {
    let hand1 = Hand::from([
        c(Hearts, Ace),
        c(Clubs, King),
        c(Diamonds, Queen),
        c(Spades, Jack),
        c(Hearts, Numeral(10)),
    ]);

    let hand2 = Hand::from([
        c(Hearts, Numeral(10)),
        c(Spades, Jack),
        c(Diamonds, Queen),
        c(Clubs, King),
        c(Hearts, Ace),
    ]);

    assert_eq!(hand1, hand2);
}

#[test]
fn two_pair_with_higher_pair_wins() {
    let hand1 = Hand::from([
        c(Clubs, Numeral(4)),
        c(Diamonds, Numeral(4)),
        c(Spades, Numeral(2)),
        c(Hearts, Numeral(2)),
        c(Clubs, Queen),
    ]);

    let hand2 = Hand::from([
        c(Clubs, Numeral(5)),
        c(Diamonds, Numeral(5)),
        c(Spades, Numeral(2)),
        c(Hearts, Numeral(2)),
        c(Hearts, Queen),
    ]);

    assert!(hand2 > hand1); // 5/2 beats 4/2
}
