use core::cmp::Ordering;

use pokerhaand::order::{compare_ranks, order_of};
use pokerhaand::Rank::{Ace, Jack, King, Numeral, Queen};

#[test]
fn order_of_orders_numbers() {
    assert_eq!(order_of(2, 3), Ordering::Less);
    assert_eq!(order_of(14, 13), Ordering::Greater);
    assert_eq!(order_of(9, 9), Ordering::Equal);
}

#[test]
fn first_difference_decides_between_rank_lists() {
    assert_eq!(
        compare_ranks(&vec![Queen, Jack, Numeral(3)], &vec![Queen, Numeral(10), Numeral(9)]),
        Ordering::Greater
    );
    assert_eq!(
        compare_ranks(&vec![King, Numeral(2)], &vec![Ace, Numeral(2)]),
        Ordering::Less
    );
    assert_eq!(
        compare_ranks(&vec![King, Numeral(2)], &vec![King, Numeral(2)]),
        Ordering::Equal
    );
}

#[test]
fn shorter_rank_list_comes_first_when_it_is_a_prefix() {
    assert_eq!(compare_ranks(&vec![], &vec![]), Ordering::Equal);
    assert_eq!(compare_ranks(&vec![], &vec![Numeral(2)]), Ordering::Less);
    assert_eq!(compare_ranks(&vec![Ace, King], &vec![Ace]), Ordering::Greater);
    assert_eq!(compare_ranks(&vec![Numeral(2), Ace], &vec![Numeral(3)]), Ordering::Less);
}
