use orderbook::fixed::SCALE;
use orderbook::ladder::{PriceLadder, PriceLevel};
use orderbook::snapshot::{
    get_bbo, largest_quantity, PqData, PqPair, FAINTEST_COLOR, FULL_COLOR,
};

fn ladder_of(levels: &[(u64, u64)]) -> PriceLadder {
    let mut ladder = PriceLadder::new();
    for (price, quantity) in levels {
        ladder.update(
            *price,
            PriceLevel { quantity: *quantity, min_update_id: 3, max_update_id: 4 },
        );
    }
    ladder
}

fn pq(views: &[PqData]) -> Vec<(u64, u64)> {
    views.iter().map(|d| (d.p, d.q)).collect()
}

#[test]
fn full_color_is_one_hundred() {
    assert_eq!(FULL_COLOR, 100 * SCALE);
}

#[test]
fn bids_come_out_highest_first() {
    let ladder = ladder_of(&[(10, 1), (11, 2), (9, 3)]);
    assert_eq!(pq(&get_bbo(&ladder, true, 2)), vec![(11, 2), (10, 1)]);
}

#[test]
fn asks_come_out_lowest_first() {
    let ladder = ladder_of(&[(10, 1), (11, 2), (9, 3)]);
    assert_eq!(pq(&get_bbo(&ladder, false, 2)), vec![(9, 3), (10, 1)]);
}

#[test]
fn depth_beyond_the_ladder_gives_all_levels() {
    let ladder = ladder_of(&[(10, 1), (11, 2), (9, 3)]);
    assert_eq!(pq(&get_bbo(&ladder, true, 10)), vec![(11, 2), (10, 1), (9, 3)]);
    assert_eq!(pq(&get_bbo(&ladder, false, usize::MAX)), vec![(9, 3), (10, 1), (11, 2)]);
}

#[test]
fn depth_zero_gives_nothing() {
    let ladder = ladder_of(&[(10, 1), (11, 2), (9, 3)]);
    assert!(get_bbo(&ladder, true, 0).is_empty());
    assert!(get_bbo(&ladder, false, 0).is_empty());
}

#[test]
fn empty_ladder_gives_nothing() {
    let ladder = PriceLadder::new();
    assert!(get_bbo(&ladder, true, 5).is_empty());
    assert!(get_bbo(&ladder, false, 5).is_empty());
}

#[test]
fn colors_are_relative_to_the_largest_of_the_slice() {
    let ladder = ladder_of(&[(12, 1 * SCALE), (11, 4 * SCALE), (10, 2 * SCALE)]);
    let views = get_bbo(&ladder, true, 3);
    assert_eq!(pq(&views), vec![(12, SCALE), (11, 4 * SCALE), (10, 2 * SCALE)]);
    let colors: Vec<u64> = views.iter().map(|d| d.max_color).collect();
    assert_eq!(colors, vec![25 * SCALE, 100 * SCALE, 50 * SCALE]);
    assert!(views.iter().all(|d| d.min_color == 0));
    let as_decimal: Vec<f64> = colors.iter().map(|c| *c as f64 / SCALE as f64).collect();
    assert_eq!(as_decimal, vec![25.0, 100.0, 50.0]);
}

#[test]
fn largest_is_taken_within_the_slice_only() {
    let ladder = ladder_of(&[(12, 1 * SCALE), (11, 2 * SCALE), (10, 8 * SCALE)]);
    let views = get_bbo(&ladder, true, 2);
    let colors: Vec<u64> = views.iter().map(|d| d.max_color).collect();
    assert_eq!(colors, vec![50 * SCALE, 100 * SCALE]);
    let asks = get_bbo(&ladder, false, 1);
    assert_eq!(asks[0].p, 10);
    assert_eq!(asks[0].max_color, 100 * SCALE);
}

#[test]
fn color_is_rounded_down() {
    let ladder = ladder_of(&[(12, 1), (11, 3)]);
    let views = get_bbo(&ladder, true, 2);
    assert_eq!(views[0].max_color, 3_333_333_333);
    assert_eq!(views[1].max_color, FULL_COLOR);
}

#[test]
fn update_ids_pass_through() {
    let ladder = ladder_of(&[(12, 1)]);
    let views = get_bbo(&ladder, false, 1);
    assert_eq!(
        views[0],
        PqData { p: 12, q: 1, min_seq_id: 3, max_seq_id: 4, min_color: 0, max_color: FULL_COLOR }
    );
}

#[test]
fn to_pqdata_without_a_largest_is_full() {
    let data = PqPair(7, 5).to_pqdata(None, 1, 2);
    assert_eq!(
        data,
        PqData { p: 7, q: 5, min_seq_id: 1, max_seq_id: 2, min_color: 0, max_color: FULL_COLOR }
    );
}

#[test]
fn to_pqdata_with_a_zero_largest_is_full() {
    let data = PqPair(7, 0).to_pqdata(Some(0), 1, 2);
    assert_eq!(data.max_color, FULL_COLOR);
}

#[test]
fn to_pqdata_scales_against_the_largest() {
    assert_eq!(PqPair(7, 1).to_pqdata(Some(4), 0, 0).max_color, 25 * SCALE);
    assert_eq!(PqPair(7, 4).to_pqdata(Some(4), 0, 0).max_color, 100 * SCALE);
    assert_eq!(PqPair(7, 0).to_pqdata(Some(4), 0, 0).max_color, 0);
    assert_eq!(PqPair(7, u64::MAX).to_pqdata(Some(u64::MAX), 0, 0).max_color, FULL_COLOR);
    assert_eq!(
        PqPair(7, u64::MAX - 1).to_pqdata(Some(u64::MAX), 0, 0).max_color,
        FULL_COLOR - 1
    );
}

#[test]
fn largest_quantity_of_a_slice() {
    let level = |quantity| PriceLevel { quantity, min_update_id: 0, max_update_id: 0 };
    assert_eq!(largest_quantity(&vec![]), None);
    assert_eq!(largest_quantity(&vec![(1, level(0))]), Some(0));
    assert_eq!(largest_quantity(&vec![(1, level(2)), (2, level(9)), (3, level(4))]), Some(9));
}

#[test]
fn faintest_color_is_one_unit() {
    assert_eq!(FAINTEST_COLOR, 1);
}

#[test]
fn tiny_share_keeps_the_faintest_colour() {
    assert_eq!(PqPair(7, 1).to_pqdata(Some(100_000_000_000), 0, 0).max_color, FAINTEST_COLOR);
    assert_eq!(PqPair(7, 1).to_pqdata(Some(u64::MAX), 0, 0).max_color, FAINTEST_COLOR);
    assert_eq!(PqPair(7, 1).to_pqdata(Some(10_000_000_000), 0, 0).max_color, 1);
    assert_eq!(PqPair(7, 2).to_pqdata(Some(10_000_000_000), 0, 0).max_color, 2);
    assert_eq!(PqPair(7, 0).to_pqdata(Some(100_000_000_000), 0, 0).max_color, 0);
}

#[test]
fn level_of_non_zero_size_is_never_shown_at_zero() {
    let ladder = ladder_of(&[(1, 1), (2, 100_000_000_000)]);
    let views = get_bbo(&ladder, true, 2);
    assert_eq!(pq(&views), vec![(2, 100_000_000_000), (1, 1)]);
    assert_eq!(views[0].max_color, FULL_COLOR);
    assert_eq!(views[1].max_color, FAINTEST_COLOR);
    assert!(views.iter().all(|d| d.min_color == 0 && 0 < d.max_color && d.max_color <= FULL_COLOR));
}

#[test]
fn zero_largest_is_full_for_any_quantity() {
    assert_eq!(PqPair(7, 5).to_pqdata(Some(0), 1, 2).max_color, FULL_COLOR);
    assert_eq!(PqPair(7, u64::MAX).to_pqdata(Some(0), 1, 2).max_color, FULL_COLOR);
    assert_eq!(PqPair(7, 5).to_pqdata(None, 1, 2).max_color, FULL_COLOR);
    assert_eq!(PqPair(7, 5).to_pqdata(Some(0), 1, 2).min_color, 0);
}

#[test]
fn larger_quantity_never_has_a_smaller_colour() {
    let ladder = ladder_of(&[(1, 1), (2, 3), (3, 3), (4, 7), (5, 100_000_000_000), (6, 2)]);
    let views = get_bbo(&ladder, false, 6);
    for a in &views {
        for b in &views {
            if a.q <= b.q {
                assert!(a.max_color <= b.max_color);
            }
        }
    }
}
