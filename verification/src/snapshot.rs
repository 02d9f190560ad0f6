//! The snapshot extractor: the best levels of a ladder at a bounded depth,
//! each with its size relative to the largest of the slice.

use crate::ladder::{ascending, lemma_listing_exists, PriceLadder, PriceLevel};
use vstd::prelude::*;

verus! {

/// The relative size of the largest level of a slice: one hundred, in
/// fixed-point units.
pub const FULL_COLOR: u64 = 10_000_000_000;

/// A price and a quantity, both in fixed-point units.
#[derive(Clone, Copy, Debug, PartialEq, Eq, Structural)]
pub struct PqPair(pub u64, pub u64);

/// One level as it is shown: price `p` and quantity `q`, the range of update
/// identifiers passed through, and the colour range from `min_color` to
/// `max_color`, all but the identifiers in fixed-point units.
#[derive(Clone, Copy, Debug, PartialEq, Eq, Structural)]
pub struct PqData {
    pub p: u64,
    pub q: u64,
    pub min_seq_id: u64,
    pub max_seq_id: u64,
    pub min_color: u64,
    pub max_color: u64,
}

/// The smallest colour above zero: one fixed-point unit.
pub const FAINTEST_COLOR: u64 = 1;

/// The size of `quantity` on a scale on which `max` is one hundred; one
/// hundred where there is no `max` or it is zero. The size is rounded down
/// to a fixed-point number, but not to zero: a quantity that is not zero
/// has at least the faintest colour.
pub open spec fn relative_size(quantity: u64, max: Option<u64>) -> int {
    match max {
        Some(m) => if m != 0 {
            let share = FULL_COLOR * quantity / (m as int);
            if share == 0 && quantity != 0 {
                FAINTEST_COLOR as int
            } else {
                share
            }
        } else {
            FULL_COLOR as int
        },
        None => FULL_COLOR as int,
    }
}

/// The shown form of `pair` in a slice whose largest quantity is `max`.
pub open spec fn shown(pair: PqPair, max: Option<u64>, min_seq_id: u64, max_seq_id: u64) -> PqData {
    PqData {
        p: pair.0,
        q: pair.1,
        min_seq_id,
        max_seq_id,
        min_color: 0,
        max_color: relative_size(pair.1, max) as u64,
    }
}

/// The largest quantity of `slice`; none where the slice is empty.
pub open spec fn max_quantity(slice: Seq<(u64, PriceLevel)>) -> Option<u64>
    decreases slice.len(),
{
    if slice.len() == 0 {
        None
    } else {
        let last = slice.last().1.quantity;
        match max_quantity(slice.drop_last()) {
            Some(m) => if m >= last {
                Some(m)
            } else {
                Some(last)
            },
            None => Some(last),
        }
    }
}

/// The `depth` best levels of a side, best first, or all where there are
/// fewer: for bids the highest prices, falling; for asks the lowest, rising.
pub open spec fn best_levels(levels: Map<u64, PriceLevel>, is_bid: bool, depth: nat) -> Seq<
    (u64, PriceLevel),
> {
    let all = ascending(levels);
    let n = if depth < all.len() {
        depth
    } else {
        all.len()
    };
    if is_bid {
        Seq::new(n, |i: int| all[all.len() - 1 - i])
    } else {
        all.take(n as int)
    }
}

/// The shown form of each level of `slice`, sized against its largest.
pub open spec fn shown_slice(slice: Seq<(u64, PriceLevel)>) -> Seq<PqData> {
    Seq::new(
        slice.len(),
        |i: int|
            shown(
                PqPair(slice[i].0, slice[i].1.quantity),
                max_quantity(slice),
                slice[i].1.min_update_id,
                slice[i].1.max_update_id,
            ),
    )
}

/// What is shown of one side at `depth`.
pub open spec fn depth_view(levels: Map<u64, PriceLevel>, is_bid: bool, depth: nat) -> Seq<
    PqData,
> {
    shown_slice(best_levels(levels, is_bid, depth))
}

/// No quantity of a slice exceeds its largest.
pub proof fn lemma_max_quantity_bounds(slice: Seq<(u64, PriceLevel)>, i: int)
    requires
        0 <= i < slice.len(),
    ensures
        max_quantity(slice) is Some,
        slice[i].1.quantity <= max_quantity(slice)->0,
    decreases slice.len(),
{
    if i < slice.len() - 1 {
        lemma_max_quantity_bounds(slice.drop_last(), i);
    }
}

/// Rounding down keeps the order of quantities and the bounds of the scale.
proof fn lemma_share(smaller: u64, larger: u64, largest: u64)
    requires
        smaller <= larger <= largest,
        largest > 0,
    ensures
        0 <= FULL_COLOR * smaller / (largest as int) <= FULL_COLOR * larger / (largest as int)
            <= FULL_COLOR,
        FULL_COLOR * largest / (largest as int) == FULL_COLOR,
{
    assert(0 <= FULL_COLOR * smaller / (largest as int) <= FULL_COLOR * larger / (largest as int)
        <= FULL_COLOR * largest / (largest as int)) by (nonlinear_arith)
        requires
            0 <= smaller <= larger <= largest,
            largest > 0,
    ;
    assert(FULL_COLOR * largest / (largest as int) == FULL_COLOR) by (nonlinear_arith)
        requires
            largest > 0,
    ;
}

/// Colours run from zero to no more than one hundred. A level of a size
/// that is not zero has a colour that is not zero, and a level as large as
/// the largest of its slice is shown at one hundred.
pub proof fn lemma_colors(slice: Seq<(u64, PriceLevel)>, i: int)
    requires
        0 <= i < slice.len(),
    ensures
        shown_slice(slice)[i].min_color == 0,
        shown_slice(slice)[i].max_color <= FULL_COLOR,
        shown_slice(slice)[i].max_color == relative_size(slice[i].1.quantity, max_quantity(slice)),
        slice[i].1.quantity > 0 ==> shown_slice(slice)[i].max_color > 0,
        max_quantity(slice) == Some(slice[i].1.quantity) ==> shown_slice(slice)[i].max_color
            == FULL_COLOR,
{
    lemma_max_quantity_bounds(slice, i);
    let quantity = slice[i].1.quantity;
    let largest = max_quantity(slice)->0;
    if largest != 0 {
        lemma_share(quantity, quantity, largest);
    }
}

/// Within one slice a larger quantity never has a smaller colour.
pub proof fn lemma_colors_ranked(slice: Seq<(u64, PriceLevel)>, i: int, j: int)
    requires
        0 <= i < slice.len(),
        0 <= j < slice.len(),
        slice[i].1.quantity <= slice[j].1.quantity,
    ensures
        shown_slice(slice)[i].max_color <= shown_slice(slice)[j].max_color,
{
    lemma_colors(slice, i);
    lemma_colors(slice, j);
    lemma_max_quantity_bounds(slice, j);
    let largest = max_quantity(slice)->0;
    if largest != 0 {
        lemma_share(slice[i].1.quantity, slice[j].1.quantity, largest);
    }
}

/// In every slice that is not empty some level is the largest, and is
/// shown at one hundred.
pub proof fn lemma_largest_is_full(slice: Seq<(u64, PriceLevel)>) -> (at: int)
    requires
        slice.len() > 0,
    ensures
        0 <= at < slice.len(),
        max_quantity(slice) == Some(slice[at].1.quantity),
        shown_slice(slice)[at].max_color == FULL_COLOR,
    decreases slice.len(),
{
    let at = if slice.len() == 1 {
        0
    } else {
        let before = lemma_largest_is_full(slice.drop_last());
        if max_quantity(slice.drop_last())->0 >= slice.last().1.quantity {
            before
        } else {
            slice.len() - 1
        }
    };
    lemma_colors(slice, at);
    at
}

/// Whether `price` is among the prices of `slice`.
pub open spec fn lists_price(slice: Seq<(u64, PriceLevel)>, price: u64) -> bool {
    exists|i: int| 0 <= i < slice.len() && #[trigger] slice[i].0 == price
}

/// The best levels of a side are levels of that side, as many as were
/// asked for or as there are, bids by falling and asks by rising price,
/// and every level at least as good as one that was taken is taken.
pub proof fn lemma_best_levels(levels: Map<u64, PriceLevel>, is_bid: bool, depth: nat)
    requires
        levels.dom().finite(),
    ensures
        best_levels(levels, is_bid, depth).len() == if depth < levels.len() {
            depth
        } else {
            levels.len()
        },
        forall|i: int|
            0 <= i < best_levels(levels, is_bid, depth).len() ==> levels.contains_key(
                #[trigger] best_levels(levels, is_bid, depth)[i].0,
            ) && levels[best_levels(levels, is_bid, depth)[i].0] == best_levels(
                levels,
                is_bid,
                depth,
            )[i].1,
        forall|i: int, j: int|
            0 <= i < j < best_levels(levels, is_bid, depth).len() ==> if is_bid {
                best_levels(levels, is_bid, depth)[i].0 > best_levels(levels, is_bid, depth)[j].0
            } else {
                best_levels(levels, is_bid, depth)[i].0 < best_levels(levels, is_bid, depth)[j].0
            },
        forall|price: u64, i: int|
            #![trigger levels.contains_key(price), best_levels(levels, is_bid, depth)[i]]
            levels.contains_key(price) && 0 <= i < best_levels(levels, is_bid, depth).len() && (
            if is_bid {
                price >= best_levels(levels, is_bid, depth)[i].0
            } else {
                price <= best_levels(levels, is_bid, depth)[i].0
            }) ==> lists_price(best_levels(levels, is_bid, depth), price),
{
    lemma_listing_exists(levels);
    let listing = ascending(levels);
    let best = best_levels(levels, is_bid, depth);
    assert forall|price: u64, i: int|
        #![trigger levels.contains_key(price), best[i]]
        levels.contains_key(price) && 0 <= i < best.len() && (if is_bid {
            price >= best[i].0
        } else {
            price <= best[i].0
        }) implies lists_price(best, price) by {
        let at = choose|at: int| 0 <= at < listing.len() && #[trigger] listing[at].0 == price;
        if is_bid {
            assert(best[listing.len() - 1 - at].0 == price);
        } else {
            assert(best[at].0 == price);
        }
    }
}

impl PqPair {
    /// The shown form of this pair in a slice whose largest quantity is
    /// `max_value`: the colour runs from zero to the relative size of the
    /// quantity, which is one hundred where there is no largest quantity
    /// or it is zero.
    pub fn to_pqdata(&self, max_value: Option<u64>, min_seq_id: u64, max_seq_id: u64) -> (data:
        PqData)
        requires
            max_value matches Some(m) ==> m == 0 || self.1 <= m,
        ensures
            data == shown(*self, max_value, min_seq_id, max_seq_id),
            data.min_color == 0,
            data.max_color <= FULL_COLOR,
            self.1 > 0 ==> data.max_color > 0,
            max_value is None || max_value == Some(0u64) || max_value == Some(self.1)
                ==> data.max_color == FULL_COLOR,
    {
        let max_color = match max_value {
            Some(m) => if m != 0 {
                proof {
                    lemma_share(self.1, self.1, m);
                }
                let scaled: u128 = (FULL_COLOR as u128) * (self.1 as u128);
                let share = (scaled / (m as u128)) as u64;
                if share == 0 && self.1 != 0 {
                    FAINTEST_COLOR
                } else {
                    share
                }
            } else {
                FULL_COLOR
            },
            None => FULL_COLOR,
        };
        PqData { p: self.0, q: self.1, min_seq_id, max_seq_id, min_color: 0, max_color }
    }
}

/// The largest quantity among `slice`, computed.
pub fn largest_quantity(slice: &Vec<(u64, PriceLevel)>) -> (largest: Option<u64>)
    ensures
        largest == max_quantity(slice@),
{
    let mut largest: Option<u64> = None;
    let mut i: usize = 0;
    while i < slice.len()
        invariant
            i <= slice.len(),
            largest == max_quantity(slice@.take(i as int)),
        decreases slice.len() - i,
    {
        let quantity = slice[i].1.quantity;
        proof {
            assert(slice@.take(i + 1).drop_last() =~= slice@.take(i as int));
        }
        largest =
        match largest {
            Some(m) => if m >= quantity {
                Some(m)
            } else {
                Some(quantity)
            },
            None => Some(quantity),
        };
        i += 1;
    }
    proof {
        assert(slice@.take(i as int) =~= slice@);
    }
    largest
}

/// What is shown of `ladder` at depth `amount`: its best levels, best first.
pub fn get_bbo(ladder: &PriceLadder, is_bid: bool, amount: usize) -> (views: Vec<PqData>)
    ensures
        views@ == depth_view(ladder@, is_bid, amount as nat),
        forall|i: int|
            0 <= i < views.len() ==> (#[trigger] views[i]).min_color == 0 && views[i].max_color
                <= FULL_COLOR && (views[i].q > 0 ==> views[i].max_color > 0),
{
    let all = ladder.entries();
    let n = if amount < all.len() {
        amount
    } else {
        all.len()
    };
    let ghost wanted = best_levels(ladder@, is_bid, amount as nat);
    let mut best: Vec<(u64, PriceLevel)> = Vec::new();
    let mut i: usize = 0;
    while i < n
        invariant
            i <= n <= all.len(),
            all@ == ascending(ladder@),
            wanted == best_levels(ladder@, is_bid, amount as nat),
            wanted.len() == n,
            best@ == wanted.take(i as int),
        decreases n - i,
    {
        let entry = if is_bid {
            all[all.len() - 1 - i]
        } else {
            all[i]
        };
        best.push(entry);
        i += 1;
    }
    proof {
        assert(best@ =~= wanted);
    }
    let largest = largest_quantity(&best);
    let mut views: Vec<PqData> = Vec::new();
    let mut j: usize = 0;
    while j < best.len()
        invariant
            j <= best.len(),
            largest == max_quantity(best@),
            views@ == shown_slice(best@).take(j as int),
        decreases best.len() - j,
    {
        let (price, level) = best[j];
        proof {
            lemma_max_quantity_bounds(best@, j as int);
        }
        let data = PqPair(price, level.quantity).to_pqdata(
            largest,
            level.min_update_id,
            level.max_update_id,
        );
        views.push(data);
        j += 1;
    }
    proof {
        assert forall|i: int| 0 <= i < views.len() implies (#[trigger] views[i]).min_color == 0
            && views[i].max_color <= FULL_COLOR && (views[i].q > 0 ==> views[i].max_color
            > 0) by {
            lemma_colors(best@, i);
        }
    }
    views
}

} // verus!
