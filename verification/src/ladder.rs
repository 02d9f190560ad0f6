//! Price ladders: one side of a book as an ordered map from price to the
//! size resting there.

use std::collections::BTreeMap;
use vstd::prelude::*;
use vstd::std_specs::btree::{group_btree_axioms, increasing_seq, spec_btree_map_iter};
use vstd::std_specs::cmp::OrdSpec;
use vstd::std_specs::iter::IteratorSpec;

verus! {

/// The size resting at one price, with the inclusive range of update
/// identifiers that produced it.
#[derive(Clone, Copy, Debug, PartialEq, Eq, Structural)]
pub struct PriceLevel {
    pub quantity: u64,
    pub min_update_id: u64,
    pub max_update_id: u64,
}

/// The prices that a purge retains, relative to a reference price.
#[derive(Clone, Copy, Debug, PartialEq, Eq, Structural)]
pub enum Keep {
    AtMost(u64),
    Above(u64),
    Below(u64),
    AtLeast(u64),
}

impl Keep {
    pub open spec fn admits(self, price: u64) -> bool {
        match self {
            Keep::AtMost(p) => price <= p,
            Keep::Above(p) => price > p,
            Keep::Below(p) => price < p,
            Keep::AtLeast(p) => price >= p,
        }
    }

    /// The set of all prices that `self` retains.
    pub open spec fn prices(self) -> Set<u64> {
        Set::new(|price: u64| self.admits(price))
    }

    pub fn keeps(self, price: u64) -> (kept: bool)
        ensures
            kept == self.admits(price),
    {
        match self {
            Keep::AtMost(p) => price <= p,
            Keep::Above(p) => price > p,
            Keep::Below(p) => price < p,
            Keep::AtLeast(p) => price >= p,
        }
    }
}

/// No price of `levels` holds a level of size zero: such a level is absent.
pub open spec fn no_empty_level(levels: Map<u64, PriceLevel>) -> bool {
    forall|price: u64| #[trigger] levels.contains_key(price) ==> levels[price].quantity != 0
}

/// `listing` holds exactly the entries of `levels`, by strictly rising price.
pub open spec fn lists_ascending(
    levels: Map<u64, PriceLevel>,
    listing: Seq<(u64, PriceLevel)>,
) -> bool {
    &&& forall|i: int, j: int| 0 <= i < j < listing.len() ==> listing[i].0 < listing[j].0
    &&& forall|i: int|
        0 <= i < listing.len() ==> levels.contains_key(#[trigger] listing[i].0)
            && levels[listing[i].0] == listing[i].1
    &&& forall|price: u64|
        levels.contains_key(price) ==> exists|i: int|
            0 <= i < listing.len() && #[trigger] listing[i].0 == price
}

/// The entries of `levels` by rising price.
pub open spec fn ascending(levels: Map<u64, PriceLevel>) -> Seq<(u64, PriceLevel)> {
    choose|listing: Seq<(u64, PriceLevel)>| lists_ascending(levels, listing)
}

/// A map has at most one ascending listing.
pub proof fn lemma_listing_unique(
    levels: Map<u64, PriceLevel>,
    a: Seq<(u64, PriceLevel)>,
    b: Seq<(u64, PriceLevel)>,
)
    requires
        lists_ascending(levels, a),
        lists_ascending(levels, b),
    ensures
        a == b,
    decreases a.len(),
{
    if a.len() == 0 {
        if b.len() > 0 {
            assert(levels.contains_key(b[0].0));
        }
        assert(a =~= b);
    } else {
        let top = a.last();
        assert(levels.contains_key(a[a.len() - 1].0));
        let at = choose|i: int| 0 <= i < b.len() && #[trigger] b[i].0 == top.0;
        if at != b.len() - 1 {
            let above = b[b.len() - 1].0;
            assert(levels.contains_key(above));
            let back = choose|i: int| 0 <= i < a.len() && #[trigger] a[i].0 == above;
        }
        assert(b.last() == top);
        let rest = levels.remove(top.0);
        assert(lists_ascending(rest, a.drop_last())) by {
            assert forall|price: u64| rest.contains_key(price) implies exists|i: int|
                0 <= i < a.drop_last().len() && #[trigger] a.drop_last()[i].0 == price by {
                let i = choose|i: int| 0 <= i < a.len() && #[trigger] a[i].0 == price;
                assert(a.drop_last()[i].0 == price);
            }
        }
        assert(lists_ascending(rest, b.drop_last())) by {
            assert forall|price: u64| rest.contains_key(price) implies exists|i: int|
                0 <= i < b.drop_last().len() && #[trigger] b.drop_last()[i].0 == price by {
                let i = choose|i: int| 0 <= i < b.len() && #[trigger] b[i].0 == price;
                assert(b.drop_last()[i].0 == price);
            }
        }
        lemma_listing_unique(rest, a.drop_last(), b.drop_last());
        assert(a =~= a.drop_last().push(top));
        assert(b =~= b.drop_last().push(top));
    }
}

/// Where `price` belongs in a rising listing that does not hold it: after
/// every lower price and before every higher one.
proof fn lemma_place(listing: Seq<(u64, PriceLevel)>, price: u64) -> (at: int)
    requires
        forall|i: int, j: int| 0 <= i < j < listing.len() ==> listing[i].0 < listing[j].0,
        forall|i: int| 0 <= i < listing.len() ==> (#[trigger] listing[i]).0 != price,
    ensures
        0 <= at <= listing.len(),
        forall|i: int| 0 <= i < at ==> (#[trigger] listing[i]).0 < price,
        forall|i: int| at <= i < listing.len() ==> (#[trigger] listing[i]).0 > price,
    decreases listing.len(),
{
    if listing.len() == 0 {
        0
    } else if listing.last().0 < price {
        listing.len() as int
    } else {
        let rest = listing.drop_last();
        let at = lemma_place(rest, price);
        assert forall|i: int| at <= i < listing.len() implies (#[trigger] listing[i]).0
            > price by {
            if i < listing.len() - 1 {
                assert(rest[i] == listing[i]);
            }
        }
        assert forall|i: int| 0 <= i < at implies (#[trigger] listing[i]).0 < price by {
            assert(rest[i] == listing[i]);
        }
        at
    }
}

/// Every finite map has an ascending listing, and `ascending` is it.
pub proof fn lemma_listing_exists(levels: Map<u64, PriceLevel>)
    requires
        levels.dom().finite(),
    ensures
        lists_ascending(levels, ascending(levels)),
        ascending(levels).len() == levels.len(),
    decreases levels.dom().len(),
{
    if levels.dom().len() == 0 {
        assert(lists_ascending(levels, Seq::<(u64, PriceLevel)>::empty()));
        lemma_listing_unique(levels, Seq::<(u64, PriceLevel)>::empty(), ascending(levels));
    } else {
        let price = levels.dom().choose();
        let rest = levels.remove(price);
        lemma_listing_exists(rest);
        let lower = ascending(rest);
        let at = lemma_place(lower, price);
        let listing = lower.insert(at, (price, levels[price]));
        assert forall|other: u64| levels.contains_key(other) implies exists|i: int|
            0 <= i < listing.len() && #[trigger] listing[i].0 == other by {
            if other == price {
                assert(listing[at].0 == other);
            } else {
                assert(rest.contains_key(other));
                let i = choose|i: int| 0 <= i < lower.len() && #[trigger] lower[i].0 == other;
                if i < at {
                    assert(listing[i].0 == other);
                } else {
                    assert(listing[i + 1].0 == other);
                }
            }
        }
        lemma_listing_unique(levels, listing, ascending(levels));
    }
}

/// What the map's own iteration order promises, over plain integers.
proof fn lemma_increasing_prices(prices: Seq<u64>)
    requires
        increasing_seq(prices),
    ensures
        forall|i: int, j: int| 0 <= i < j < prices.len() ==> prices[i] < prices[j],
{
    broadcast use group_btree_axioms;

    assert forall|i: int, j: int| 0 <= i < j < prices.len() implies prices[i] < prices[j] by {
        assert(prices[i].cmp_spec(&prices[j]) is Less);
    }
}

/// One side of a book: the resting levels, keyed and ordered by price.
#[derive(Clone, Debug)]
pub struct PriceLadder {
    levels: BTreeMap<u64, PriceLevel>,
}

impl View for PriceLadder {
    type V = Map<u64, PriceLevel>;

    closed spec fn view(&self) -> Map<u64, PriceLevel> {
        self.levels@
    }
}

impl PriceLadder {
    /// A ladder stores no level of size zero.
    pub open spec fn wf(&self) -> bool {
        no_empty_level(self@)
    }

    pub fn new() -> (ladder: Self)
        ensures
            ladder@ == Map::<u64, PriceLevel>::empty(),
            ladder.wf(),
    {
        PriceLadder { levels: BTreeMap::new() }
    }

    /// The number of levels.
    pub fn len(&self) -> (n: usize)
        ensures
            n == self@.len(),
            self@.dom().finite(),
    {
        broadcast use group_btree_axioms;

        self.levels.len()
    }

    /// The level resting at `price`, if there is one.
    pub fn get(&self, price: u64) -> (level: Option<PriceLevel>)
        ensures
            level == if self@.contains_key(price) {
                Some(self@[price])
            } else {
                None
            },
    {
        broadcast use group_btree_axioms;

        match self.levels.get(&price) {
            Some(found) => Some(*found),
            None => None,
        }
    }

    /// Stores `level` at `price`, over whatever rested there; a level of
    /// size zero is not stored, and takes away what rested there.
    pub fn update(&mut self, price: u64, level: PriceLevel)
        ensures
            final(self)@ == if level.quantity == 0 {
                old(self)@.remove(price)
            } else {
                old(self)@.insert(price, level)
            },
            old(self).wf() ==> final(self).wf(),
    {
        broadcast use group_btree_axioms;

        if level.quantity == 0 {
            self.levels.remove(&price);
        } else {
            self.levels.insert(price, level);
        }
    }

    /// Takes the level at `price` away; an absent price is left absent.
    pub fn remove(&mut self, price: u64)
        ensures
            final(self)@ == old(self)@.remove(price),
            old(self).wf() ==> final(self).wf(),
    {
        broadcast use group_btree_axioms;

        self.levels.remove(&price);
    }

    /// All levels, by rising price.
    pub fn entries(&self) -> (listing: Vec<(u64, PriceLevel)>)
        ensures
            listing@ == ascending(self@),
            lists_ascending(self@, listing@),
            listing@.len() == self@.len(),
    {
        broadcast use group_btree_axioms;

        let mut listing: Vec<(u64, PriceLevel)> = Vec::new();
        let ghost walk = spec_btree_map_iter(&self.levels).remaining();
        for entry in it: self.levels.iter()
            invariant
                it.seq() == walk,
                listing@.len() == it.index(),
                forall|i: int|
                    0 <= i < listing.len() ==> listing[i].0 == *walk[i].0 && listing[i].1
                        == *walk[i].1,
        {
            listing.push((*entry.0, *entry.1));
        }
        proof {
            let prices = walk.map_values(|e: (&u64, &PriceLevel)| *e.0);
            lemma_increasing_prices(prices);
            assert forall|i: int, j: int| 0 <= i < j < listing.len() implies listing[i].0
                < listing[j].0 by {
                assert(prices[i] == listing[i].0);
                assert(prices[j] == listing[j].0);
            }
            assert forall|i: int| 0 <= i < listing.len() implies self@.contains_key(
                #[trigger] listing[i].0,
            ) && self@[listing[i].0] == listing[i].1 by {
                assert(self.levels@.contains_key(*walk[i].0));
            }
            assert forall|price: u64| self@.contains_key(price) implies exists|i: int|
                0 <= i < listing.len() && #[trigger] listing[i].0 == price by {
                assert(walk.contains((&price, &self.levels@[price])));
                let i = choose|i: int|
                    0 <= i < walk.len() && walk[i] == (&price, &self.levels@[price]);
                assert(listing[i].0 == price);
            }
            assert(lists_ascending(self@, listing@));
            lemma_listing_unique(self@, listing@, ascending(self@));
        }
        listing
    }

    /// Drops every level whose price `keep` does not admit.
    pub fn retain(&mut self, keep: Keep)
        ensures
            final(self)@ == old(self)@.restrict(keep.prices()),
            old(self).wf() ==> final(self).wf(),
    {
        let listing = self.entries();
        let ghost before = self@;
        let mut i: usize = 0;
        while i < listing.len()
            invariant
                i <= listing.len(),
                lists_ascending(before, listing@),
                forall|price: u64| #[trigger]
                    self@.contains_key(price) ==> before.contains_key(price) && self@[price]
                        == before[price],
                forall|j: int|
                    0 <= j < listing.len() ==> (self@.contains_key(#[trigger] listing[j].0) <==> (j
                        >= i || keep.admits(listing[j].0))),
            decreases listing.len() - i,
        {
            let price = listing[i].0;
            if !keep.keeps(price) {
                self.remove(price);
            }
            i += 1;
        }
        proof {
            let kept = before.restrict(keep.prices());
            assert forall|price: u64| kept.contains_key(price) implies self@.contains_key(
                price,
            ) by {
                let j = choose|j: int| 0 <= j < listing.len() && #[trigger] listing[j].0 == price;
                assert(self@.contains_key(listing[j].0));
            }
            assert forall|price: u64| self@.contains_key(price) implies kept.contains_key(
                price,
            ) by {
                let j = choose|j: int| 0 <= j < listing.len() && #[trigger] listing[j].0 == price;
                assert(keep.admits(listing[j].0));
            }
            assert(self@ =~= kept);
        }
    }
}

} // verus!
