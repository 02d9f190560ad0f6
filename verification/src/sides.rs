//! A book view: a bid ladder and an ask ladder, the rule by which one level
//! update changes them, and what that rule guarantees.

use crate::ladder::{no_empty_level, Keep, PriceLadder, PriceLevel};
use vstd::prelude::*;

verus! {

/// One update of one price level.
#[derive(Clone, Copy, Debug, PartialEq, Eq, Structural)]
pub struct LevelUpdate {
    pub is_bid: bool,
    pub price: u64,
    pub quantity: u64,
    pub min_update_id: u64,
    pub max_update_id: u64,
    /// Set by authoritative top-of-book events only.
    pub uncross: bool,
}

impl LevelUpdate {
    /// The level that a non-zero update stores.
    pub open spec fn level(self) -> PriceLevel {
        PriceLevel {
            quantity: self.quantity,
            min_update_id: self.min_update_id,
            max_update_id: self.max_update_id,
        }
    }
}

/// The two ladders of a book view, as maps from price to level.
pub struct Sides {
    pub bids: Map<u64, PriceLevel>,
    pub asks: Map<u64, PriceLevel>,
}

/// The view with no level on either side.
pub open spec fn empty_sides() -> Sides {
    Sides { bids: Map::empty(), asks: Map::empty() }
}

/// The view after `update`.
///
/// A zero quantity removes the price from its side and touches nothing else.
/// Any other quantity stores the level; with `uncross` it then purges what
/// would cross the new price: a bid at `p` leaves bids at or below `p` and
/// asks above `p`, an ask at `p` leaves asks at or above `p` and bids below.
pub open spec fn apply_level(sides: Sides, update: LevelUpdate) -> Sides {
    if update.quantity == 0 {
        if update.is_bid {
            Sides { bids: sides.bids.remove(update.price), asks: sides.asks }
        } else {
            Sides { bids: sides.bids, asks: sides.asks.remove(update.price) }
        }
    } else if update.is_bid {
        let bids = sides.bids.insert(update.price, update.level());
        if update.uncross {
            Sides {
                bids: bids.restrict(Keep::AtMost(update.price).prices()),
                asks: sides.asks.restrict(Keep::Above(update.price).prices()),
            }
        } else {
            Sides { bids, asks: sides.asks }
        }
    } else {
        let asks = sides.asks.insert(update.price, update.level());
        if update.uncross {
            Sides {
                bids: sides.bids.restrict(Keep::Below(update.price).prices()),
                asks: asks.restrict(Keep::AtLeast(update.price).prices()),
            }
        } else {
            Sides { bids: sides.bids, asks }
        }
    }
}

/// The view after each of `updates` in turn.
pub open spec fn apply_levels(sides: Sides, updates: Seq<LevelUpdate>) -> Sides
    decreases updates.len(),
{
    if updates.len() == 0 {
        sides
    } else {
        apply_level(apply_levels(sides, updates.drop_last()), updates.last())
    }
}

/// Every bid lies strictly below every ask.
pub open spec fn uncrossed(sides: Sides) -> bool {
    forall|bid: u64, ask: u64|
        #[trigger] sides.bids.contains_key(bid) && #[trigger] sides.asks.contains_key(ask) ==> bid
            < ask
}

/// Neither side stores a level of size zero.
pub open spec fn no_empty_levels(sides: Sides) -> bool {
    no_empty_level(sides.bids) && no_empty_level(sides.asks)
}

/// Removing a price that its side does not hold changes nothing.
pub proof fn lemma_remove_absent(sides: Sides, update: LevelUpdate)
    requires
        update.quantity == 0,
        update.is_bid ==> !sides.bids.contains_key(update.price),
        !update.is_bid ==> !sides.asks.contains_key(update.price),
    ensures
        apply_level(sides, update) == sides,
{
    if update.is_bid {
        assert(sides.bids.remove(update.price) =~= sides.bids);
    } else {
        assert(sides.asks.remove(update.price) =~= sides.asks);
    }
}

/// An uncrossing update that stores a level leaves the view uncrossed,
/// whatever it was before, and the stored level is still there.
pub proof fn lemma_uncross_clears(sides: Sides, update: LevelUpdate)
    requires
        update.uncross,
        update.quantity != 0,
    ensures
        uncrossed(apply_level(sides, update)),
        update.is_bid ==> apply_level(sides, update).bids.contains_key(update.price)
            && apply_level(sides, update).bids[update.price] == update.level(),
        !update.is_bid ==> apply_level(sides, update).asks.contains_key(update.price)
            && apply_level(sides, update).asks[update.price] == update.level(),
{
}

/// An update that removes, or that uncrosses, keeps an uncrossed view
/// uncrossed.
pub proof fn lemma_uncrossed_kept(sides: Sides, update: LevelUpdate)
    requires
        uncrossed(sides),
        update.uncross || update.quantity == 0,
    ensures
        uncrossed(apply_level(sides, update)),
{
    if update.quantity != 0 {
        lemma_uncross_clears(sides, update);
    }
}

/// Through any run of uncrossing updates that starts from an uncrossed view,
/// the empty one for instance, the view is uncrossed after every update.
pub proof fn lemma_uncrossed_throughout(sides: Sides, updates: Seq<LevelUpdate>, done: int)
    requires
        uncrossed(sides),
        forall|i: int| 0 <= i < updates.len() ==> (#[trigger] updates[i]).uncross,
        0 <= done <= updates.len(),
    ensures
        uncrossed(apply_levels(sides, updates.take(done))),
    decreases done,
{
    if done > 0 {
        let upto = updates.take(done);
        lemma_uncrossed_throughout(sides, updates, done - 1);
        assert(upto.drop_last() =~= updates.take(done - 1));
        lemma_uncrossed_kept(apply_levels(sides, upto.drop_last()), upto.last());
    }
}

/// No update stores a level of size zero.
pub proof fn lemma_no_empty_levels_kept(sides: Sides, update: LevelUpdate)
    requires
        no_empty_levels(sides),
    ensures
        no_empty_levels(apply_level(sides, update)),
{
}

/// The bid ladder and the ask ladder of one book view.
#[derive(Clone, Debug)]
pub struct SidePair {
    pub bids: PriceLadder,
    pub asks: PriceLadder,
}

impl View for SidePair {
    type V = Sides;

    open spec fn view(&self) -> Sides {
        Sides { bids: self.bids@, asks: self.asks@ }
    }
}

impl SidePair {
    pub open spec fn wf(&self) -> bool {
        no_empty_levels(self@)
    }

    pub fn new() -> (pair: Self)
        ensures
            pair@ == empty_sides(),
            pair.wf(),
    {
        SidePair { bids: PriceLadder::new(), asks: PriceLadder::new() }
    }

    /// Applies one level update to this view.
    pub fn apply_level(
        &mut self,
        is_bid: bool,
        price: u64,
        quantity: u64,
        min_update_id: u64,
        max_update_id: u64,
        uncross: bool,
    )
        ensures
            final(self)@ == apply_level(
                old(self)@,
                (LevelUpdate { is_bid, price, quantity, min_update_id, max_update_id, uncross }),
            ),
            old(self).wf() ==> final(self).wf(),
            uncross && quantity != 0 ==> uncrossed(final(self)@),
            uncrossed(old(self)@) && (uncross || quantity == 0) ==> uncrossed(final(self)@),
    {
        let ghost update = LevelUpdate {
            is_bid,
            price,
            quantity,
            min_update_id,
            max_update_id,
            uncross,
        };
        proof {
            if old(self).wf() {
                lemma_no_empty_levels_kept(old(self)@, update);
            }
            if uncross && quantity != 0 {
                lemma_uncross_clears(old(self)@, update);
            }
            if uncrossed(old(self)@) && (uncross || quantity == 0) {
                lemma_uncrossed_kept(old(self)@, update);
            }
        }
        let level = PriceLevel { quantity, min_update_id, max_update_id };
        if is_bid {
            self.bids.update(price, level);
            if quantity != 0 && uncross {
                self.bids.retain(Keep::AtMost(price));
                self.asks.retain(Keep::Above(price));
            }
        } else {
            self.asks.update(price, level);
            if quantity != 0 && uncross {
                self.bids.retain(Keep::Below(price));
                self.asks.retain(Keep::AtLeast(price));
            }
        }
    }
}

} // verus!
