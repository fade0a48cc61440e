//! Checks of the invariants at run time, for books that were put together by hand
//! or have come from elsewhere.

use crate::autotrader::{distinct_books, AutoTrader};
use crate::book::{
    distinct_ids, order_volume_at, own_order_volume, own_volume, resting_at, Book, RestingOrder,
};
use crate::ladder::{lemma_volume_at_absent, lemma_volume_at_level, volume_at, PriceLevel};
use crate::sums::{
    lemma_sum_bounds_item, lemma_sum_nonnegative, lemma_sum_of_nothing, lemma_sum_prefix_grows,
    weighted_sum,
};
use crate::types::{Price, Side, Username, Volume};
use vstd::prelude::*;

verus! {

/// The sum of a weight over the orders, where every weight is a volume or
/// nothing and the sum is no more than the largest volume; else `None`.
spec fn capped(orders: Seq<RestingOrder>, weight: spec_fn(RestingOrder) -> int) -> Option<u16> {
    if weighted_sum(orders, weight) <= u16::MAX {
        Some(weighted_sum(orders, weight) as u16)
    } else {
        None
    }
}

impl Book {
    /// The volume of the orders that rest on `side` at `price`, or belong to
    /// `owner` where one is given; `None` where it is more than the largest
    /// volume.
    fn resting_volume(&self, side: Side, price: Option<Price>, owner: Option<&Username>) -> (r:
        Option<u16>)
        requires
            price.is_some() != owner.is_some(),
        ensures
            r == capped(
                self.orders@,
                match price {
                    Some(price) => order_volume_at(side, price),
                    None => own_order_volume(side, owner.unwrap()@),
                },
            ),
    {
        let ghost weight = match price {
            Some(price) => order_volume_at(side, price),
            None => own_order_volume(side, owner.unwrap()@),
        };
        let mut sum: u32 = 0;
        let mut i: usize = 0;
        proof {
            assert forall|x: RestingOrder| #[trigger] weight(x) >= 0 by {}
        }
        while i < self.orders.len()
            invariant
                i <= self.orders@.len(),
                price.is_some() != owner.is_some(),
                weight == match price {
                    Some(price) => order_volume_at(side, price),
                    None => own_order_volume(side, owner.unwrap()@),
                },
                forall|x: RestingOrder| #[trigger] weight(x) >= 0,
                sum == weighted_sum(self.orders@.take(i as int), weight),
                sum <= u16::MAX,
            decreases self.orders@.len() - i,
        {
            let order = &self.orders[i].order;
            let counts: bool = order.side == side && match price {
                Some(price) => order.price.0 == price.0,
                None => match owner {
                    Some(owner) => order.owner.is(owner),
                    None => false,
                },
            };
            proof {
                assert(self.orders@.take(i + 1).drop_last() =~= self.orders@.take(i as int));
                assert(self.orders@.take(i + 1).last() == self.orders@[i as int]);
            }
            if counts {
                sum = sum + order.volume.0 as u32;
                if sum > u16::MAX as u32 {
                    proof {
                        lemma_sum_prefix_grows(
                            self.orders@,
                            weight,
                            i + 1,
                            self.orders@.len() as int,
                        );
                        assert(self.orders@.take(self.orders@.len() as int) =~= self.orders@);
                    }
                    return None;
                }
            }
            i += 1;
        }
        proof {
            assert(self.orders@.take(i as int) =~= self.orders@);
        }
        Some(sum as u16)
    }

    /// Whether no two orders share an identifier and no order is empty.
    fn has_sound_orders(&self) -> (r: bool)
        ensures
            r == (distinct_ids(self.orders@) && forall|i: int|
                0 <= i < self.orders@.len() ==> self.orders@[i].order.volume.0 > 0),
    {
        let mut i: usize = 0;
        while i < self.orders.len()
            invariant
                i <= self.orders@.len(),
                forall|k: int| 0 <= k < i ==> self.orders@[k].order.volume.0 > 0,
                forall|j: int, k: int| 0 <= j < k < i ==> self.orders@[j].id@ != self.orders@[k].id@,
            decreases self.orders@.len() - i,
        {
            if self.orders[i].order.volume.0 == 0 {
                return false;
            }
            let mut j: usize = 0;
            while j < i
                invariant
                    j <= i < self.orders@.len(),
                    forall|k: int| 0 <= k < j ==> self.orders@[k].id@ != self.orders@[i as int].id@,
                decreases i - j,
            {
                if self.orders[j].id == self.orders[i].id {
                    return false;
                }
                j += 1;
            }
            i += 1;
        }
        true
    }

    /// Whether the ladder of `side` holds at every price the volume of the orders
    /// that rest there.
    fn ladder_mirrors_orders(&self, side: Side) -> (r: bool)
        requires
            self.ladders_wf(),
            forall|i: int| 0 <= i < self.orders@.len() ==> self.orders@[i].order.volume.0 > 0,
        ensures
            r == (forall|price: Price|
                volume_at(self.levels(side), price) == #[trigger] resting_at(
                    self.orders@,
                    side,
                    price,
                )),
    {
        let ladder = match side {
            Side::Buy => &self.bids,
            Side::Sell => &self.asks,
        };
        let ghost levels = self.levels(side);
        let mut i: usize = 0;
        while i < ladder.len()
            invariant
                i <= levels.len(),
                ladder.wf(),
                ladder@ == levels,
                levels == self.levels(side),
                forall|j: int|
                    0 <= j < i ==> (#[trigger] levels[j]).volume.0 == resting_at(
                        self.orders@,
                        side,
                        levels[j].price,
                    ),
            decreases levels.len() - i,
        {
            let level: PriceLevel = ladder.level(i);
            let resting: Option<u16> = self.resting_volume(side, Some(level.price), None);
            let same: bool = match resting {
                Some(volume) => volume == level.volume.0,
                None => false,
            };
            proof {
                let weight = order_volume_at(side, level.price);
                assert(resting == capped(self.orders@, weight));
                assert forall|x: RestingOrder| #[trigger] weight(x) >= 0 by {}
                lemma_sum_nonnegative(self.orders@, weight);
                assert(same == (level.volume.0 == resting_at(self.orders@, side, level.price)));
            }
            if !same {
                proof {
                    lemma_volume_at_level(levels, i as int);
                    assert(volume_at(self.levels(side), level.price) != resting_at(
                        self.orders@,
                        side,
                        level.price,
                    ));
                }
                return false;
            }
            i += 1;
        }
        let mut k: usize = 0;
        while k < self.orders.len()
            invariant
                k <= self.orders@.len(),
                ladder.wf(),
                ladder@ == levels,
                levels == self.levels(side),
                forall|i: int| 0 <= i < self.orders@.len() ==> self.orders@[i].order.volume.0 > 0,
                forall|j: int|
                    0 <= j < levels.len() ==> (#[trigger] levels[j]).volume.0 == resting_at(
                        self.orders@,
                        side,
                        levels[j].price,
                    ),
                forall|j: int|
                    0 <= j < k && self.orders@[j].order.side == side ==> volume_at(
                        levels,
                        (#[trigger] self.orders@[j]).order.price,
                    ) > 0,
            decreases self.orders@.len() - k,
        {
            let order = &self.orders[k].order;
            if order.side == side && ladder.volume_at(order.price).0 == 0 {
                proof {
                    let weight = order_volume_at(side, order.price);
                    assert forall|x: RestingOrder| #[trigger] weight(x) >= 0 by {}
                    lemma_sum_bounds_item(self.orders@, weight, k as int);
                    assert(volume_at(self.levels(side), order.price) != resting_at(
                        self.orders@,
                        side,
                        order.price,
                    ));
                }
                return false;
            }
            k += 1;
        }
        proof {
            assert forall|price: Price|
                volume_at(self.levels(side), price) == #[trigger] resting_at(
                    self.orders@,
                    side,
                    price,
                ) by {
                if exists|j: int| 0 <= j < levels.len() && levels[j].price == price {
                    let j = choose|j: int| 0 <= j < levels.len() && levels[j].price == price;
                    lemma_volume_at_level(levels, j);
                } else {
                    lemma_volume_at_absent(levels, price);
                    assert forall|j: int| 0 <= j < self.orders@.len() implies order_volume_at(
                        side,
                        price,
                    )(#[trigger] self.orders@[j]) == 0 by {
                        if self.orders@[j].order.side == side && self.orders@[j].order.price
                            == price {
                            assert(volume_at(levels, self.orders@[j].order.price) > 0);
                        }
                    }
                    lemma_sum_of_nothing(self.orders@, order_volume_at(side, price));
                }
            }
        }
        true
    }

    /// Whether the recorded exposure of `side` is the volume of the orders of
    /// `username` that rest on it.
    fn exposure_matches(&self, side: Side, username: &Username) -> (r: bool)
        ensures
            r == (self.exposure(side) == own_volume(self.orders@, side, username@)),
    {
        let exposure: Volume = match side {
            Side::Buy => self.position.bid_exposure,
            Side::Sell => self.position.ask_exposure,
        };
        let resting: Option<u16> = self.resting_volume(side, None, Some(username));
        proof {
            let weight = own_order_volume(side, username@);
            assert(resting == capped(self.orders@, weight));
            assert forall|x: RestingOrder| #[trigger] weight(x) >= 0 by {}
            lemma_sum_nonnegative(self.orders@, weight);
        }
        match resting {
            Some(volume) => volume == exposure.0,
            None => false,
        }
    }

    /// Whether the book is well-formed and records the exposure of `username`:
    /// what `wf` and `exposure_of` say, found out by looking.
    pub fn is_consistent(&self, username: &Username) -> (r: bool)
        ensures
            r == (self.wf() && self.exposure_of(username@)),
    {
        if !self.bids.is_wf() || !self.asks.is_wf() || !self.has_sound_orders() {
            return false;
        }
        let buys: bool = self.ladder_mirrors_orders(Side::Buy);
        let sells: bool = self.ladder_mirrors_orders(Side::Sell);
        if !buys || !sells {
            return false;
        }
        proof {
            assert forall|side: Side, price: Price|
                volume_at(self.levels(side), price) == #[trigger] resting_at(
                    self.orders@,
                    side,
                    price,
                ) by {
                if side == Side::Buy {
                } else {
                    assert(side == Side::Sell);
                }
            }
        }
        let bought: bool = self.exposure_matches(Side::Buy, username);
        let sold: bool = self.exposure_matches(Side::Sell, username);
        proof {
            if bought && sold {
                assert forall|side: Side| #[trigger]
                    self.exposure(side) == own_volume(self.orders@, side, username@) by {
                    if side == Side::Buy {
                    } else {
                        assert(side == Side::Sell);
                    }
                }
            } else if !bought {
                assert(self.exposure(Side::Buy) != own_volume(self.orders@, Side::Buy, username@));
            } else {
                assert(self.exposure(Side::Sell) != own_volume(
                    self.orders@,
                    Side::Sell,
                    username@,
                ));
            }
        }
        bought && sold
    }
}

impl AutoTrader {
    /// Whether the replica is well-formed: what `wf` says, found out by looking.
    pub fn is_consistent(&self) -> (r: bool)
        ensures
            r == self.wf(),
    {
        let mut i: usize = 0;
        while i < self.books.len()
            invariant
                i <= self.books@.len(),
                forall|k: int|
                    0 <= k < i ==> (#[trigger] self.books@[k]).wf() && self.books@[k].exposure_of(
                        self.username@,
                    ),
                forall|j: int, k: int|
                    0 <= j < k < i ==> self.books@[j].product@ != self.books@[k].product@,
            decreases self.books@.len() - i,
        {
            if !self.books[i].is_consistent(&self.username) {
                return false;
            }
            let mut j: usize = 0;
            while j < i
                invariant
                    j <= i < self.books@.len(),
                    forall|k: int|
                        0 <= k < j ==> self.books@[k].product@ != self.books@[i as int].product@,
                decreases i - j,
            {
                if self.books[j].product == self.books[i].product {
                    return false;
                }
                j += 1;
            }
            i += 1;
        }
        true
    }
}

} // verus!
