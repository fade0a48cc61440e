//! One side of an order book: the resting volume at each price, kept in
//! ascending order of price.

use crate::sums::{
    lemma_sum_insert, lemma_sum_nonnegative, lemma_sum_remove, lemma_sum_update, weighted_sum,
};
use crate::types::{Price, Volume};
use vstd::prelude::*;

verus! {

/// The volume that rests at one price.
#[derive(Debug, Clone, Copy, PartialEq, Eq, Structural)]
pub struct PriceLevel {
    pub price: Price,
    pub volume: Volume,
}

impl Default for PriceLevel {
    fn default() -> (r: PriceLevel)
        ensures
            r == (PriceLevel { price: Price(0), volume: Volume(0) }),
    {
        PriceLevel { price: Price(0), volume: Volume(0) }
    }
}

/// The weight that counts a level's volume.
pub open spec fn level_volume() -> spec_fn(PriceLevel) -> int {
    |level: PriceLevel| level.volume.0 as int
}

/// The weight that counts a level's volume where its price is `price`.
pub open spec fn level_volume_at(price: Price) -> spec_fn(PriceLevel) -> int {
    |level: PriceLevel|
        if level.price == price {
            level.volume.0 as int
        } else {
            0
        }
}

/// The volume of all levels together.
pub open spec fn total_volume(levels: Seq<PriceLevel>) -> int {
    weighted_sum(levels, level_volume())
}

/// The volume that rests at `price`: zero where no level has that price.
pub open spec fn volume_at(levels: Seq<PriceLevel>, price: Price) -> int {
    weighted_sum(levels, level_volume_at(price))
}

/// Prices rise strictly from each level to the next.
pub open spec fn ascending(levels: Seq<PriceLevel>) -> bool {
    forall|i: int, j: int| 0 <= i < j < levels.len() ==> levels[i].price.0 < levels[j].price.0
}

/// Every level holds some volume.
pub open spec fn no_empty_level(levels: Seq<PriceLevel>) -> bool {
    forall|i: int| 0 <= i < levels.len() ==> levels[i].volume.0 > 0
}

/// Where no level has the price, no volume rests at it.
pub proof fn lemma_volume_at_absent(levels: Seq<PriceLevel>, price: Price)
    requires
        forall|i: int| 0 <= i < levels.len() ==> levels[i].price != price,
    ensures
        volume_at(levels, price) == 0,
    decreases levels.len(),
{
    if levels.len() > 0 {
        lemma_volume_at_absent(levels.drop_last(), price);
    }
}

/// In an ascending ladder the volume at a level's price is that level's volume.
pub proof fn lemma_volume_at_level(levels: Seq<PriceLevel>, i: int)
    requires
        ascending(levels),
        0 <= i < levels.len(),
    ensures
        volume_at(levels, levels[i].price) == levels[i].volume.0,
    decreases levels.len(),
{
    if i == levels.len() - 1 {
        lemma_volume_at_absent(levels.drop_last(), levels[i].price);
    } else {
        lemma_volume_at_level(levels.drop_last(), i);
    }
}

/// An ascending ladder has at most one level for each of the 65536 prices.
pub proof fn lemma_ascending_length(levels: Seq<PriceLevel>)
    requires
        ascending(levels),
    ensures
        levels.len() <= 65536,
        forall|i: int| 0 <= i < levels.len() ==> i <= (#[trigger] levels[i]).price.0,
    decreases levels.len(),
{
    if levels.len() > 0 {
        lemma_ascending_length(levels.drop_last());
        let n = levels.len() - 1;
        if n > 0 {
            assert(levels.drop_last()[n - 1] == levels[n - 1]);
            assert(levels[n - 1].price.0 < levels[n].price.0);
        }
        assert forall|i: int| 0 <= i < levels.len() implies i <= (#[trigger] levels[i]).price.0 by {
            if i < n {
                assert(levels.drop_last()[i] == levels[i]);
            }
        }
    }
}

/// A well-formed ladder is known by the volume that rests at each price: two
/// ladders that hold the same volume at every price have the same levels.
pub proof fn lemma_ladder_known_by_volumes(first: Seq<PriceLevel>, second: Seq<PriceLevel>)
    requires
        ascending(first),
        no_empty_level(first),
        ascending(second),
        no_empty_level(second),
        forall|price: Price| volume_at(first, price) == volume_at(second, price),
    ensures
        first == second,
    decreases first.len(),
{
    if first.len() == 0 {
        if second.len() > 0 {
            lemma_volume_at_level(second, 0);
            lemma_volume_at_absent(first, second[0].price);
        }
        assert(first =~= second);
    } else if second.len() == 0 {
        lemma_volume_at_level(first, 0);
        lemma_volume_at_absent(second, first[0].price);
    } else {
        let top = first.last();
        let other = second.last();
        lemma_volume_at_level(first, first.len() - 1);
        lemma_volume_at_level(second, second.len() - 1);
        if top.price.0 < other.price.0 {
            lemma_volume_at_absent(first, other.price);
        } else if other.price.0 < top.price.0 {
            lemma_volume_at_absent(second, top.price);
        }
        assert(top == other);
        assert forall|price: Price|
            volume_at(first.drop_last(), price) == volume_at(second.drop_last(), price) by {
            assert(volume_at(first, price) == volume_at(second, price));
        }
        lemma_ladder_known_by_volumes(first.drop_last(), second.drop_last());
        assert(first =~= first.drop_last().push(top));
        assert(second =~= second.drop_last().push(other));
    }
}

/// One side of an order book.
#[derive(Debug, PartialEq, Eq)]
pub struct Ladder {
    levels: Vec<PriceLevel>,
}

impl View for Ladder {
    type V = Seq<PriceLevel>;

    closed spec fn view(&self) -> Seq<PriceLevel> {
        self.levels@
    }
}

impl Clone for Ladder {
    fn clone(&self) -> (r: Ladder)
        ensures
            r@ == self@,
    {
        let mut levels: Vec<PriceLevel> = Vec::new();
        let mut i: usize = 0;
        while i < self.levels.len()
            invariant
                i <= self.levels.len(),
                levels@ == self.levels@.take(i as int),
            decreases self.levels.len() - i,
        {
            levels.push(self.levels[i]);
            assert(self.levels@.take(i + 1) =~= self.levels@.take(i as int).push(
                self.levels@[i as int],
            ));
            i += 1;
        }
        assert(self.levels@.take(i as int) =~= self.levels@);
        Ladder { levels }
    }
}

impl Ladder {
    /// The levels ascend in price and none is empty.
    pub open spec fn wf(&self) -> bool {
        ascending(self@) && no_empty_level(self@)
    }

    /// Whether the levels ascend in price and none is empty.
    pub fn is_wf(&self) -> (r: bool)
        ensures
            r == self.wf(),
    {
        let mut i: usize = 0;
        while i < self.levels.len()
            invariant
                i <= self.levels@.len(),
                forall|j: int| 0 <= j < i ==> self@[j].volume.0 > 0,
                forall|j: int, k: int| 0 <= j < k < i ==> self@[j].price.0 < self@[k].price.0,
            decreases self.levels@.len() - i,
        {
            if self.levels[i].volume.0 == 0 {
                return false;
            }
            if i > 0 && self.levels[i - 1].price.0 >= self.levels[i].price.0 {
                return false;
            }
            proof {
                assert forall|j: int, k: int| 0 <= j < k < i + 1 implies self@[j].price.0
                    < self@[k].price.0 by {
                    if k == i && j < i - 1 {
                        assert(self@[j].price.0 < self@[i - 1].price.0);
                    }
                }
            }
            i += 1;
        }
        true
    }

    /// A ladder without levels.
    pub fn new() -> (r: Ladder)
        ensures
            r@.len() == 0,
            r.wf(),
    {
        Ladder { levels: Vec::new() }
    }

    /// Number of levels.
    pub fn len(&self) -> (r: usize)
        ensures
            r == self@.len(),
    {
        self.levels.len()
    }

    /// Whether the ladder has no level.
    pub fn is_empty(&self) -> (r: bool)
        ensures
            r == (self@.len() == 0),
    {
        self.levels.len() == 0
    }

    /// The level at place `i`, counted from the lowest price.
    pub fn level(&self, i: usize) -> (r: PriceLevel)
        requires
            i < self@.len(),
        ensures
            r == self@[i as int],
    {
        self.levels[i]
    }

    /// The level with the lowest price.
    pub fn lowest(&self) -> (r: Option<PriceLevel>)
        ensures
            self@.len() == 0 ==> r.is_none(),
            self@.len() > 0 ==> r == Some(self@.first()),
    {
        if self.levels.len() == 0 {
            None
        } else {
            Some(self.levels[0])
        }
    }

    /// The level with the highest price.
    pub fn highest(&self) -> (r: Option<PriceLevel>)
        ensures
            self@.len() == 0 ==> r.is_none(),
            self@.len() > 0 ==> r == Some(self@.last()),
    {
        if self.levels.len() == 0 {
            None
        } else {
            Some(self.levels[self.levels.len() - 1])
        }
    }

    /// The place of the first level whose price is not below `price`.
    fn position(&self, price: Price) -> (i: usize)
        requires
            self.wf(),
        ensures
            i <= self@.len(),
            forall|j: int| 0 <= j < i ==> self@[j].price.0 < price.0,
            forall|j: int| i <= j < self@.len() ==> self@[j].price.0 >= price.0,
    {
        let mut low: usize = 0;
        let mut high: usize = self.levels.len();
        while low < high
            invariant
                low <= high <= self@.len(),
                self.wf(),
                forall|j: int| 0 <= j < low ==> self@[j].price.0 < price.0,
                forall|j: int| high <= j < self@.len() ==> self@[j].price.0 >= price.0,
            decreases high - low,
        {
            let mid: usize = low + (high - low) / 2;
            if self.levels[mid].price.0 < price.0 {
                low = mid + 1;
            } else {
                high = mid;
            }
        }
        low
    }

    /// The volume that rests at `price`.
    pub fn volume_at(&self, price: Price) -> (r: Volume)
        requires
            self.wf(),
        ensures
            r.0 == volume_at(self@, price),
    {
        let i: usize = self.position(price);
        if i < self.levels.len() && self.levels[i].price.0 == price.0 {
            proof {
                lemma_volume_at_level(self@, i as int);
            }
            self.levels[i].volume
        } else {
            proof {
                lemma_volume_at_absent(self@, price);
            }
            Volume(0)
        }
    }

    /// Rests `volume` more at `price`, opening the level where there is none.
    /// Nothing is added, and `false` returned, where `volume` is zero or the level
    /// would hold more than the largest volume.
    pub fn add(&mut self, price: Price, volume: Volume) -> (added: bool)
        requires
            old(self).wf(),
        ensures
            final(self).wf(),
            added == (volume.0 > 0 && volume_at(old(self)@, price) + volume.0 <= u16::MAX),
            added ==> forall|p: Price| #[trigger]
                volume_at(final(self)@, p) == volume_at(old(self)@, p) + if p == price {
                    volume.0 as int
                } else {
                    0
                },
            !added ==> *final(self) == *old(self),
    {
        if volume.0 == 0 {
            return false;
        }
        let i: usize = self.position(price);
        if i < self.levels.len() && self.levels[i].price.0 == price.0 {
            let resting: Volume = self.levels[i].volume;
            proof {
                lemma_volume_at_level(self@, i as int);
            }
            if resting.0 > u16::MAX - volume.0 {
                return false;
            }
            let level = PriceLevel { price, volume: Volume(resting.0 + volume.0) };
            proof {
                assert forall|p: Price| #[trigger]
                    volume_at(self@.update(i as int, level), p) == volume_at(self@, p) + if p
                        == price {
                        volume.0 as int
                    } else {
                        0
                    } by {
                    lemma_sum_update(self@, level_volume_at(p), i as int, level);
                }
            }
            self.levels.set(i, level);
            true
        } else {
            let level = PriceLevel { price, volume };
            proof {
                lemma_volume_at_absent(self@, price);
                assert forall|p: Price| #[trigger]
                    volume_at(self@.insert(i as int, level), p) == volume_at(self@, p) + if p
                        == price {
                        volume.0 as int
                    } else {
                        0
                    } by {
                    lemma_sum_insert(self@, level_volume_at(p), i as int, level);
                }
            }
            self.levels.insert(i, level);
            true
        }
    }

    /// Takes `volume` from the level at `price`, closing the level when nothing is
    /// left. Nothing is taken, and `false` returned, where less than `volume` rests
    /// at `price`.
    pub fn take(&mut self, price: Price, volume: Volume) -> (taken: bool)
        requires
            old(self).wf(),
        ensures
            final(self).wf(),
            taken == (volume_at(old(self)@, price) >= volume.0),
            taken ==> forall|p: Price| #[trigger]
                volume_at(final(self)@, p) == volume_at(old(self)@, p) - if p == price {
                    volume.0 as int
                } else {
                    0
                },
            !taken ==> *final(self) == *old(self),
    {
        if volume.0 == 0 {
            proof {
                lemma_sum_nonnegative(self@, level_volume_at(price));
            }
            return true;
        }
        let i: usize = self.position(price);
        if i < self.levels.len() && self.levels[i].price.0 == price.0 {
            let resting: Volume = self.levels[i].volume;
            proof {
                lemma_volume_at_level(self@, i as int);
            }
            if resting.0 < volume.0 {
                return false;
            }
            if resting.0 == volume.0 {
                proof {
                    assert forall|p: Price| #[trigger]
                        volume_at(self@.remove(i as int), p) == volume_at(self@, p) - if p
                            == price {
                            volume.0 as int
                        } else {
                            0
                        } by {
                        lemma_sum_remove(self@, level_volume_at(p), i as int);
                    }
                }
                self.levels.remove(i);
            } else {
                let level = PriceLevel { price, volume: Volume(resting.0 - volume.0) };
                proof {
                    assert forall|p: Price| #[trigger]
                        volume_at(self@.update(i as int, level), p) == volume_at(self@, p) - if p
                            == price {
                            volume.0 as int
                        } else {
                            0
                        } by {
                        lemma_sum_update(self@, level_volume_at(p), i as int, level);
                    }
                }
                self.levels.set(i, level);
            }
            true
        } else {
            proof {
                lemma_volume_at_absent(self@, price);
            }
            false
        }
    }
}

} // verus!
