//! The replica of one product's order book: both ladders, the resting orders they
//! are made of, and the trader's own position in the product.

use crate::feed::{AddedMessage, DeletedMessage, TradeMessage, TradeType};
use crate::ladder::{
    ascending, lemma_volume_at_level, level_volume, level_volume_at, no_empty_level,
    total_volume, volume_at, Ladder, PriceLevel,
};
use crate::sums::{
    lemma_sum_bounds_item, lemma_sum_of_sums, lemma_sum_push, lemma_sum_remove,
    lemma_sum_same_weights, lemma_sum_update, weighted_sum,
};
use crate::types::{Price, Side, Station, Username, Volume};
use vstd::prelude::*;
use vstd::std_specs::convert::FromSpec;

verus! {

/// An order that rests in a book.
#[derive(Debug, PartialEq, Eq)]
pub struct Order {
    pub owner: Username,
    pub side: Side,
    pub price: Price,
    pub volume: Volume,
}

impl Clone for Order {
    fn clone(&self) -> (r: Order)
        ensures
            r == *self,
    {
        Order { owner: self.owner.clone(), side: self.side, price: self.price, volume: self.volume }
    }
}

/// A resting order under the identifier the exchange gave it.
#[derive(Debug, PartialEq, Eq)]
pub struct RestingOrder {
    pub id: String,
    pub order: Order,
}

impl vstd::std_specs::convert::FromSpecImpl<AddedMessage> for RestingOrder {
    open spec fn obeys_from_spec() -> bool {
        true
    }

    open spec fn from_spec(added: AddedMessage) -> RestingOrder {
        RestingOrder {
            id: added.id,
            order: Order {
                owner: added.owner,
                side: added.side,
                price: added.price,
                volume: added.resting,
            },
        }
    }
}

impl From<AddedMessage> for RestingOrder {
    /// The order that an `AddedMessage` brings to rest.
    fn from(added: AddedMessage) -> (r: RestingOrder) {
        RestingOrder {
            id: added.id,
            order: Order {
                owner: added.owner,
                side: added.side,
                price: added.price,
                volume: added.resting,
            },
        }
    }
}

/// The trader's own stake in one product.
#[derive(Debug, Clone, Copy, PartialEq, Eq, Structural)]
pub struct Position {
    /// Volume of the trader's own resting bids.
    pub bid_exposure: Volume,
    /// Volume of the trader's own resting asks.
    pub ask_exposure: Volume,
    /// Net volume traded: bought less sold.
    pub position: i16,
}

impl Default for Position {
    fn default() -> (r: Position)
        ensures
            r == (Position { bid_exposure: Volume(0), ask_exposure: Volume(0), position: 0 }),
    {
        Position { bid_exposure: Volume(0), ask_exposure: Volume(0), position: 0 }
    }
}

/// The weight that counts an order's volume where it rests on `side` at `price`.
pub open spec fn order_volume_at(side: Side, price: Price) -> spec_fn(RestingOrder) -> int {
    |entry: RestingOrder|
        if entry.order.side == side && entry.order.price == price {
            entry.order.volume.0 as int
        } else {
            0
        }
}

/// The weight that counts an order's volume where it rests on `side`.
pub open spec fn order_volume_on(side: Side) -> spec_fn(RestingOrder) -> int {
    |entry: RestingOrder|
        if entry.order.side == side {
            entry.order.volume.0 as int
        } else {
            0
        }
}

/// The weight that counts an order's volume where it rests on `side` and belongs
/// to `owner`.
pub open spec fn own_order_volume(side: Side, owner: Seq<char>) -> spec_fn(RestingOrder) -> int {
    |entry: RestingOrder|
        if entry.order.side == side && entry.order.owner@ == owner {
            entry.order.volume.0 as int
        } else {
            0
        }
}

/// The volume of the orders that rest on `side` at `price`.
pub open spec fn resting_at(orders: Seq<RestingOrder>, side: Side, price: Price) -> int {
    weighted_sum(orders, order_volume_at(side, price))
}

/// The volume of the orders that rest on `side`.
pub open spec fn resting_on(orders: Seq<RestingOrder>, side: Side) -> int {
    weighted_sum(orders, order_volume_on(side))
}

/// The volume of the orders of `owner` that rest on `side`.
pub open spec fn own_volume(orders: Seq<RestingOrder>, side: Side, owner: Seq<char>) -> int {
    weighted_sum(orders, own_order_volume(side, owner))
}

/// No two orders share an identifier.
pub open spec fn distinct_ids(orders: Seq<RestingOrder>) -> bool {
    forall|i: int, j: int| 0 <= i < j < orders.len() ==> orders[i].id@ != orders[j].id@
}

/// Whether an order with the identifier `id` rests among `orders`.
pub open spec fn has_order(orders: Seq<RestingOrder>, id: Seq<char>) -> bool {
    exists|i: int| 0 <= i < orders.len() && #[trigger] orders[i].id@ == id
}

/// The place of the order with the identifier `id` among `orders`.
pub open spec fn order_place(orders: Seq<RestingOrder>, id: Seq<char>) -> int {
    choose|i: int| 0 <= i < orders.len() && #[trigger] orders[i].id@ == id
}

/// Whether the feed is replayed from the snapshot taken at start, or followed
/// live.
#[derive(Debug, Clone, Copy, PartialEq, Eq, Structural)]
pub enum State {
    Recovery,
    Feed,
}

/// Why a book refuses a message: the message does not fit the replica, which
/// therefore no longer mirrors the exchange.
#[derive(Debug, Clone, Copy, PartialEq, Eq, Structural)]
pub enum BookError {
    /// An order was added with nothing resting.
    EmptyOrder,
    /// An order was added under an identifier that is in use.
    DuplicateOrder,
    /// A level or the trader's exposure would exceed the largest volume.
    VolumeOverflow,
    /// No order rests under the identifier.
    UnknownOrder,
    /// The order rests on the other side.
    SideMismatch,
    /// The trade was not made at the price of the passive order.
    PriceMismatch,
    /// The passive order does not keep what the trade says it keeps.
    RemainderMismatch,
    /// The trader's position would leave the range of sixteen bits.
    PositionOverflow,
}

/// Once an order is taken out, none rests under its identifier.
pub proof fn lemma_removed_order_gone(orders: Seq<RestingOrder>, i: int)
    requires
        distinct_ids(orders),
        0 <= i < orders.len(),
    ensures
        !has_order(orders.remove(i), orders[i].id@),
        distinct_ids(orders.remove(i)),
{
    let rest = orders.remove(i);
    assert forall|j: int| 0 <= j < rest.len() implies (#[trigger] rest[j]).id@ != orders[i].id@ by {
        if j < i {
            assert(rest[j] == orders[j]);
        } else {
            assert(rest[j] == orders[j + 1]);
        }
    }
}

/// A well-formed ladder has no level at a price at which no volume rests.
pub proof fn lemma_no_volume_no_level(levels: Seq<PriceLevel>, price: Price)
    requires
        ascending(levels),
        no_empty_level(levels),
        volume_at(levels, price) == 0,
    ensures
        forall|j: int| 0 <= j < levels.len() ==> (#[trigger] levels[j]).price != price,
{
    assert forall|j: int| 0 <= j < levels.len() implies (#[trigger] levels[j]).price != price by {
        if levels[j].price == price {
            lemma_volume_at_level(levels, j);
        }
    }
}

/// The order book of one product.
#[derive(Debug, PartialEq, Eq)]
pub struct Book {
    pub bids: Ladder,
    pub asks: Ladder,
    pub orders: Vec<RestingOrder>,
    pub position: Position,
    pub product: String,
    pub station_id: Station,
    pub expiry: String,
}

impl Book {
    /// The levels of one side, in ascending order of price.
    pub open spec fn levels(&self, side: Side) -> Seq<PriceLevel> {
        match side {
            Side::Buy => self.bids@,
            Side::Sell => self.asks@,
        }
    }

    /// The trader's recorded exposure on one side.
    pub open spec fn exposure(&self, side: Side) -> int {
        match side {
            Side::Buy => self.position.bid_exposure.0 as int,
            Side::Sell => self.position.ask_exposure.0 as int,
        }
    }

    /// Whether `other` holds the same levels, orders, position and descriptors.
    pub open spec fn same_content(&self, other: &Book) -> bool {
        &&& other.bids@ == self.bids@
        &&& other.asks@ == self.asks@
        &&& other.orders@ == self.orders@
        &&& other.position == self.position
        &&& other.product == self.product
        &&& other.station_id == self.station_id
        &&& other.expiry == self.expiry
    }

    /// Both ladders ascend in price and hold no empty level.
    pub open spec fn ladders_wf(&self) -> bool {
        self.bids.wf() && self.asks.wf()
    }

    /// The ladders are those of the resting orders: the volume at every price of
    /// either side is the volume of the orders resting there, no order is empty,
    /// and no identifier occurs twice.
    pub open spec fn wf(&self) -> bool {
        &&& self.ladders_wf()
        &&& distinct_ids(self.orders@)
        &&& forall|i: int| 0 <= i < self.orders@.len() ==> self.orders@[i].order.volume.0 > 0
        &&& forall|side: Side, price: Price|
            volume_at(self.levels(side), price) == #[trigger] resting_at(self.orders@, side, price)
    }

    /// The recorded exposure of either side is the volume of the orders of `owner`
    /// resting on that side.
    pub open spec fn exposure_of(&self, owner: Seq<char>) -> bool {
        forall|side: Side| #[trigger] self.exposure(side) == own_volume(self.orders@, side, owner)
    }

    /// An empty book for a product.
    pub fn new(product: String, station_id: Station, expiry: String) -> (r: Book)
        ensures
            r.bids@.len() == 0,
            r.asks@.len() == 0,
            r.orders@.len() == 0,
            r.position == (Position { bid_exposure: Volume(0), ask_exposure: Volume(0), position: 0 }),
            r.product == product,
            r.station_id == station_id,
            r.expiry == expiry,
            r.wf(),
            forall|owner: Seq<char>| r.exposure_of(owner),
    {
        let r = Book {
            bids: Ladder::new(),
            asks: Ladder::new(),
            orders: Vec::new(),
            position: Position { bid_exposure: Volume(0), ask_exposure: Volume(0), position: 0 },
            product,
            station_id,
            expiry,
        };
        proof {
            assert forall|side: Side, price: Price|
                volume_at(r.levels(side), price) == #[trigger] resting_at(
                    r.orders@,
                    side,
                    price,
                ) by {
                assert(r.levels(side).len() == 0);
            }
            assert forall|owner: Seq<char>| r.exposure_of(owner) by {
                assert forall|side: Side| #[trigger]
                    r.exposure(side) == own_volume(r.orders@, side, owner) by {}
            }
        }
        r
    }

    /// Why the book refuses an `AddedMessage`, if it does.
    pub open spec fn add_order_refusal(&self, added: AddedMessage, me: Seq<char>) -> Option<
        BookError,
    > {
        if added.resting.0 == 0 {
            Some(BookError::EmptyOrder)
        } else if has_order(self.orders@, added.id@) {
            Some(BookError::DuplicateOrder)
        } else if volume_at(self.levels(added.side), added.price) + added.resting.0 > u16::MAX {
            Some(BookError::VolumeOverflow)
        } else if added.owner@ == me && self.exposure(added.side) + added.resting.0 > u16::MAX {
            Some(BookError::VolumeOverflow)
        } else {
            None
        }
    }

    /// Whether `after` is this book with the volume `by` taken from, or for a
    /// negative `by` added to, the level of `side` at `price` and, where `own`,
    /// the trader's exposure on that side; the position and the descriptors kept.
    pub open spec fn moved(&self, after: &Book, side: Side, price: Price, by: int, own: bool) -> bool {
        &&& after.levels(side.opposite()) == self.levels(side.opposite())
        &&& forall|p: Price| #[trigger]
            volume_at(after.levels(side), p) == volume_at(self.levels(side), p) - if p == price {
                by
            } else {
                0
            }
        &&& after.exposure(side.opposite()) == self.exposure(side.opposite())
        &&& after.exposure(side) == self.exposure(side) - if own {
            by
        } else {
            0
        }
        &&& after.product == self.product
        &&& after.station_id == self.station_id
        &&& after.expiry == self.expiry
    }

    /// Whether `after` is this book with the order of an `AddedMessage` at rest:
    /// the order is the last of the orders, and its volume is added to its level
    /// and, where it is the trader's own, to the exposure of its side.
    pub open spec fn after_add(&self, after: &Book, added: AddedMessage, me: Seq<char>) -> bool {
        &&& after.orders@ == self.orders@.push(RestingOrder::from_spec(added))
        &&& self.moved(
            after,
            added.side,
            added.price,
            -(added.resting.0 as int),
            added.owner@ == me,
        )
        &&& after.position.position == self.position.position
    }

    /// The place of the order with the identifier `id`, if one rests in the book.
    pub fn find_order(&self, id: &String) -> (r: Option<usize>)
        ensures
            match r {
                Some(i) => i < self.orders@.len() && self.orders@[i as int].id@ == id@,
                None => !has_order(self.orders@, id@),
            },
            distinct_ids(self.orders@) && r.is_some() ==> r.unwrap() == order_place(
                self.orders@,
                id@,
            ),
    {
        let mut i: usize = 0;
        while i < self.orders.len()
            invariant
                i <= self.orders@.len(),
                forall|j: int| 0 <= j < i ==> self.orders@[j].id@ != id@,
            decreases self.orders@.len() - i,
        {
            if self.orders[i].id == *id {
                return Some(i);
            }
            i += 1;
        }
        None
    }

    /// The order that rests under the identifier `id`.
    pub fn order(&self, id: &String) -> (r: Option<&Order>)
        ensures
            match r {
                Some(order) => exists|i: int|
                    0 <= i < self.orders@.len() && (#[trigger] self.orders@[i]).id@ == id@
                        && self.orders@[i].order == *order,
                None => !has_order(self.orders@, id@),
            },
            distinct_ids(self.orders@) && r.is_some() ==> *r.unwrap() == self.orders@[order_place(
                self.orders@,
                id@,
            )].order,
    {
        match self.find_order(id) {
            Some(i) => Some(&self.orders[i].order),
            None => None,
        }
    }

    /// Brings the order of an `AddedMessage` to rest: the order is recorded under
    /// its identifier, its volume is added to the level at its price on its side,
    /// and to the exposure of that side where the order is the trader's own.
    ///
    /// The message is refused, and the book left as it was, where nothing rests,
    /// where the identifier is in use, or where the level or the exposure would
    /// exceed the largest volume.
    pub fn add_order(&mut self, added: AddedMessage, username: &Username) -> (r: Result<
        (),
        BookError,
    >)
        requires
            old(self).wf(),
            old(self).exposure_of(username@),
        ensures
            final(self).wf(),
            final(self).exposure_of(username@),
            match r {
                Ok(()) => old(self).add_order_refusal(added, username@).is_none()
                    && old(self).after_add(final(self), added, username@),
                Err(e) => old(self).add_order_refusal(added, username@) == Some(e) && *final(self)
                    == *old(self),
            },
    {
        if added.resting.0 == 0 {
            return Err(BookError::EmptyOrder);
        }
        if self.find_order(&added.id).is_some() {
            return Err(BookError::DuplicateOrder);
        }
        let side: Side = added.side;
        let price: Price = added.price;
        let resting: Volume = added.resting;
        let own: bool = added.owner.is(username);
        let entry = RestingOrder::from(added);
        let exposure: Volume = match side {
            Side::Buy => self.position.bid_exposure,
            Side::Sell => self.position.ask_exposure,
        };
        let resting_there: Volume = match side {
            Side::Buy => self.bids.volume_at(price),
            Side::Sell => self.asks.volume_at(price),
        };
        if resting_there.0 > u16::MAX - resting.0 {
            return Err(BookError::VolumeOverflow);
        }
        if own && exposure.0 > u16::MAX - resting.0 {
            return Err(BookError::VolumeOverflow);
        }
        let ghost before = *self;
        match side {
            Side::Buy => {
                self.bids.add(price, resting);
                if own {
                    self.position.bid_exposure = Volume(exposure.0 + resting.0);
                }
            },
            Side::Sell => {
                self.asks.add(price, resting);
                if own {
                    self.position.ask_exposure = Volume(exposure.0 + resting.0);
                }
            },
        }
        self.orders.push(entry);
        proof {
            assert(self.orders@ == before.orders@.push(entry));
            assert forall|s: Side, p: Price|
                volume_at(self.levels(s), p) == #[trigger] resting_at(self.orders@, s, p) by {
                lemma_sum_push(before.orders@, order_volume_at(s, p), entry);
                assert(volume_at(before.levels(s), p) == resting_at(before.orders@, s, p));
            }
            assert forall|s: Side| #[trigger]
                self.exposure(s) == own_volume(self.orders@, s, username@) by {
                lemma_sum_push(before.orders@, own_order_volume(s, username@), entry);
                assert(before.exposure(s) == own_volume(before.orders@, s, username@));
            }
        }
        Ok(())
    }

    /// The resting orders after `by` was taken from the order at place `i`: the
    /// order keeps the rest, or leaves where nothing is left of it.
    pub open spec fn filled(orders: Seq<RestingOrder>, i: int, by: int) -> Seq<RestingOrder> {
        if by == orders[i].order.volume.0 {
            orders.remove(i)
        } else {
            orders.update(
                i,
                RestingOrder {
                    id: orders[i].id,
                    order: Order {
                        owner: orders[i].order.owner,
                        side: orders[i].order.side,
                        price: orders[i].order.price,
                        volume: Volume((orders[i].order.volume.0 - by) as u16),
                    },
                },
            )
        }
    }

    /// Takes `by` from the order at place `i`, from its level and, where the order
    /// is the trader's own, from the exposure of its side.
    fn fill_order(&mut self, i: usize, by: Volume, username: &Username)
        requires
            old(self).wf(),
            old(self).exposure_of(username@),
            i < old(self).orders@.len(),
            0 < by.0 <= old(self).orders@[i as int].order.volume.0,
        ensures
            final(self).wf(),
            final(self).exposure_of(username@),
            final(self).orders@ == Book::filled(old(self).orders@, i as int, by.0 as int),
            old(self).moved(
                final(self),
                old(self).orders@[i as int].order.side,
                old(self).orders@[i as int].order.price,
                by.0 as int,
                old(self).orders@[i as int].order.owner@ == username@,
            ),
            final(self).position.position == old(self).position.position,
    {
        let ghost before = *self;
        let ghost entry = self.orders@[i as int];
        let side: Side = self.orders[i].order.side;
        let price: Price = self.orders[i].order.price;
        let volume: Volume = self.orders[i].order.volume;
        let own: bool = self.orders[i].order.owner.is(username);
        proof {
            assert(volume_at(self.levels(side), price) == resting_at(self.orders@, side, price));
            assert forall|x: RestingOrder| #[trigger] order_volume_at(side, price)(x) >= 0 by {}
            lemma_sum_bounds_item(self.orders@, order_volume_at(side, price), i as int);
            assert(self.exposure(side) == own_volume(self.orders@, side, username@));
            assert forall|x: RestingOrder| #[trigger] own_order_volume(side, username@)(x) >= 0 by {}
            lemma_sum_bounds_item(self.orders@, own_order_volume(side, username@), i as int);
        }
        match side {
            Side::Buy => {
                self.bids.take(price, by);
                if own {
                    self.position.bid_exposure = Volume(self.position.bid_exposure.0 - by.0);
                }
            },
            Side::Sell => {
                self.asks.take(price, by);
                if own {
                    self.position.ask_exposure = Volume(self.position.ask_exposure.0 - by.0);
                }
            },
        }
        if by.0 == volume.0 {
            self.orders.remove(i);
        } else {
            self.orders[i].order.volume = Volume(volume.0 - by.0);
        }
        proof {
            let after = Book::filled(before.orders@, i as int, by.0 as int);
            assert(self.orders@ =~= after);
            assert forall|s: Side, p: Price|
                volume_at(self.levels(s), p) == #[trigger] resting_at(self.orders@, s, p) by {
                assert(volume_at(before.levels(s), p) == resting_at(before.orders@, s, p));
                if by.0 == volume.0 {
                    lemma_sum_remove(before.orders@, order_volume_at(s, p), i as int);
                } else {
                    lemma_sum_update(before.orders@, order_volume_at(s, p), i as int, after[i as int]);
                }
            }
            assert forall|s: Side| #[trigger]
                self.exposure(s) == own_volume(self.orders@, s, username@) by {
                assert(before.exposure(s) == own_volume(before.orders@, s, username@));
                if by.0 == volume.0 {
                    lemma_sum_remove(before.orders@, own_order_volume(s, username@), i as int);
                } else {
                    lemma_sum_update(
                        before.orders@,
                        own_order_volume(s, username@),
                        i as int,
                        after[i as int],
                    );
                }
            }
        }
    }

    /// Why the book refuses a `DeletedMessage`, if it does.
    pub open spec fn remove_order_refusal(&self, deleted: DeletedMessage) -> Option<BookError> {
        if !has_order(self.orders@, deleted.id@) {
            Some(BookError::UnknownOrder)
        } else if self.orders@[order_place(self.orders@, deleted.id@)].order.side != deleted.side {
            Some(BookError::SideMismatch)
        } else {
            None
        }
    }

    /// Whether `after` is this book without the order of a `DeletedMessage`: the
    /// order is gone, and its volume is taken from its level and, where it is the
    /// trader's own, from the exposure of its side.
    pub open spec fn after_remove(&self, after: &Book, deleted: DeletedMessage, me: Seq<char>) -> bool {
        let i = order_place(self.orders@, deleted.id@);
        let order = self.orders@[i].order;
        &&& after.orders@ == self.orders@.remove(i)
        &&& !has_order(after.orders@, deleted.id@)
        &&& self.moved(after, order.side, order.price, order.volume.0 as int, order.owner@ == me)
        &&& after.position.position == self.position.position
    }

    /// Takes the order of a `DeletedMessage` out of the book: the order is
    /// forgotten, its volume leaves the level at its price, which closes when
    /// nothing is left there, and leaves the exposure of its side where the order
    /// is the trader's own.
    ///
    /// The message is refused, and the book left as it was, where no order rests
    /// under the identifier or where it rests on the other side.
    pub fn remove_order(&mut self, deleted: DeletedMessage, username: &Username) -> (r: Result<
        (),
        BookError,
    >)
        requires
            old(self).wf(),
            old(self).exposure_of(username@),
        ensures
            final(self).wf(),
            final(self).exposure_of(username@),
            match r {
                Ok(()) => old(self).remove_order_refusal(deleted).is_none()
                    && old(self).after_remove(final(self), deleted, username@),
                Err(e) => old(self).remove_order_refusal(deleted) == Some(e) && *final(self)
                    == *old(self),
            },
    {
        match self.find_order(&deleted.id) {
            None => Err(BookError::UnknownOrder),
            Some(i) => {
                if self.orders[i].order.side != deleted.side {
                    return Err(BookError::SideMismatch);
                }
                let volume: Volume = self.orders[i].order.volume;
                proof {
                    lemma_removed_order_gone(self.orders@, i as int);
                }
                self.fill_order(i, volume, username);
                Ok(())
            },
        }
    }

    /// By how much a trade moves the trader's position: up by the volume where the
    /// trader bought, down by it where the trader sold, and not at all where the
    /// trader did both or neither.
    pub open spec fn position_change(trade: TradeMessage, me: Seq<char>) -> int {
        (if trade.buyer@ == me {
            trade.volume.0 as int
        } else {
            0
        }) - (if trade.seller@ == me {
            trade.volume.0 as int
        } else {
            0
        })
    }

    /// Whether a trade takes volume from the ladder: only one that is seen live
    /// and was made in the book. A recovered trade is history that the recovered
    /// orders already reflect, and a broker trade is made off the book.
    pub open spec fn takes_volume(trade: TradeMessage, state: State) -> bool {
        state == State::Feed && trade.trade_type != TradeType::BrokerTrade
    }

    /// The side of the order that was hit: the one opposite the aggressor.
    pub open spec fn passive_side(trade_type: TradeType) -> Side {
        if trade_type == TradeType::BuyAggressor {
            Side::Sell
        } else {
            Side::Buy
        }
    }

    /// Records the trader's net traded volume.
    fn set_position(&mut self, position: i16, Ghost(me): Ghost<Seq<char>>)
        requires
            old(self).wf(),
            old(self).exposure_of(me),
        ensures
            final(self).wf(),
            final(self).exposure_of(me),
            final(self).position.position == position,
            final(self).position.bid_exposure == old(self).position.bid_exposure,
            final(self).position.ask_exposure == old(self).position.ask_exposure,
            final(self).bids == old(self).bids,
            final(self).asks == old(self).asks,
            final(self).orders == old(self).orders,
            final(self).product == old(self).product,
            final(self).station_id == old(self).station_id,
            final(self).expiry == old(self).expiry,
    {
        let ghost before = *self;
        self.position.position = position;
        proof {
            assert forall|side: Side, price: Price|
                volume_at(self.levels(side), price) == #[trigger] resting_at(
                    self.orders@,
                    side,
                    price,
                ) by {
                assert(volume_at(before.levels(side), price) == resting_at(
                    before.orders@,
                    side,
                    price,
                ));
            }
            assert forall|side: Side| #[trigger]
                self.exposure(side) == own_volume(self.orders@, side, me) by {
                assert(before.exposure(side) == own_volume(before.orders@, side, me));
            }
        }
    }

    /// Why the book refuses a `TradeMessage`, if it does.
    pub open spec fn trade_refusal(&self, trade: TradeMessage, me: Seq<char>, state: State) -> Option<
        BookError,
    > {
        let position = self.position.position + Book::position_change(trade, me);
        if position < i16::MIN || position > i16::MAX {
            Some(BookError::PositionOverflow)
        } else if !Book::takes_volume(trade, state) {
            None
        } else if !has_order(self.orders@, trade.passive_order@) {
            Some(BookError::UnknownOrder)
        } else {
            let order = self.orders@[order_place(self.orders@, trade.passive_order@)].order;
            if order.volume.0 != trade.volume.0 + trade.passive_order_remaining.0 {
                Some(BookError::RemainderMismatch)
            } else if order.price != trade.price {
                Some(BookError::PriceMismatch)
            } else if order.side != Book::passive_side(trade.trade_type) {
                Some(BookError::SideMismatch)
            } else {
                None
            }
        }
    }

    /// Whether `after` is this book with a trade applied: the position is moved,
    /// and where the trade takes volume, it is taken from the passive order, from
    /// its level and, where the order is the trader's own, from the exposure of
    /// its side.
    pub open spec fn after_trade(
        &self,
        after: &Book,
        trade: TradeMessage,
        me: Seq<char>,
        state: State,
    ) -> bool {
        &&& after.position.position == self.position.position + Book::position_change(trade, me)
        &&& after.product == self.product
        &&& after.station_id == self.station_id
        &&& after.expiry == self.expiry
        &&& if Book::takes_volume(trade, state) {
            let i = order_place(self.orders@, trade.passive_order@);
            let order = self.orders@[i].order;
            &&& after.orders@ == Book::filled(self.orders@, i, trade.volume.0 as int)
            &&& self.moved(
                after,
                order.side,
                order.price,
                trade.volume.0 as int,
                order.owner@ == me,
            )
        } else {
            &&& after.orders@ == self.orders@
            &&& after.bids@ == self.bids@
            &&& after.asks@ == self.asks@
            &&& after.position.bid_exposure == self.position.bid_exposure
            &&& after.position.ask_exposure == self.position.ask_exposure
        }
    }

    /// Applies a trade. The trader's position moves by the volume where the
    /// trader is buyer or seller. A trade that is seen live and was made in the
    /// book also takes its volume from the passive order, from the order's level
    /// and, where the order is the trader's own, from the exposure of its side; an
    /// order of which nothing remains leaves the book.
    ///
    /// The message is refused, and the book left as it was, where the position
    /// would leave its range or, for a trade that takes volume, where the passive
    /// order is unknown, does not keep what the message says, rests at another
    /// price or rests on the aggressor's side.
    pub fn trade(&mut self, trade: TradeMessage, username: &Username, state: State) -> (r: Result<
        (),
        BookError,
    >)
        requires
            old(self).wf(),
            old(self).exposure_of(username@),
        ensures
            final(self).wf(),
            final(self).exposure_of(username@),
            match r {
                Ok(()) => old(self).trade_refusal(trade, username@, state).is_none()
                    && old(self).after_trade(final(self), trade, username@, state),
                Err(e) => old(self).trade_refusal(trade, username@, state) == Some(e)
                    && *final(self) == *old(self),
            },
            // A wash trade leaves the position where it was.
            r.is_ok() && trade.buyer@ == username@ && trade.seller@ == username@
                ==> final(self).position.position == old(self).position.position,
            // A trade between others leaves the position where it was.
            r.is_ok() && trade.buyer@ != username@ && trade.seller@ != username@
                ==> final(self).position.position == old(self).position.position,
            // A passive order that is filled in part keeps what the trade says, at
            // the same place; its level loses the traded volume, and so holds what
            // the order keeps where no other order rests at that price.
            r.is_ok() && Book::takes_volume(trade, state) && trade.passive_order_remaining.0 > 0
                ==> {
                let i = order_place(old(self).orders@, trade.passive_order@);
                let order = old(self).orders@[i].order;
                &&& final(self).orders@.len() == old(self).orders@.len()
                &&& final(self).orders@[i].id == old(self).orders@[i].id
                &&& final(self).orders@[i].order.volume == trade.passive_order_remaining
                &&& volume_at(final(self).levels(order.side), order.price) == volume_at(
                    old(self).levels(order.side),
                    order.price,
                ) - trade.volume.0
                &&& volume_at(old(self).levels(order.side), order.price) == order.volume.0
                    ==> volume_at(final(self).levels(order.side), order.price)
                    == trade.passive_order_remaining.0
            },
            // A passive order that is filled in full leaves the book; its level
            // loses the order's volume, and closes where no other order rests at
            // that price.
            r.is_ok() && Book::takes_volume(trade, state) && trade.passive_order_remaining.0 == 0
                ==> {
                let i = order_place(old(self).orders@, trade.passive_order@);
                let order = old(self).orders@[i].order;
                &&& !has_order(final(self).orders@, trade.passive_order@)
                &&& final(self).orders@ == old(self).orders@.remove(i)
                &&& volume_at(final(self).levels(order.side), order.price) == volume_at(
                    old(self).levels(order.side),
                    order.price,
                ) - order.volume.0
                &&& volume_at(old(self).levels(order.side), order.price) == order.volume.0
                    ==> forall|j: int|
                    0 <= j < final(self).levels(order.side).len() ==> (#[trigger] final(
                        self).levels(order.side)[j]).price != order.price
            },
            // A broker trade leaves ladders and orders as they were.
            r.is_ok() && trade.trade_type == TradeType::BrokerTrade ==> {
                &&& final(self).bids@ == old(self).bids@
                &&& final(self).asks@ == old(self).asks@
                &&& final(self).orders@ == old(self).orders@
            },
    {
        let bought: i32 = if trade.buyer.is(username) {
            trade.volume.0 as i32
        } else {
            0
        };
        let sold: i32 = if trade.seller.is(username) {
            trade.volume.0 as i32
        } else {
            0
        };
        let position: i32 = self.position.position as i32 + bought - sold;
        if position < i16::MIN as i32 || position > i16::MAX as i32 {
            return Err(BookError::PositionOverflow);
        }
        let takes_volume: bool = match state {
            State::Recovery => false,
            State::Feed => match trade.trade_type {
                TradeType::BrokerTrade => false,
                _ => true,
            },
        };
        let ghost before = *self;
        if !takes_volume {
            self.set_position(position as i16, Ghost(username@));
            return Ok(());
        }
        match self.find_order(&trade.passive_order) {
            None => Err(BookError::UnknownOrder),
            Some(i) => {
                let volume: Volume = self.orders[i].order.volume;
                if volume.0 as u32 != trade.volume.0 as u32 + trade.passive_order_remaining.0 as u32 {
                    return Err(BookError::RemainderMismatch);
                }
                if self.orders[i].order.price.0 != trade.price.0 {
                    return Err(BookError::PriceMismatch);
                }
                let side: Side = match trade.trade_type {
                    TradeType::BuyAggressor => Side::Sell,
                    _ => Side::Buy,
                };
                if self.orders[i].order.side != side {
                    return Err(BookError::SideMismatch);
                }
                self.set_position(position as i16, Ghost(username@));
                if trade.volume.0 > 0 {
                    self.fill_order(i, trade.volume, username);
                } else {
                    proof {
                        assert(Book::filled(self.orders@, i as int, 0) =~= self.orders@);
                    }
                }
                proof {
                    if trade.passive_order_remaining.0 == 0 {
                        lemma_removed_order_gone(before.orders@, i as int);
                        if volume_at(before.levels(side), trade.price) == volume.0 {
                            lemma_no_volume_no_level(self.levels(side), trade.price);
                        }
                    }
                }
                Ok(())
            },
        }
    }

    /// The best bid and the best ask: the bid level of the highest price and the
    /// ask level of the lowest, each `None` where that side is empty.
    pub fn bbo(&self) -> (r: (Option<PriceLevel>, Option<PriceLevel>))
        ensures
            self.bids@.len() == 0 ==> r.0.is_none(),
            self.bids@.len() > 0 ==> r.0 == Some(self.bids@.last()),
            self.asks@.len() == 0 ==> r.1.is_none(),
            self.asks@.len() > 0 ==> r.1 == Some(self.asks@.first()),
            self.ladders_wf() ==> forall|i: int|
                0 <= i < self.bids@.len() ==> (#[trigger] self.bids@[i]).price.0
                    <= r.0.unwrap().price.0,
            self.ladders_wf() ==> forall|i: int|
                0 <= i < self.asks@.len() ==> (#[trigger] self.asks@[i]).price.0
                    >= r.1.unwrap().price.0,
    {
        (self.bids.highest(), self.asks.lowest())
    }
}

/// The weight that counts a level's volume where its price is below `bound`.
spec fn level_volume_below(bound: int) -> spec_fn(PriceLevel) -> int {
    |level: PriceLevel|
        if level.price.0 < bound {
            level.volume.0 as int
        } else {
            0
        }
}

/// The weight that counts an order's volume where it rests on `side` at a price
/// below `bound`.
spec fn order_volume_below(side: Side, bound: int) -> spec_fn(RestingOrder) -> int {
    |entry: RestingOrder|
        if entry.order.side == side && entry.order.price.0 < bound {
            entry.order.volume.0 as int
        } else {
            0
        }
}

/// The volume of the levels below `bound` is the volume at each price below it,
/// added up.
proof fn lemma_levels_below(levels: Seq<PriceLevel>, bound: int)
    requires
        0 <= bound <= 65536,
    ensures
        weighted_sum(levels, level_volume_below(bound)) == volume_of_prices(
            volumes_of_levels(levels),
            bound,
        ),
    decreases bound,
{
    if bound == 0 {
        assert forall|i: int| 0 <= i < levels.len() implies level_volume_below(0)(
            #[trigger] levels[i],
        ) == (|level: PriceLevel| 0int)(levels[i]) by {}
        lemma_sum_same_weights(levels, level_volume_below(0), |level: PriceLevel| 0int);
        lemma_sum_of_sums(
            levels,
            |level: PriceLevel| 0int,
            |level: PriceLevel| 0int,
            |level: PriceLevel| 0int,
        );
    } else {
        lemma_levels_below(levels, bound - 1);
        lemma_sum_of_sums(
            levels,
            level_volume_below(bound),
            level_volume_below(bound - 1),
            level_volume_at(Price((bound - 1) as u16)),
        );
    }
}

/// The volume of the orders on `side` below `bound` is the volume resting at each
/// price below it, added up.
proof fn lemma_orders_below(orders: Seq<RestingOrder>, side: Side, bound: int)
    requires
        0 <= bound <= 65536,
    ensures
        weighted_sum(orders, order_volume_below(side, bound)) == volume_of_prices(
            volumes_of_orders(orders, side),
            bound,
        ),
    decreases bound,
{
    if bound == 0 {
        assert forall|i: int| 0 <= i < orders.len() implies order_volume_below(side, 0)(
            #[trigger] orders[i],
        ) == (|entry: RestingOrder| 0int)(orders[i]) by {}
        lemma_sum_same_weights(orders, order_volume_below(side, 0), |entry: RestingOrder| 0int);
        lemma_sum_of_sums(
            orders,
            |entry: RestingOrder| 0int,
            |entry: RestingOrder| 0int,
            |entry: RestingOrder| 0int,
        );
    } else {
        lemma_orders_below(orders, side, bound - 1);
        lemma_sum_of_sums(
            orders,
            order_volume_below(side, bound),
            order_volume_below(side, bound - 1),
            order_volume_at(side, Price((bound - 1) as u16)),
        );
    }
}

/// The volume that rests at each price of a ladder.
spec fn volumes_of_levels(levels: Seq<PriceLevel>) -> spec_fn(Price) -> int {
    |price: Price| volume_at(levels, price)
}

/// The volume of the orders that rest on `side` at each price.
spec fn volumes_of_orders(orders: Seq<RestingOrder>, side: Side) -> spec_fn(Price) -> int {
    |price: Price| resting_at(orders, side, price)
}

/// The volume that `at` gives for each price below `bound`, added up.
spec fn volume_of_prices(at: spec_fn(Price) -> int, bound: int) -> int
    decreases bound,
{
    if bound <= 0 {
        0
    } else {
        volume_of_prices(at, bound - 1) + at(Price((bound - 1) as u16))
    }
}

/// Volumes that agree at every price add up to the same.
proof fn lemma_same_prices(first: spec_fn(Price) -> int, second: spec_fn(Price) -> int, bound: int)
    requires
        forall|price: Price| #[trigger] first(price) == second(price),
    ensures
        volume_of_prices(first, bound) == volume_of_prices(second, bound),
    decreases bound,
{
    if bound > 0 {
        lemma_same_prices(first, second, bound - 1);
    }
}

/// In a well-formed book each ladder holds as much volume in all as the orders
/// that rest on its side.
pub proof fn lemma_ladder_holds_orders(book: Book, side: Side)
    requires
        book.wf(),
    ensures
        total_volume(book.levels(side)) == resting_on(book.orders@, side),
{
    let levels = book.levels(side);
    let orders = book.orders@;
    lemma_sum_same_weights(levels, level_volume(), level_volume_below(65536));
    lemma_sum_same_weights(orders, order_volume_on(side), order_volume_below(side, 65536));
    lemma_levels_below(levels, 65536);
    lemma_orders_below(orders, side, 65536);
    let first = volumes_of_levels(levels);
    let second = volumes_of_orders(orders, side);
    assert forall|price: Price| #[trigger] first(price) == second(price) by {
        assert(volume_at(book.levels(side), price) == resting_at(book.orders@, side, price));
    }
    lemma_same_prices(first, second, 65536);
}

/// In a well-formed book no level is empty.
pub proof fn lemma_no_empty_level(book: Book, side: Side, i: int)
    requires
        book.wf(),
        0 <= i < book.levels(side).len(),
    ensures
        book.levels(side)[i].volume.0 > 0,
{
}

} // verus!
