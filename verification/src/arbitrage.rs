//! Search for index arbitrage in a bundle of four books: three underlying futures
//! and the index future whose fair value is the sum of the three.
//!
//! A basket trades the same volume in all four books, the three underlyings one
//! way and the index the other. The search walks the four ladders from their best
//! price on, unit by unit, for as long as every unit still trades at a profit.

use crate::book::Book;
use crate::ladder::{lemma_ascending_length, level_volume, total_volume, Ladder, PriceLevel};
use crate::order::{AddMessage, MessageType, OrderType};
use crate::sums::{lemma_sum_nonnegative, lemma_sum_prefix_grows};
use crate::types::{Price, Side, Volume};
use vstd::prelude::*;

verus! {

/// Which way a basket trades.
#[derive(Debug, Clone, Copy, PartialEq, Eq, Structural)]
pub enum Strategy {
    BuyIndexSellUnderlying,
    BuyUnderlyingSellIndex,
}

/// The levels that one leg of a basket trades against, best price first. Legs 0 to
/// 2 are the underlyings and leg 3 is the index. A leg that buys takes the asks
/// from the lowest up, a leg that sells takes the bids from the highest down.
pub open spec fn leg_levels(book: Book, strategy: Strategy, leg: int) -> Seq<PriceLevel> {
    if leg_side(strategy, leg) == Side::Buy {
        book.asks@
    } else {
        book.bids@.reverse()
    }
}

/// The side on which a leg trades.
pub open spec fn leg_side(strategy: Strategy, leg: int) -> Side {
    match strategy {
        Strategy::BuyUnderlyingSellIndex => if leg == 3 {
            Side::Sell
        } else {
            Side::Buy
        },
        Strategy::BuyIndexSellUnderlying => if leg == 3 {
            Side::Buy
        } else {
            Side::Sell
        },
    }
}

/// The four books of a bundle.
pub open spec fn books_of(index: &[&Book; 4]) -> Seq<Book> {
    Seq::new(4, |leg: int| *index@[leg])
}

/// The four legs of a bundle.
pub open spec fn legs_of(books: Seq<Book>, strategy: Strategy) -> Seq<Seq<PriceLevel>> {
    Seq::new(4, |leg: int| leg_levels(books[leg], strategy, leg))
}

/// The volume of the first `count` levels.
#[verifier::opaque]
pub open spec fn volume_before(levels: Seq<PriceLevel>, count: int) -> int {
    total_volume(levels.take(count))
}

/// The place of the level that holds unit number `unit`, searched from place
/// `from` on; units are counted from zero in the order of the levels.
pub open spec fn level_of_unit(levels: Seq<PriceLevel>, unit: int, from: int) -> int
    decreases levels.len() - from,
{
    if from < 0 || from >= levels.len() {
        levels.len() as int
    } else if unit < volume_before(levels, from + 1) {
        from
    } else {
        level_of_unit(levels, unit, from + 1)
    }
}

/// The price at which unit number `unit` of a leg trades.
#[verifier::opaque]
pub open spec fn unit_price(levels: Seq<PriceLevel>, unit: int) -> int {
    levels[level_of_unit(levels, unit, 0)].price.0 as int
}

/// The volume that all four legs can trade: that of the shortest ladder.
pub open spec fn available(legs: Seq<Seq<PriceLevel>>) -> int {
    let a = total_volume(legs[0]);
    let b = total_volume(legs[1]);
    let c = total_volume(legs[2]);
    let d = total_volume(legs[3]);
    let ab = if a <= b {
        a
    } else {
        b
    };
    let cd = if c <= d {
        c
    } else {
        d
    };
    if ab <= cd {
        ab
    } else {
        cd
    }
}

/// What the three underlyings cost together at unit number `unit`.
pub open spec fn theo_price(legs: Seq<Seq<PriceLevel>>, unit: int) -> int {
    unit_price(legs[0], unit) + unit_price(legs[1], unit) + unit_price(legs[2], unit)
}

/// Whether unit number `unit` trades at a profit of more than `edge`: the
/// underlyings are bought for less than the index sells for, or sold for more than
/// the index is bought for.
#[verifier::opaque]
pub open spec fn crosses(legs: Seq<Seq<PriceLevel>>, strategy: Strategy, edge: int, unit: int) -> bool {
    match strategy {
        Strategy::BuyUnderlyingSellIndex => theo_price(legs, unit) + edge < unit_price(
            legs[3],
            unit,
        ),
        Strategy::BuyIndexSellUnderlying => theo_price(legs, unit) > unit_price(legs[3], unit)
            + edge,
    }
}

/// The number of the first unit from `unit` on that cannot trade at a profit,
/// because a ladder is used up or the prices no longer cross.
pub open spec fn matched_from(
    legs: Seq<Seq<PriceLevel>>,
    strategy: Strategy,
    edge: int,
    unit: int,
) -> int
    decreases available(legs) - unit,
{
    if unit < 0 || unit >= available(legs) || !crosses(legs, strategy, edge, unit) {
        unit
    } else {
        matched_from(legs, strategy, edge, unit + 1)
    }
}

/// The volume that trades at a profit: the units from the best prices on, up to
/// the first that does not cross.
pub open spec fn matched_volume(legs: Seq<Seq<PriceLevel>>, strategy: Strategy, edge: int) -> int {
    matched_from(legs, strategy, edge, 0)
}

/// Whether `volume` uses up a whole number of levels.
#[verifier::opaque]
pub open spec fn at_level_end(levels: Seq<PriceLevel>, volume: int) -> bool {
    exists|count: int| 0 <= count <= levels.len() && #[trigger] volume_before(levels, count) == volume
}

/// Whether a basket of `volume` is sent: the volume is positive and uses up a
/// level of some underlying.
pub open spec fn basket_complete(legs: Seq<Seq<PriceLevel>>, volume: int) -> bool {
    volume > 0 && (at_level_end(legs[0], volume) || at_level_end(legs[1], volume) || at_level_end(
        legs[2],
        volume,
    ))
}

/// The volume written on the orders of a basket: the matched volume, held at the
/// largest volume an order can carry.
pub open spec fn order_volume(volume: int) -> Volume {
    if volume <= u16::MAX {
        Volume(volume as u16)
    } else {
        Volume(u16::MAX)
    }
}

/// The order of one leg of a basket of `volume`: immediate-or-cancel, at the
/// price of the leg's last unit, which is the worst price that takes part.
pub open spec fn basket_order(
    books: Seq<Book>,
    strategy: Strategy,
    volume: int,
    leg: int,
) -> AddMessage {
    AddMessage {
        message_type: MessageType::Add,
        product: books[leg].product,
        price: Price(unit_price(legs_of(books, strategy)[leg], volume - 1) as u16),
        side: leg_side(strategy, leg),
        volume: order_volume(volume),
        order_type: OrderType::Ioc,
    }
}

/// The basket that one strategy finds in a bundle: four orders, one for each book
/// in the order of the bundle, or none.
pub open spec fn basket(books: Seq<Book>, strategy: Strategy, edge: int) -> Seq<AddMessage> {
    let legs = legs_of(books, strategy);
    let volume = matched_volume(legs, strategy, edge);
    if basket_complete(legs, volume) {
        Seq::new(4, |leg: int| basket_order(books, strategy, volume, leg))
    } else {
        Seq::empty()
    }
}

/// The volume before a level and the level's own make the volume before the
/// next.
pub proof fn lemma_volume_before_next(levels: Seq<PriceLevel>, count: int)
    requires
        0 <= count < levels.len(),
    ensures
        volume_before(levels, count + 1) == volume_before(levels, count) + levels[count].volume.0,
{
    reveal(volume_before);
    assert(levels.take(count + 1).drop_last() =~= levels.take(count));
}

/// No volume comes before the first level.
pub proof fn lemma_volume_before_first(levels: Seq<PriceLevel>)
    ensures
        volume_before(levels, 0) == 0,
{
    reveal(volume_before);
    assert(levels.take(0).len() == 0);
}

/// The volume before a level grows with the level's place, and is the whole
/// volume at the end.
pub proof fn lemma_volume_before_grows(levels: Seq<PriceLevel>, fewer: int, more: int)
    requires
        0 <= fewer <= more <= levels.len(),
    ensures
        0 <= volume_before(levels, fewer) <= volume_before(levels, more) <= total_volume(levels),
        volume_before(levels, levels.len() as int) == total_volume(levels),
{
    reveal(volume_before);
    lemma_sum_prefix_grows(levels, level_volume(), fewer, more);
    lemma_sum_prefix_grows(levels, level_volume(), more, levels.len() as int);
    lemma_sum_nonnegative(levels.take(fewer), level_volume());
    assert(levels.take(levels.len() as int) =~= levels);
}

/// A unit between the volume before a level and the volume before the next is
/// held by that level.
pub proof fn lemma_unit_in_level(levels: Seq<PriceLevel>, unit: int, place: int)
    requires
        0 <= place < levels.len(),
        volume_before(levels, place) <= unit < volume_before(levels, place + 1),
    ensures
        level_of_unit(levels, unit, 0) == place,
        unit_price(levels, unit) == levels[place].price.0,
{
    reveal(unit_price);
    lemma_unit_in_level_from(levels, unit, place, 0);
}

proof fn lemma_unit_in_level_from(levels: Seq<PriceLevel>, unit: int, place: int, from: int)
    requires
        0 <= from <= place < levels.len(),
        volume_before(levels, place) <= unit < volume_before(levels, place + 1),
    ensures
        level_of_unit(levels, unit, from) == place,
    decreases place - from,
{
    if from < place {
        lemma_volume_before_grows(levels, from + 1, place);
        lemma_unit_in_level_from(levels, unit, place, from + 1);
    }
}

/// A volume strictly between the volume before a level and the volume before the
/// next uses up no whole number of levels.
pub proof fn lemma_inside_level(levels: Seq<PriceLevel>, volume: int, place: int)
    requires
        0 <= place < levels.len(),
        volume_before(levels, place) < volume < volume_before(levels, place + 1),
    ensures
        !at_level_end(levels, volume),
{
    reveal(at_level_end);
    assert forall|count: int| 0 <= count <= levels.len() implies #[trigger] volume_before(
        levels,
        count,
    ) != volume by {
        if count <= place {
            lemma_volume_before_grows(levels, count, place);
        } else {
            lemma_volume_before_grows(levels, place + 1, count);
        }
    }
}

/// The volume before a level uses up a whole number of levels.
pub proof fn lemma_level_end(levels: Seq<PriceLevel>, count: int)
    requires
        0 <= count <= levels.len(),
    ensures
        at_level_end(levels, volume_before(levels, count)),
{
    reveal(at_level_end);
}

/// Where every unit from `first` up to `last` crosses and the ladders reach that
/// far, the first unit that fails is the same counted from either.
pub proof fn lemma_matched_skips(
    legs: Seq<Seq<PriceLevel>>,
    strategy: Strategy,
    edge: int,
    first: int,
    last: int,
)
    requires
        0 <= first <= last <= available(legs),
        forall|unit: int| first <= unit < last ==> crosses(legs, strategy, edge, unit),
    ensures
        matched_from(legs, strategy, edge, first) == matched_from(legs, strategy, edge, last),
    decreases last - first,
{
    if first < last {
        lemma_matched_skips(legs, strategy, edge, first + 1, last);
    }
}

/// Every unit below the matched volume crosses, and the matched volume is within
/// what all four ladders hold.
pub proof fn lemma_matched_units_cross(
    legs: Seq<Seq<PriceLevel>>,
    strategy: Strategy,
    edge: int,
    from: int,
)
    requires
        0 <= from,
    ensures
        from <= matched_from(legs, strategy, edge, from),
        from <= available(legs) ==> matched_from(legs, strategy, edge, from) <= available(legs),
        forall|unit: int|
            from <= unit < matched_from(legs, strategy, edge, from) ==> crosses(
                legs,
                strategy,
                edge,
                unit,
            ),
    decreases available(legs) - from,
{
    if from < available(legs) && crosses(legs, strategy, edge, from) {
        lemma_matched_units_cross(legs, strategy, edge, from + 1);
    }
}

/// Every basket has exactly four orders, all of them immediate-or-cancel adds of
/// one and the same positive volume, the underlyings on one side and the index on
/// the other, at prices that cross by more than `edge`: bought underlyings cost
/// less together than the index sells for, sold underlyings bring more than the
/// index is bought for.
pub proof fn lemma_basket_crosses(books: Seq<Book>, strategy: Strategy, edge: int)
    ensures
        ({
            let orders = basket(books, strategy, edge);
            orders.len() == 0 || {
                &&& orders.len() == 4
                &&& forall|leg: int|
                    0 <= leg < 4 ==> {
                        &&& (#[trigger] orders[leg]).message_type == MessageType::Add
                        &&& orders[leg].order_type == OrderType::Ioc
                        &&& orders[leg].volume == orders[0].volume
                        &&& orders[leg].volume.0 > 0
                        &&& orders[leg].product == books[leg].product
                        &&& orders[leg].side == leg_side(strategy, leg)
                    }
                &&& strategy == Strategy::BuyUnderlyingSellIndex ==> orders[0].price.0
                    + orders[1].price.0 + orders[2].price.0 + edge < orders[3].price.0
                &&& strategy == Strategy::BuyIndexSellUnderlying ==> orders[0].price.0
                    + orders[1].price.0 + orders[2].price.0 > orders[3].price.0 + edge
            }
        }),
{
    let legs = legs_of(books, strategy);
    let volume = matched_volume(legs, strategy, edge);
    if basket_complete(legs, volume) {
        lemma_matched_units_cross(legs, strategy, edge, 0);
        assert(crosses(legs, strategy, edge, volume - 1));
        reveal(crosses);
        reveal(unit_price);
    }
}

/// A bundle with an empty ladder on any leg gives no basket.
pub proof fn lemma_empty_leg_no_basket(books: Seq<Book>, strategy: Strategy, edge: int, leg: int)
    requires
        0 <= leg < 4,
        legs_of(books, strategy)[leg].len() == 0,
    ensures
        basket(books, strategy, edge).len() == 0,
{
    let legs = legs_of(books, strategy);
    lemma_total_volume_bound(legs[0]);
    lemma_total_volume_bound(legs[1]);
    lemma_total_volume_bound(legs[2]);
    lemma_total_volume_bound(legs[3]);
    assert(available(legs) == 0);
}

/// A bundle in which some book has no bid and no ask gives no basket either way.
pub proof fn lemma_empty_book_no_arbitrage(books: Seq<Book>, edge: int, leg: int)
    requires
        0 <= leg < 4,
        books[leg].bids@.len() == 0,
        books[leg].asks@.len() == 0,
    ensures
        basket(books, Strategy::BuyUnderlyingSellIndex, edge).len() == 0,
        basket(books, Strategy::BuyIndexSellUnderlying, edge).len() == 0,
{
    lemma_empty_leg_no_basket(books, Strategy::BuyUnderlyingSellIndex, edge, leg);
    lemma_empty_leg_no_basket(books, Strategy::BuyIndexSellUnderlying, edge, leg);
}

/// No ladder holds more than the largest volume at each of its levels.
pub proof fn lemma_total_volume_bound(levels: Seq<PriceLevel>)
    ensures
        0 <= total_volume(levels) <= 65535 * levels.len(),
    decreases levels.len(),
{
    if levels.len() > 0 {
        lemma_total_volume_bound(levels.drop_last());
    }
}

/// How far the walk has come in one leg: the number of levels it has opened, and
/// what is left of the last of them.
#[derive(Clone, Copy)]
struct Cursor {
    taken: usize,
    left: PriceLevel,
}

/// The cursor stands in `levels`: what is left is part of the last opened level.
spec fn cursor_ok(levels: Seq<PriceLevel>, cursor: Cursor) -> bool {
    &&& cursor.taken <= levels.len()
    &&& cursor.taken == 0 ==> cursor.left.volume.0 == 0
    &&& cursor.taken > 0 ==> cursor.left.price == levels[cursor.taken - 1].price
        && cursor.left.volume.0 <= levels[cursor.taken - 1].volume.0
}

/// The volume that the walk has used of a leg.
spec fn consumed(levels: Seq<PriceLevel>, cursor: Cursor) -> int {
    volume_before(levels, cursor.taken as int) - cursor.left.volume.0
}

/// A bound on the steps that the walk can still take in a leg.
spec fn steps_left(levels: Seq<PriceLevel>, cursor: Cursor) -> int {
    2 * (levels.len() - cursor.taken) + if cursor.left.volume.0 > 0 {
        1int
    } else {
        0int
    }
}

proof fn lemma_cursor_bounds(levels: Seq<PriceLevel>, cursor: Cursor)
    requires
        cursor_ok(levels, cursor),
    ensures
        0 <= consumed(levels, cursor) <= volume_before(levels, cursor.taken as int)
            <= total_volume(levels),
        cursor.taken > 0 ==> volume_before(levels, cursor.taken - 1) <= consumed(levels, cursor),
{
    lemma_volume_before_grows(levels, cursor.taken as int, cursor.taken as int);
    if cursor.taken > 0 {
        lemma_volume_before_next(levels, cursor.taken - 1);
        lemma_volume_before_grows(levels, cursor.taken - 1, cursor.taken as int);
    } else {
        lemma_volume_before_first(levels);
    }
}

/// The units that are left of the opened level trade at its price.
proof fn lemma_cursor_units(levels: Seq<PriceLevel>, cursor: Cursor, unit: int)
    requires
        cursor_ok(levels, cursor),
        consumed(levels, cursor) <= unit < volume_before(levels, cursor.taken as int),
    ensures
        unit_price(levels, unit) == cursor.left.price.0,
{
    lemma_cursor_bounds(levels, cursor);
    if cursor.taken > 0 {
        lemma_unit_in_level(levels, unit, cursor.taken - 1);
    }
}

/// The ladder that a leg of the bundle trades against, and whether the leg takes
/// it from the highest price down.
fn leg_ladder<'a>(index: &[&'a Book; 4], strategy: Strategy, leg: usize) -> (r: (&'a Ladder, bool))
    requires
        leg < 4,
        forall|i: int| 0 <= i < 4 ==> (#[trigger] index@[i]).ladders_wf(),
    ensures
        r.0.wf(),
        r.0@.len() <= 65536,
        r.1 == (leg_side(strategy, leg as int) == Side::Sell),
        legs_of(books_of(index), strategy)[leg as int] == if r.1 {
            r.0@.reverse()
        } else {
            r.0@
        },
        legs_of(books_of(index), strategy)[leg as int].len() == r.0@.len(),
{
    let book: &Book = index[leg];
    assert(book == index@[leg as int]);
    let buys: bool = match strategy {
        Strategy::BuyUnderlyingSellIndex => leg != 3,
        Strategy::BuyIndexSellUnderlying => leg == 3,
    };
    if buys {
        proof {
            lemma_ascending_length(book.asks@);
        }
        (&book.asks, false)
    } else {
        proof {
            lemma_ascending_length(book.bids@);
        }
        (&book.bids, true)
    }
}

/// Opens the next level of a leg whose opened level is used up. Returns whether
/// there was one.
fn advance(
    ladder: &Ladder,
    descending: bool,
    cursor: &mut Cursor,
    Ghost(levels): Ghost<Seq<PriceLevel>>,
) -> (more: bool)
    requires
        ladder.wf(),
        levels == if descending {
            ladder@.reverse()
        } else {
            ladder@
        },
        cursor_ok(levels, *old(cursor)),
        old(cursor).left.volume.0 == 0,
    ensures
        cursor_ok(levels, *final(cursor)),
        consumed(levels, *final(cursor)) == consumed(levels, *old(cursor)),
        more == (old(cursor).taken < levels.len()),
        more ==> final(cursor).left.volume.0 > 0 && steps_left(levels, *final(cursor))
            < steps_left(levels, *old(cursor)),
        !more ==> *final(cursor) == *old(cursor),
{
    if cursor.taken < ladder.len() {
        let level: PriceLevel = if descending {
            ladder.level(ladder.len() - 1 - cursor.taken)
        } else {
            ladder.level(cursor.taken)
        };
        proof {
            lemma_volume_before_next(levels, cursor.taken as int);
        }
        cursor.left = level;
        cursor.taken = cursor.taken + 1;
        true
    } else {
        false
    }
}

/// Makes sure that a leg has an opened level with volume left. Returns `false`
/// where the ladder is used up.
fn refresh(
    ladder: &Ladder,
    descending: bool,
    cursor: &mut Cursor,
    Ghost(levels): Ghost<Seq<PriceLevel>>,
) -> (live: bool)
    requires
        ladder.wf(),
        levels == if descending {
            ladder@.reverse()
        } else {
            ladder@
        },
        cursor_ok(levels, *old(cursor)),
    ensures
        cursor_ok(levels, *final(cursor)),
        consumed(levels, *final(cursor)) == consumed(levels, *old(cursor)),
        live ==> final(cursor).left.volume.0 > 0,
        !live ==> consumed(levels, *final(cursor)) == total_volume(levels),
        steps_left(levels, *final(cursor)) <= steps_left(levels, *old(cursor)),
        old(cursor).left.volume.0 == 0 && live ==> steps_left(levels, *final(cursor)) < steps_left(
            levels,
            *old(cursor),
        ),
{
    if cursor.left.volume.0 == 0 {
        let more: bool = advance(ladder, descending, cursor, Ghost(levels));
        proof {
            if !more {
                lemma_volume_before_grows(levels, 0, 0);
            }
        }
        more
    } else {
        true
    }
}

/// Sells or buys the index against one chunk of the underlyings: `chunk` units
/// that the three underlyings trade at `theo` together. Index levels are taken for
/// as long as their price crosses `theo` by more than `min_edge`. Returns whether
/// the whole chunk was traded.
fn match_chunk(
    ladder: &Ladder,
    descending: bool,
    cursor: &mut Cursor,
    theo: u32,
    chunk: Volume,
    strategy: Strategy,
    min_edge: Price,
    index_volume: &mut u64,
    index_price: &mut Price,
    Ghost(legs): Ghost<Seq<Seq<PriceLevel>>>,
) -> (completed: bool)
    requires
        ladder.wf(),
        legs.len() == 4,
        legs[3] == if descending {
            ladder@.reverse()
        } else {
            ladder@
        },
        cursor_ok(legs[3], *old(cursor)),
        consumed(legs[3], *old(cursor)) == *old(index_volume),
        chunk.0 > 0,
        theo <= 3 * u16::MAX,
        *old(index_volume) + chunk.0 <= total_volume(legs[0]) <= u32::MAX,
        *old(index_volume) + chunk.0 <= total_volume(legs[1]),
        *old(index_volume) + chunk.0 <= total_volume(legs[2]),
        forall|unit: int|
            *old(index_volume) <= unit < *old(index_volume) + chunk.0 ==> #[trigger] theo_price(
                legs,
                unit,
            ) == theo,
        forall|unit: int|
            0 <= unit < *old(index_volume) ==> crosses(legs, strategy, min_edge.0 as int, unit),
        *old(index_volume) > 0 ==> old(index_price).0 == unit_price(
            legs[3],
            *old(index_volume) - 1,
        ),
    ensures
        cursor_ok(legs[3], *final(cursor)),
        consumed(legs[3], *final(cursor)) == *final(index_volume),
        *old(index_volume) <= *final(index_volume) <= *old(index_volume) + chunk.0,
        completed == (*final(index_volume) == *old(index_volume) + chunk.0),
        forall|unit: int|
            0 <= unit < *final(index_volume) ==> crosses(legs, strategy, min_edge.0 as int, unit),
        *final(index_volume) > 0 ==> final(index_price).0 == unit_price(
            legs[3],
            *final(index_volume) - 1,
        ),
        !completed ==> matched_volume(legs, strategy, min_edge.0 as int) == *final(index_volume),
        steps_left(legs[3], *final(cursor)) <= steps_left(legs[3], *old(cursor)),
{
    let ghost edge = min_edge.0 as int;
    let ghost start = *index_volume as int;
    let mut theo_left: u16 = chunk.0;
    loop
        invariant_except_break
            theo_left > 0,
        invariant
            ladder.wf(),
            legs.len() == 4,
            legs[3] == if descending {
                ladder@.reverse()
            } else {
                ladder@
            },
            edge == min_edge.0,
            start == *old(index_volume),
            theo <= 3 * u16::MAX,
            theo_left <= chunk.0,
            cursor_ok(legs[3], *cursor),
            consumed(legs[3], *cursor) == *index_volume,
            *index_volume + theo_left == start + chunk.0,
            start + chunk.0 <= total_volume(legs[0]) <= u32::MAX,
            start + chunk.0 <= total_volume(legs[1]),
            start + chunk.0 <= total_volume(legs[2]),
            forall|unit: int|
                start <= unit < start + chunk.0 ==> #[trigger] theo_price(legs, unit) == theo,
            forall|unit: int| 0 <= unit < *index_volume ==> crosses(legs, strategy, edge, unit),
            *index_volume > 0 ==> index_price.0 == unit_price(legs[3], *index_volume - 1),
            steps_left(legs[3], *cursor) <= steps_left(legs[3], *old(cursor)),
        ensures
            theo_left == 0 || matched_volume(legs, strategy, edge) == *index_volume,
        decreases steps_left(legs[3], *cursor),
    {
        let live: bool = refresh(ladder, descending, cursor, Ghost(legs[3]));
        if !live {
            proof {
                lemma_matched_skips(legs, strategy, edge, 0, *index_volume as int);
            }
            break ;
        }
        let crossing: bool = match strategy {
            Strategy::BuyUnderlyingSellIndex => theo + (min_edge.0 as u32)
                < cursor.left.price.0 as u32,
            Strategy::BuyIndexSellUnderlying => theo > cursor.left.price.0 as u32
                + min_edge.0 as u32,
        };
        proof {
            lemma_cursor_bounds(legs[3], *cursor);
            lemma_cursor_units(legs[3], *cursor, *index_volume as int);
            assert(theo_price(legs, *index_volume as int) == theo);
            assert(crossing == crosses(legs, strategy, edge, *index_volume as int)) by {
                reveal(crosses);
            }
        }
        if !crossing {
            proof {
                lemma_matched_skips(legs, strategy, edge, 0, *index_volume as int);
            }
            break ;
        }
        let traded: u16 = if theo_left <= cursor.left.volume.0 {
            theo_left
        } else {
            cursor.left.volume.0
        };
        let ghost before = *cursor;
        let ghost volume_then = *index_volume as int;
        proof {
            assert forall|unit: int| 0 <= unit < volume_then + traded implies crosses(
                legs,
                strategy,
                edge,
                unit,
            ) by {
                if unit >= volume_then {
                    lemma_cursor_units(legs[3], before, unit);
                    assert(theo_price(legs, unit) == theo);
                    reveal(crosses);
                }
            }
            lemma_cursor_units(legs[3], before, volume_then + traded - 1);
        }
        *index_volume = *index_volume + traded as u64;
        *index_price = cursor.left.price;
        theo_left = theo_left - traded;
        cursor.left = PriceLevel {
            price: cursor.left.price,
            volume: Volume(cursor.left.volume.0 - traded),
        };
        if theo_left == 0 {
            break ;
        }
    }
    theo_left == 0
}

/// How far the walk has come in the three underlyings.
#[derive(Clone, Copy)]
struct Underlyings {
    first: Cursor,
    second: Cursor,
    third: Cursor,
}

/// The three cursors stand in the underlying legs, each with `volume` used.
spec fn underlyings_at(legs: Seq<Seq<PriceLevel>>, cursors: Underlyings, volume: int) -> bool {
    &&& cursor_ok(legs[0], cursors.first)
    &&& cursor_ok(legs[1], cursors.second)
    &&& cursor_ok(legs[2], cursors.third)
    &&& consumed(legs[0], cursors.first) == volume
    &&& consumed(legs[1], cursors.second) == volume
    &&& consumed(legs[2], cursors.third) == volume
}

/// A bound on the steps that the walk can still take in the underlyings.
spec fn underlying_steps(legs: Seq<Seq<PriceLevel>>, cursors: Underlyings) -> int {
    steps_left(legs[0], cursors.first) + steps_left(legs[1], cursors.second) + steps_left(
        legs[2],
        cursors.third,
    )
}

/// Whether some underlying has used up its opened level.
spec fn some_used_up(cursors: Underlyings) -> bool {
    cursors.first.left.volume.0 == 0 || cursors.second.left.volume.0 == 0
        || cursors.third.left.volume.0 == 0
}

/// Whether every underlying has volume left in its opened level.
spec fn all_live(cursors: Underlyings) -> bool {
    cursors.first.left.volume.0 > 0 && cursors.second.left.volume.0 > 0
        && cursors.third.left.volume.0 > 0
}

/// The three ladders are those of the underlying legs.
spec fn underlying_ladders(
    legs: Seq<Seq<PriceLevel>>,
    ladder0: &Ladder,
    ladder1: &Ladder,
    ladder2: &Ladder,
    descending: bool,
) -> bool {
    &&& legs.len() == 4
    &&& ladder0.wf()
    &&& ladder1.wf()
    &&& ladder2.wf()
    &&& legs[0] == if descending {
        ladder0@.reverse()
    } else {
        ladder0@
    }
    &&& legs[1] == if descending {
        ladder1@.reverse()
    } else {
        ladder1@
    }
    &&& legs[2] == if descending {
        ladder2@.reverse()
    } else {
        ladder2@
    }
}

/// Makes sure that each underlying has an opened level with volume left. Returns
/// `false` where one of the ladders is used up.
fn refresh_underlyings(
    ladder0: &Ladder,
    ladder1: &Ladder,
    ladder2: &Ladder,
    descending: bool,
    cursors: &mut Underlyings,
    Ghost(legs): Ghost<Seq<Seq<PriceLevel>>>,
    Ghost(volume): Ghost<int>,
) -> (live: bool)
    requires
        underlying_ladders(legs, ladder0, ladder1, ladder2, descending),
        underlyings_at(legs, *old(cursors), volume),
    ensures
        underlyings_at(legs, *final(cursors), volume),
        live ==> all_live(*final(cursors)),
        !live ==> volume == total_volume(legs[0]) || volume == total_volume(legs[1]) || volume
            == total_volume(legs[2]),
        underlying_steps(legs, *final(cursors)) <= underlying_steps(legs, *old(cursors)),
        live && some_used_up(*old(cursors)) ==> underlying_steps(legs, *final(cursors))
            < underlying_steps(legs, *old(cursors)),
{
    let live0: bool = refresh(ladder0, descending, &mut cursors.first, Ghost(legs[0]));
    if !live0 {
        return false;
    }
    let live1: bool = refresh(ladder1, descending, &mut cursors.second, Ghost(legs[1]));
    if !live1 {
        return false;
    }
    refresh(ladder2, descending, &mut cursors.third, Ghost(legs[2]))
}

/// The volume and the price of the next chunk: as many units as every underlying
/// has left in its opened level, each trading at the prices of those levels
/// together.
fn next_chunk(
    cursors: &Underlyings,
    Ghost(legs): Ghost<Seq<Seq<PriceLevel>>>,
    Ghost(volume): Ghost<int>,
) -> (r: (Volume, u32))
    requires
        legs.len() == 4,
        underlyings_at(legs, *cursors, volume),
        all_live(*cursors),
    ensures
        r.0.0 > 0,
        r.0.0 <= cursors.first.left.volume.0,
        r.0.0 <= cursors.second.left.volume.0,
        r.0.0 <= cursors.third.left.volume.0,
        r.0 == cursors.first.left.volume || r.0 == cursors.second.left.volume || r.0
            == cursors.third.left.volume,
        r.1 <= 3 * u16::MAX,
        0 <= volume,
        volume + r.0.0 <= total_volume(legs[0]),
        volume + r.0.0 <= total_volume(legs[1]),
        volume + r.0.0 <= total_volume(legs[2]),
        forall|unit: int|
            volume <= unit < volume + r.0.0 ==> #[trigger] theo_price(legs, unit) == r.1,
{
    let chunk: Volume = cursors.first.left.volume.min(cursors.second.left.volume).min(
        cursors.third.left.volume,
    );
    let theo: u32 = cursors.first.left.price.0 as u32 + cursors.second.left.price.0 as u32
        + cursors.third.left.price.0 as u32;
    proof {
        lemma_cursor_bounds(legs[0], cursors.first);
        lemma_cursor_bounds(legs[1], cursors.second);
        lemma_cursor_bounds(legs[2], cursors.third);
        assert forall|unit: int| volume <= unit < volume + chunk.0 implies #[trigger] theo_price(
            legs,
            unit,
        ) == theo by {
            lemma_cursor_units(legs[0], cursors.first, unit);
            lemma_cursor_units(legs[1], cursors.second, unit);
            lemma_cursor_units(legs[2], cursors.third, unit);
        }
    }
    (chunk, theo)
}

/// A volume that ends inside the chunk ends inside a level of every underlying.
proof fn lemma_inside_chunk(
    legs: Seq<Seq<PriceLevel>>,
    cursors: Underlyings,
    volume: int,
    chunk: int,
    stop: int,
)
    requires
        underlyings_at(legs, cursors, volume),
        chunk <= cursors.first.left.volume.0,
        chunk <= cursors.second.left.volume.0,
        chunk <= cursors.third.left.volume.0,
        volume < stop < volume + chunk,
    ensures
        !at_level_end(legs[0], stop),
        !at_level_end(legs[1], stop),
        !at_level_end(legs[2], stop),
{
    lemma_cursor_bounds(legs[0], cursors.first);
    lemma_cursor_bounds(legs[1], cursors.second);
    lemma_cursor_bounds(legs[2], cursors.third);
    lemma_inside_level(legs[0], stop, cursors.first.taken - 1);
    lemma_inside_level(legs[1], stop, cursors.second.taken - 1);
    lemma_inside_level(legs[2], stop, cursors.third.taken - 1);
}

/// Takes a traded chunk from the opened level of every underlying. Returns the
/// prices at which the underlyings traded it.
fn take_chunk(
    cursors: &mut Underlyings,
    chunk: Volume,
    Ghost(legs): Ghost<Seq<Seq<PriceLevel>>>,
    Ghost(volume): Ghost<int>,
) -> (prices: (Price, Price, Price))
    requires
        underlyings_at(legs, *old(cursors), volume),
        chunk.0 > 0,
        chunk.0 <= old(cursors).first.left.volume.0,
        chunk.0 <= old(cursors).second.left.volume.0,
        chunk.0 <= old(cursors).third.left.volume.0,
        chunk == old(cursors).first.left.volume || chunk == old(cursors).second.left.volume
            || chunk == old(cursors).third.left.volume,
    ensures
        underlyings_at(legs, *final(cursors), volume + chunk.0),
        some_used_up(*final(cursors)),
        underlying_steps(legs, *final(cursors)) <= underlying_steps(legs, *old(cursors)),
        prices.0.0 == unit_price(legs[0], volume + chunk.0 - 1),
        prices.1.0 == unit_price(legs[1], volume + chunk.0 - 1),
        prices.2.0 == unit_price(legs[2], volume + chunk.0 - 1),
        at_level_end(legs[0], volume + chunk.0) || at_level_end(legs[1], volume + chunk.0)
            || at_level_end(legs[2], volume + chunk.0),
{
    let prices = (cursors.first.left.price, cursors.second.left.price, cursors.third.left.price);
    proof {
        lemma_cursor_bounds(legs[0], cursors.first);
        lemma_cursor_bounds(legs[1], cursors.second);
        lemma_cursor_bounds(legs[2], cursors.third);
        lemma_cursor_units(legs[0], cursors.first, volume + chunk.0 - 1);
        lemma_cursor_units(legs[1], cursors.second, volume + chunk.0 - 1);
        lemma_cursor_units(legs[2], cursors.third, volume + chunk.0 - 1);
    }
    cursors.first.left = PriceLevel {
        price: cursors.first.left.price,
        volume: Volume(cursors.first.left.volume.0 - chunk.0),
    };
    cursors.second.left = PriceLevel {
        price: cursors.second.left.price,
        volume: Volume(cursors.second.left.volume.0 - chunk.0),
    };
    cursors.third.left = PriceLevel {
        price: cursors.third.left.price,
        volume: Volume(cursors.third.left.volume.0 - chunk.0),
    };
    proof {
        if cursors.first.left.volume.0 == 0 {
            lemma_level_end(legs[0], cursors.first.taken as int);
        } else if cursors.second.left.volume.0 == 0 {
            lemma_level_end(legs[1], cursors.second.taken as int);
        } else {
            lemma_level_end(legs[2], cursors.third.taken as int);
        }
    }
    prices
}

/// What the walk has found when it stops.
struct Matched {
    /// The volume matched in the index.
    index_volume: u64,
    /// The volume matched in every underlying, in whole chunks.
    underlying_volume: u64,
    /// The prices of the last unit of the three underlyings and of the index.
    prices: (Price, Price, Price, Price),
}

/// Walks the four ladders of the bundle from their best price on, for as long as
/// the underlyings together cross the index by more than `min_edge`.
fn walk(index: &[&Book; 4], strategy: Strategy, min_edge: Price) -> (found: Matched)
    requires
        forall|i: int| 0 <= i < 4 ==> (#[trigger] index@[i]).ladders_wf(),
    ensures
        ({
            let legs = legs_of(books_of(index), strategy);
            let edge = min_edge.0 as int;
            &&& found.index_volume == matched_volume(legs, strategy, edge)
            &&& found.underlying_volume <= found.index_volume
            &&& found.index_volume > 0 && found.index_volume == found.underlying_volume
                <==> basket_complete(legs, found.index_volume as int)
            &&& found.underlying_volume > 0 ==> {
                &&& found.prices.0.0 == unit_price(legs[0], found.underlying_volume - 1)
                &&& found.prices.1.0 == unit_price(legs[1], found.underlying_volume - 1)
                &&& found.prices.2.0 == unit_price(legs[2], found.underlying_volume - 1)
            }
            &&& found.index_volume > 0 ==> found.prices.3.0 == unit_price(
                legs[3],
                found.index_volume - 1,
            )
        }),
{
    let ghost legs = legs_of(books_of(index), strategy);
    let ghost edge = min_edge.0 as int;
    let (ladder0, descending) = leg_ladder(index, strategy, 0);
    let (ladder1, descending1) = leg_ladder(index, strategy, 1);
    let (ladder2, descending2) = leg_ladder(index, strategy, 2);
    let (ladder3, descending3) = leg_ladder(index, strategy, 3);
    let start = Cursor { taken: 0, left: PriceLevel { price: Price(0), volume: Volume(0) } };
    let mut cursors = Underlyings { first: start, second: start, third: start };
    let mut cursor3 = start;
    let mut index_volume: u64 = 0;
    let mut underlying_volume: u64 = 0;
    let mut prices = (Price(0), Price(0), Price(0));
    let mut index_price = Price(0);
    proof {
        lemma_total_volume_bound(legs[0]);
        lemma_total_volume_bound(legs[1]);
        lemma_total_volume_bound(legs[2]);
        lemma_total_volume_bound(legs[3]);
        lemma_volume_before_first(legs[0]);
        lemma_volume_before_first(legs[1]);
        lemma_volume_before_first(legs[2]);
        lemma_volume_before_first(legs[3]);
    }
    loop
        invariant_except_break
            index_volume == underlying_volume,
            some_used_up(cursors),
        invariant
            legs.len() == 4,
            edge == min_edge.0,
            underlying_ladders(legs, ladder0, ladder1, ladder2, descending),
            ladder3.wf(),
            legs[3] == if descending3 {
                ladder3@.reverse()
            } else {
                ladder3@
            },
            total_volume(legs[0]) <= u32::MAX,
            total_volume(legs[3]) <= u32::MAX,
            underlyings_at(legs, cursors, underlying_volume as int),
            cursor_ok(legs[3], cursor3),
            consumed(legs[3], cursor3) == index_volume,
            underlying_volume <= index_volume,
            forall|unit: int| 0 <= unit < index_volume ==> crosses(legs, strategy, edge, unit),
            index_volume > 0 ==> index_price.0 == unit_price(legs[3], index_volume - 1),
            underlying_volume > 0 ==> {
                &&& prices.0.0 == unit_price(legs[0], underlying_volume - 1)
                &&& prices.1.0 == unit_price(legs[1], underlying_volume - 1)
                &&& prices.2.0 == unit_price(legs[2], underlying_volume - 1)
                &&& (at_level_end(legs[0], underlying_volume as int) || at_level_end(
                    legs[1],
                    underlying_volume as int,
                ) || at_level_end(legs[2], underlying_volume as int))
            },
        ensures
            matched_volume(legs, strategy, edge) == index_volume,
            index_volume > underlying_volume ==> !at_level_end(legs[0], index_volume as int)
                && !at_level_end(legs[1], index_volume as int) && !at_level_end(
                legs[2],
                index_volume as int,
            ),
        decreases underlying_steps(legs, cursors) + steps_left(legs[3], cursor3),
    {
        let live: bool = refresh_underlyings(
            ladder0,
            ladder1,
            ladder2,
            descending,
            &mut cursors,
            Ghost(legs),
            Ghost(underlying_volume as int),
        );
        if !live {
            proof {
                lemma_cursor_bounds(legs[0], cursors.first);
                lemma_cursor_bounds(legs[1], cursors.second);
                lemma_cursor_bounds(legs[2], cursors.third);
                lemma_cursor_bounds(legs[3], cursor3);
                lemma_matched_skips(legs, strategy, edge, 0, index_volume as int);
            }
            break ;
        }
        let (chunk, theo) = next_chunk(&cursors, Ghost(legs), Ghost(underlying_volume as int));
        let completed: bool = match_chunk(
            ladder3,
            descending3,
            &mut cursor3,
            theo,
            chunk,
            strategy,
            min_edge,
            &mut index_volume,
            &mut index_price,
            Ghost(legs),
        );
        if !completed {
            proof {
                if index_volume > underlying_volume {
                    lemma_inside_chunk(
                        legs,
                        cursors,
                        underlying_volume as int,
                        chunk.0 as int,
                        index_volume as int,
                    );
                }
            }
            break ;
        }
        prices = take_chunk(&mut cursors, chunk, Ghost(legs), Ghost(underlying_volume as int));
        underlying_volume = underlying_volume + chunk.0 as u64;
    }
    proof {
        reveal(at_level_end);
        if index_volume == 0 || index_volume > underlying_volume {
            assert(!basket_complete(legs, index_volume as int));
        }
    }
    Matched {
        index_volume,
        underlying_volume,
        prices: (prices.0, prices.1, prices.2, index_price),
    }
}

/// The basket that one strategy finds in the bundle `index`, whose first three
/// books are the underlyings and whose fourth is the index.
///
/// The four ladders are walked from their best price on. The walk takes every
/// unit at which the underlyings together still cross the index by more than
/// `min_edge`, and stops at the first that does not or where a ladder ends. The
/// basket trades that volume in all four books; each of its orders bears the price
/// of the last unit its book gives. No basket is sent where the walk stops inside
/// a level of all three underlyings.
pub fn find_arbs_for_side(index: &[&Book; 4], strategy: Strategy, min_edge: Price) -> (orders: Vec<
    AddMessage,
>)
    requires
        forall|i: int| 0 <= i < 4 ==> (#[trigger] index@[i]).ladders_wf(),
    ensures
        orders@ == basket(books_of(index), strategy, min_edge.0 as int),
{
    let ghost legs = legs_of(books_of(index), strategy);
    let ghost edge = min_edge.0 as int;
    let found = walk(index, strategy, min_edge);
    let mut orders: Vec<AddMessage> = Vec::new();
    if found.index_volume != 0 && found.index_volume == found.underlying_volume {
        let volume: Volume = if found.index_volume <= 65535 {
            Volume(found.index_volume as u16)
        } else {
            Volume(65535)
        };
        let (underlying_side, index_side) = match strategy {
            Strategy::BuyUnderlyingSellIndex => (Side::Buy, Side::Sell),
            Strategy::BuyIndexSellUnderlying => (Side::Sell, Side::Buy),
        };
        orders.push(
            AddMessage {
                message_type: MessageType::Add,
                product: index[0].product.clone(),
                price: found.prices.0,
                side: underlying_side,
                volume,
                order_type: OrderType::Ioc,
            },
        );
        orders.push(
            AddMessage {
                message_type: MessageType::Add,
                product: index[1].product.clone(),
                price: found.prices.1,
                side: underlying_side,
                volume,
                order_type: OrderType::Ioc,
            },
        );
        orders.push(
            AddMessage {
                message_type: MessageType::Add,
                product: index[2].product.clone(),
                price: found.prices.2,
                side: underlying_side,
                volume,
                order_type: OrderType::Ioc,
            },
        );
        orders.push(
            AddMessage {
                message_type: MessageType::Add,
                product: index[3].product.clone(),
                price: found.prices.3,
                side: index_side,
                volume,
                order_type: OrderType::Ioc,
            },
        );
        proof {
            assert(orders@ =~= basket(books_of(index), strategy, edge));
        }
    } else {
        proof {
            assert(orders@ =~= basket(books_of(index), strategy, edge));
        }
    }
    orders
}

/// The basket to send for a bundle: that of buying the underlyings and selling
/// the index where there is one, else that of buying the index and selling the
/// underlyings; empty where neither way trades at a profit of more than `edge`.
pub open spec fn best_basket(books: Seq<Book>, edge: int) -> Seq<AddMessage> {
    if basket(books, Strategy::BuyUnderlyingSellIndex, edge).len() > 0 {
        basket(books, Strategy::BuyUnderlyingSellIndex, edge)
    } else {
        basket(books, Strategy::BuyIndexSellUnderlying, edge)
    }
}

/// The basket to send for the bundle `index`, whose first three books are the
/// underlyings and whose fourth is the index: the first that the two strategies
/// find, buying the underlyings being tried first.
pub fn find_arbs(index: &[&Book; 4], min_edge: Price) -> (orders: Vec<AddMessage>)
    requires
        forall|i: int| 0 <= i < 4 ==> (#[trigger] index@[i]).ladders_wf(),
    ensures
        orders@ == best_basket(books_of(index), min_edge.0 as int),
{
    let orders = find_arbs_for_side(index, Strategy::BuyUnderlyingSellIndex, min_edge);
    if orders.len() == 0 {
        find_arbs_for_side(index, Strategy::BuyIndexSellUnderlying, min_edge)
    } else {
        orders
    }
}

} // verus!
