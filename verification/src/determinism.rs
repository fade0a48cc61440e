//! The replica is a function of the messages it was given: replaying the same
//! snapshot from the same start always leads to books of the same content.

use crate::autotrader::{book_place, distinct_books, has_book, AutoTrader};
use crate::book::{Book, State};
use crate::feed::Message;
use crate::ladder::{lemma_ladder_known_by_volumes, volume_at};
use crate::types::{Price, Side};
use vstd::prelude::*;

verus! {

/// Books of the same content list the same products at the same places.
proof fn lemma_same_places(first: AutoTrader, second: AutoTrader, product: Seq<char>)
    requires
        first.wf(),
        second.wf(),
        first.same_content(&second),
    ensures
        has_book(first.books@, product) == has_book(second.books@, product),
        has_book(first.books@, product) ==> book_place(first.books@, product) == book_place(
            second.books@,
            product,
        ),
{
    if has_book(first.books@, product) {
        let i = book_place(first.books@, product);
        assert(first.books@[i].same_content(&second.books@[i]));
        assert(second.books@[i].product@ == product);
        let j = book_place(second.books@, product);
        assert(second.books@[j].product@ == product);
        assert(i == j);
    }
    if has_book(second.books@, product) {
        let j = book_place(second.books@, product);
        assert(first.books@[j].same_content(&second.books@[j]));
        assert(first.books@[j].product@ == product);
    }
}

/// Two well-formed books that arise from books of the same content by the same
/// move of volume have ladders and exposures of the same content.
proof fn lemma_same_move(
    first: Book,
    second: Book,
    first_after: Book,
    second_after: Book,
    side: Side,
    price: Price,
    by: int,
    own: bool,
)
    requires
        first.same_content(&second),
        first.moved(&first_after, side, price, by, own),
        second.moved(&second_after, side, price, by, own),
        first_after.ladders_wf(),
        second_after.ladders_wf(),
        first_after.position.position == second_after.position.position,
    ensures
        first_after.bids@ == second_after.bids@,
        first_after.asks@ == second_after.asks@,
        first_after.position == second_after.position,
        first_after.product == second_after.product,
        first_after.station_id == second_after.station_id,
        first_after.expiry == second_after.expiry,
{
    assert(first.levels(side) == second.levels(side));
    assert(first.levels(side.opposite()) == second.levels(side.opposite()));
    assert forall|p: Price|
        volume_at(first_after.levels(side), p) == volume_at(second_after.levels(side), p) by {
        assert(volume_at(first_after.levels(side), p) == volume_at(first.levels(side), p) - if p
            == price {
            by
        } else {
            0
        });
        assert(volume_at(second_after.levels(side), p) == volume_at(second.levels(side), p) - if p
            == price {
            by
        } else {
            0
        });
    }
    lemma_ladder_known_by_volumes(first_after.levels(side), second_after.levels(side));
    assert(first.exposure(side) == second.exposure(side));
    assert(first.exposure(side.opposite()) == second.exposure(side.opposite()));
    assert(first_after.exposure(side) == second_after.exposure(side));
    assert(first_after.exposure(side.opposite()) == second_after.exposure(side.opposite()));
}

/// Applying a message to replicas of the same content gives replicas whose books
/// are of the same content.
pub proof fn lemma_applied_is_a_function(
    first: AutoTrader,
    second: AutoTrader,
    first_after: AutoTrader,
    second_after: AutoTrader,
    message: Message,
    state: State,
)
    requires
        first.wf(),
        second.wf(),
        first_after.wf(),
        second_after.wf(),
        first.same_content(&second),
        first.refusal(message, state).is_none(),
        first.applied(&first_after, message, state),
        second.applied(&second_after, message, state),
        first_after.sequence == second_after.sequence,
    ensures
        first_after.same_content(&second_after),
{
    let me = first.username@;
    let a = first.books@;
    let b = second.books@;
    let x = first_after.books@;
    let y = second_after.books@;
    match message {
        Message::Future(future) => {
            lemma_same_places(first, second, future.product@);
            if has_book(a, future.product@) {
                let i = book_place(a, future.product@);
                assert forall|j: int| 0 <= j < x.len() implies (#[trigger] x[j]).same_content(
                    &y[j],
                ) by {
                    if j != i {
                        assert(a[j].same_content(&b[j]));
                    } else {
                        assert(x[i].bids@ =~= y[i].bids@);
                        assert(x[i].asks@ =~= y[i].asks@);
                        assert(x[i].orders@ =~= y[i].orders@);
                    }
                }
            } else {
                let n = a.len() as int;
                assert forall|j: int| 0 <= j < x.len() implies (#[trigger] x[j]).same_content(
                    &y[j],
                ) by {
                    if j < n {
                        assert(x.take(n)[j] == x[j]);
                        assert(y.take(n)[j] == y[j]);
                        assert(a[j].same_content(&b[j]));
                    } else {
                        assert(x[n].bids@ =~= y[n].bids@);
                        assert(x[n].asks@ =~= y[n].asks@);
                        assert(x[n].orders@ =~= y[n].orders@);
                    }
                }
            }
        },
        Message::Added(added) => {
            lemma_same_places(first, second, added.product@);
            let i = book_place(a, added.product@);
            assert(a[i].same_content(&b[i]));
            assert(x[i].wf() && y[i].wf());
            lemma_same_move(
                a[i],
                b[i],
                x[i],
                y[i],
                added.side,
                added.price,
                -(added.resting.0 as int),
                added.owner@ == me,
            );
            assert forall|j: int| 0 <= j < x.len() implies (#[trigger] x[j]).same_content(
                &y[j],
            ) by {
                if j != i {
                    assert(a[j].same_content(&b[j]));
                }
            }
        },
        Message::Deleted(deleted) => {
            lemma_same_places(first, second, deleted.product@);
            let i = book_place(a, deleted.product@);
            assert(a[i].same_content(&b[i]));
            assert(x[i].wf() && y[i].wf());
            let order = a[i].orders@[crate::book::order_place(a[i].orders@, deleted.id@)].order;
            lemma_same_move(
                a[i],
                b[i],
                x[i],
                y[i],
                order.side,
                order.price,
                order.volume.0 as int,
                order.owner@ == me,
            );
            assert forall|j: int| 0 <= j < x.len() implies (#[trigger] x[j]).same_content(
                &y[j],
            ) by {
                if j != i {
                    assert(a[j].same_content(&b[j]));
                }
            }
        },
        Message::Trade(trade) => {
            lemma_same_places(first, second, trade.product@);
            let i = book_place(a, trade.product@);
            assert(a[i].same_content(&b[i]));
            assert(x[i].wf() && y[i].wf());
            if Book::takes_volume(trade, state) {
                let order = a[i].orders@[crate::book::order_place(
                    a[i].orders@,
                    trade.passive_order@,
                )].order;
                lemma_same_move(
                    a[i],
                    b[i],
                    x[i],
                    y[i],
                    order.side,
                    order.price,
                    trade.volume.0 as int,
                    order.owner@ == me,
                );
            }
            assert forall|j: int| 0 <= j < x.len() implies (#[trigger] x[j]).same_content(
                &y[j],
            ) by {
                if j != i {
                    assert(a[j].same_content(&b[j]));
                }
            }
        },
        Message::Settlement(_) => {
            assert forall|j: int| 0 <= j < x.len() implies (#[trigger] x[j]).same_content(
                &y[j],
            ) by {
                assert(a[j].same_content(&b[j]));
            }
        },
        Message::Index(_) => {
            assert forall|j: int| 0 <= j < x.len() implies (#[trigger] x[j]).same_content(
                &y[j],
            ) by {
                assert(a[j].same_content(&b[j]));
            }
        },
        Message::TradingHalt(halt) => {
            lemma_same_places(first, second, halt.product@);
            if has_book(a, halt.product@) {
                let i = book_place(a, halt.product@);
                assert forall|j: int| 0 <= j < x.len() implies (#[trigger] x[j]).same_content(
                    &y[j],
                ) by {
                    if j < i {
                        assert(a[j].same_content(&b[j]));
                    } else {
                        assert(a[j + 1].same_content(&b[j + 1]));
                    }
                }
            } else {
                assert forall|j: int| 0 <= j < x.len() implies (#[trigger] x[j]).same_content(
                    &y[j],
                ) by {
                    assert(a[j].same_content(&b[j]));
                }
            }
        },
    }
}

/// Books of the same content refuse the same messages.
proof fn lemma_same_refusal(first: AutoTrader, second: AutoTrader, message: Message, state: State)
    requires
        first.wf(),
        second.wf(),
        first.same_content(&second),
    ensures
        first.refusal(message, state) == second.refusal(message, state),
{
    match message {
        Message::Added(added) => {
            lemma_same_places(first, second, added.product@);
            if has_book(first.books@, added.product@) {
                let i = book_place(first.books@, added.product@);
                assert(first.books@[i].same_content(&second.books@[i]));
            }
        },
        Message::Deleted(deleted) => {
            lemma_same_places(first, second, deleted.product@);
            if has_book(first.books@, deleted.product@) {
                let i = book_place(first.books@, deleted.product@);
                assert(first.books@[i].same_content(&second.books@[i]));
            }
        },
        Message::Trade(trade) => {
            lemma_same_places(first, second, trade.product@);
            if has_book(first.books@, trade.product@) {
                let i = book_place(first.books@, trade.product@);
                assert(first.books@[i].same_content(&second.books@[i]));
            }
        },
        _ => {},
    }
}

/// Two runs of the same snapshot from replicas of the same content keep step:
/// after the same number of messages their books are of the same content.
proof fn lemma_replays_keep_step(
    first: AutoTrader,
    second: AutoTrader,
    first_after: AutoTrader,
    second_after: AutoTrader,
    messages: Seq<Message>,
    first_stages: Seq<AutoTrader>,
    second_stages: Seq<AutoTrader>,
    count: int,
)
    requires
        first.wf(),
        second.wf(),
        first.same_content(&second),
        first.replay(&first_after, messages, first_stages),
        second.replay(&second_after, messages, second_stages),
        0 <= count <= messages.len(),
    ensures
        first_stages[count].wf(),
        second_stages[count].wf(),
        first_stages[count].same_content(&second_stages[count]),
    decreases count,
{
    if count == 0 {
        assert forall|i: int| 0 <= i < first_stages[0].books@.len() implies (
        #[trigger] first_stages[0].books@[i]).same_content(&second_stages[0].books@[i]) by {
            assert(first.books@[i].same_content(&second.books@[i]));
        }
    } else {
        lemma_replays_keep_step(
            first,
            second,
            first_after,
            second_after,
            messages,
            first_stages,
            second_stages,
            count - 1,
        );
        let k = count - 1;
        assert(first_stages[k].applied(&first_stages[k + 1], messages[k], State::Recovery));
        assert(second_stages[k].applied(&second_stages[k + 1], messages[k], State::Recovery));
        lemma_applied_is_a_function(
            first_stages[k],
            second_stages[k],
            first_stages[k + 1],
            second_stages[k + 1],
            messages[k],
            State::Recovery,
        );
    }
}

/// Replaying the same snapshot from replicas of the same content leads to
/// replicas of the same content: the same books with the same levels, orders and
/// positions, at the same place in the feed.
pub proof fn lemma_recovery_is_a_function(
    first: AutoTrader,
    second: AutoTrader,
    first_after: AutoTrader,
    second_after: AutoTrader,
    messages: Seq<Message>,
)
    requires
        first.wf(),
        second.wf(),
        first.same_content(&second),
        first.recovered(&first_after, messages),
        second.recovered(&second_after, messages),
    ensures
        first_after.same_content(&second_after),
{
    let first_stages = choose|stages: Seq<AutoTrader>|
        first.replay(&first_after, messages, stages);
    let second_stages = choose|stages: Seq<AutoTrader>|
        second.replay(&second_after, messages, stages);
    let n = messages.len() as int;
    lemma_replays_keep_step(
        first,
        second,
        first_after,
        second_after,
        messages,
        first_stages,
        second_stages,
        n,
    );
    assert forall|i: int| 0 <= i < first_after.books@.len() implies (
    #[trigger] first_after.books@[i]).same_content(&second_after.books@[i]) by {
        assert(first_stages[n].books@[i].same_content(&second_stages[n].books@[i]));
    }
}

} // verus!
