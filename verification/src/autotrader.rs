//! The replay engine: the books of all listed products, kept up to date from the
//! snapshot taken at start and from the live feed that follows it.

use crate::book::{
    lemma_ladder_holds_orders, own_volume, resting_on, Book, BookError, Position, State,
};
use crate::feed::{FutureMessage, HasSequence, Message};
use crate::gates::{GateState, Gates};
use crate::ladder::total_volume;
use crate::types::{Side, Username, Volume};
use vstd::prelude::*;

verus! {

/// Why the replay stops. Each of these means that the replica can no longer be
/// trusted to mirror the exchange.
#[derive(Debug, Clone, Copy, PartialEq, Eq, Structural)]
pub enum ReplayError {
    /// A product was listed that does not expire when its trading halts.
    ExpiryMismatch,
    /// A message speaks of a product that has no book.
    UnknownProduct,
    /// A live message is not the next in sequence: one before it is missing.
    SequenceGap,
    /// The book of the product refuses the message.
    Book(BookError),
}

/// Whether a book of `product` is among `books`.
pub open spec fn has_book(books: Seq<Book>, product: Seq<char>) -> bool {
    exists|i: int| 0 <= i < books.len() && #[trigger] books[i].product@ == product
}

/// The place of the book of `product` among `books`.
pub open spec fn book_place(books: Seq<Book>, product: Seq<char>) -> int {
    choose|i: int| 0 <= i < books.len() && #[trigger] books[i].product@ == product
}

/// No two books are of the same product.
pub open spec fn distinct_books(books: Seq<Book>) -> bool {
    forall|i: int, j: int| 0 <= i < j < books.len() ==> books[i].product@ != books[j].product@
}

/// Whether `book` is the empty book of the product that `future` lists.
pub open spec fn is_listing(book: Book, future: FutureMessage) -> bool {
    &&& book.bids@.len() == 0
    &&& book.asks@.len() == 0
    &&& book.orders@.len() == 0
    &&& book.position == (Position {
        bid_exposure: Volume(0),
        ask_exposure: Volume(0),
        position: 0,
    })
    &&& book.product == future.product
    &&& book.station_id == future.station_id
    &&& book.expiry == future.expiry
}

/// Whether `after` holds the books of `before` but for the one at place `i`.
pub open spec fn same_but(before: Seq<Book>, after: Seq<Book>, i: int) -> bool {
    &&& after.len() == before.len()
    &&& forall|j: int| 0 <= j < before.len() && j != i ==> after[j] == before[j]
}

/// What a message of the live feed does to the gates: a trade whose aggressor is
/// the order that a product waits for ends the wait, and a halt takes away its
/// product's gate.
pub open spec fn gates_after(gates: Map<Seq<char>, GateState>, message: Message) -> Map<
    Seq<char>,
    GateState,
> {
    match message {
        Message::Trade(trade) => if gates.contains_key(trade.product@)
            && gates[trade.product@].pending_fill == Some(trade.aggressor_order@) {
            gates.insert(
                trade.product@,
                GateState { enabled: gates[trade.product@].enabled, pending_fill: None },
            )
        } else {
            gates
        },
        Message::TradingHalt(halt) => gates.remove(halt.product@),
        _ => gates,
    }
}

/// The trader's replica of the exchange.
#[derive(Debug, PartialEq, Eq)]
pub struct AutoTrader {
    pub username: Username,
    pub password: String,
    /// The books of the listed products, in the order of their listing.
    pub books: Vec<Book>,
    /// The sequence number of the last message applied.
    pub sequence: u32,
}

/// What became of a live message.
#[derive(Debug, Clone, Copy, PartialEq, Eq, Structural)]
pub enum Ingest {
    /// The message was the next in sequence and is applied.
    Applied,
    /// The message was applied before and is passed over.
    Duplicate,
}

/// What is to be done for the gates once a live message is applied.
enum GateAction {
    Keep,
    ClearFill(String, String),
    Remove(String),
}

impl AutoTrader {
    /// Every product has one book, every book is well-formed and records the
    /// exposure of the trader.
    pub open spec fn wf(&self) -> bool {
        &&& distinct_books(self.books@)
        &&& forall|i: int|
            0 <= i < self.books@.len() ==> (#[trigger] self.books@[i]).wf()
                && self.books@[i].exposure_of(self.username@)
    }

    /// Whether `other` holds the same books under the same account at the same
    /// place in the feed.
    pub open spec fn same_as(&self, other: &AutoTrader) -> bool {
        &&& other.username == self.username
        &&& other.password == self.password
        &&& other.books@ == self.books@
        &&& other.sequence == self.sequence
    }

    /// Whether `other` holds books of the same content, in the same order, under
    /// the same account at the same place in the feed.
    pub open spec fn same_content(&self, other: &AutoTrader) -> bool {
        &&& other.username == self.username
        &&& other.password == self.password
        &&& other.sequence == self.sequence
        &&& other.books@.len() == self.books@.len()
        &&& forall|i: int|
            0 <= i < self.books@.len() ==> (#[trigger] self.books@[i]).same_content(
                &other.books@[i],
            )
    }

    /// Why the replica refuses a message, if it does.
    pub open spec fn refusal(&self, message: Message, state: State) -> Option<ReplayError> {
        let me = self.username@;
        match message {
            Message::Future(future) => if future.expiry@ != future.halt_time@ {
                Some(ReplayError::ExpiryMismatch)
            } else {
                None
            },
            Message::Added(added) => if !has_book(self.books@, added.product@) {
                Some(ReplayError::UnknownProduct)
            } else {
                match self.books@[book_place(self.books@, added.product@)].add_order_refusal(
                    added,
                    me,
                ) {
                    Some(e) => Some(ReplayError::Book(e)),
                    None => None,
                }
            },
            Message::Deleted(deleted) => if !has_book(self.books@, deleted.product@) {
                Some(ReplayError::UnknownProduct)
            } else {
                match self.books@[book_place(self.books@, deleted.product@)].remove_order_refusal(
                    deleted,
                ) {
                    Some(e) => Some(ReplayError::Book(e)),
                    None => None,
                }
            },
            Message::Trade(trade) => if !has_book(self.books@, trade.product@) {
                Some(ReplayError::UnknownProduct)
            } else {
                match self.books@[book_place(self.books@, trade.product@)].trade_refusal(
                    trade,
                    me,
                    state,
                ) {
                    Some(e) => Some(ReplayError::Book(e)),
                    None => None,
                }
            },
            Message::Settlement(_) => None,
            Message::Index(_) => None,
            Message::TradingHalt(_) => None,
        }
    }

    /// Whether `after` is this replica with a message applied to its books. A
    /// listing opens an empty book for its product, in place of the book that the
    /// product had or after all others. An added or deleted order and a trade
    /// change the book of their product as that book says. A halt takes the book
    /// of its product away. A settlement and an index definition change nothing.
    pub open spec fn applied(&self, after: &AutoTrader, message: Message, state: State) -> bool {
        let me = self.username@;
        let books = self.books@;
        &&& after.username == self.username
        &&& after.password == self.password
        &&& match message {
            Message::Future(future) => if has_book(books, future.product@) {
                let i = book_place(books, future.product@);
                same_but(books, after.books@, i) && is_listing(after.books@[i], future)
            } else {
                after.books@.len() == books.len() + 1 && after.books@.take(books.len() as int)
                    == books && is_listing(after.books@[books.len() as int], future)
            },
            Message::Added(added) => {
                let i = book_place(books, added.product@);
                same_but(books, after.books@, i) && books[i].after_add(&after.books@[i], added, me)
            },
            Message::Deleted(deleted) => {
                let i = book_place(books, deleted.product@);
                same_but(books, after.books@, i) && books[i].after_remove(
                    &after.books@[i],
                    deleted,
                    me,
                )
            },
            Message::Trade(trade) => {
                let i = book_place(books, trade.product@);
                same_but(books, after.books@, i) && books[i].after_trade(
                    &after.books@[i],
                    trade,
                    me,
                    state,
                )
            },
            Message::Settlement(_) => after.books@ == books,
            Message::Index(_) => after.books@ == books,
            Message::TradingHalt(halt) => if has_book(books, halt.product@) {
                after.books@ == books.remove(book_place(books, halt.product@))
            } else {
                after.books@ == books
            },
        }
    }

    /// A replica without books, before the first message.
    pub fn new(username: Username, password: String) -> (r: AutoTrader)
        ensures
            r.username == username,
            r.password == password,
            r.books@.len() == 0,
            r.sequence == 0,
            r.wf(),
    {
        AutoTrader { username, password, books: Vec::new(), sequence: 0 }
    }

    /// The place of the book of `product`.
    pub fn find_book(&self, product: &String) -> (r: Option<usize>)
        ensures
            match r {
                Some(i) => i < self.books@.len() && self.books@[i as int].product@ == product@,
                None => !has_book(self.books@, product@),
            },
            distinct_books(self.books@) && r.is_some() ==> r.unwrap() == book_place(
                self.books@,
                product@,
            ),
    {
        let mut i: usize = 0;
        while i < self.books.len()
            invariant
                i <= self.books@.len(),
                forall|j: int| 0 <= j < i ==> self.books@[j].product@ != product@,
            decreases self.books@.len() - i,
        {
            if self.books[i].product == *product {
                return Some(i);
            }
            i += 1;
        }
        None
    }

    /// The book of `product`, if it is listed.
    pub fn book(&self, product: &String) -> (r: Option<&Book>)
        ensures
            match r {
                Some(book) => exists|i: int|
                    0 <= i < self.books@.len() && (#[trigger] self.books@[i]).product@ == product@
                        && self.books@[i] == *book,
                None => !has_book(self.books@, product@),
            },
    {
        match self.find_book(product) {
            Some(i) => Some(&self.books[i]),
            None => None,
        }
    }

    /// Applies one message of the feed to the books. The message is refused, and
    /// the replica left as it was, where a listing does not expire at its halt,
    /// where the product of an order or a trade has no book, or where that book
    /// refuses the message.
    pub fn parse_feed_message(&mut self, message: Message, state: State) -> (r: Result<
        (),
        ReplayError,
    >)
        requires
            old(self).wf(),
        ensures
            final(self).wf(),
            final(self).sequence == old(self).sequence,
            match r {
                Ok(()) => old(self).refusal(message, state).is_none() && old(self).applied(
                    final(self),
                    message,
                    state,
                ),
                Err(e) => old(self).refusal(message, state) == Some(e) && old(self).same_as(
                    final(self),
                ),
            },
    {
        let ghost before = *self;
        match message {
            Message::Future(future) => {
                if future.expiry != future.halt_time {
                    return Err(ReplayError::ExpiryMismatch);
                }
                let place: Option<usize> = self.find_book(&future.product);
                let book = Book::new(future.product, future.station_id, future.expiry);
                match place {
                    Some(i) => {
                        self.books[i] = book;
                    },
                    None => {
                        self.books.push(book);
                        assert(self.books@.take(before.books@.len() as int) =~= before.books@);
                    },
                }
                Ok(())
            },
            Message::Added(added) => {
                match self.find_book(&added.product) {
                    None => Err(ReplayError::UnknownProduct),
                    Some(i) => match self.books[i].add_order(added, &self.username) {
                        Ok(()) => Ok(()),
                        Err(e) => {
                            assert(self.books@ =~= before.books@);
                            Err(ReplayError::Book(e))
                        },
                    },
                }
            },
            Message::Deleted(deleted) => {
                match self.find_book(&deleted.product) {
                    None => Err(ReplayError::UnknownProduct),
                    Some(i) => match self.books[i].remove_order(deleted, &self.username) {
                        Ok(()) => Ok(()),
                        Err(e) => {
                            assert(self.books@ =~= before.books@);
                            Err(ReplayError::Book(e))
                        },
                    },
                }
            },
            Message::Trade(trade) => {
                match self.find_book(&trade.product) {
                    None => Err(ReplayError::UnknownProduct),
                    Some(i) => match self.books[i].trade(trade, &self.username, state) {
                        Ok(()) => Ok(()),
                        Err(e) => {
                            assert(self.books@ =~= before.books@);
                            Err(ReplayError::Book(e))
                        },
                    },
                }
            },
            Message::Settlement(_) => Ok(()),
            Message::Index(_) => Ok(()),
            Message::TradingHalt(halt) => {
                match self.find_book(&halt.product) {
                    Some(i) => {
                        self.books.remove(i);
                    },
                    None => {},
                }
                Ok(())
            },
        }
    }
}

impl AutoTrader {
    /// Whether `stages` are the replicas that a replay of the snapshot `messages`
    /// goes through from this one to `after`: each message is applied as history
    /// to the stage before it, none is refused, and each stage stands in the feed
    /// where its message was published.
    pub open spec fn replay(
        &self,
        after: &AutoTrader,
        messages: Seq<Message>,
        stages: Seq<AutoTrader>,
    ) -> bool {
        &&& stages.len() == messages.len() + 1
        &&& self.same_as(&stages[0])
        &&& stages[messages.len() as int].same_as(after)
        &&& forall|k: int|
            0 <= k < messages.len() ==> {
                &&& (#[trigger] stages[k]).refusal(messages[k], State::Recovery).is_none()
                &&& stages[k].applied(&stages[k + 1], messages[k], State::Recovery)
                &&& stages[k + 1].sequence == messages[k].spec_sequence()
                &&& stages[k + 1].wf()
            }
    }

    /// Whether `after` is this replica with the snapshot `messages` replayed in
    /// its order, no message refused.
    pub open spec fn recovered(&self, after: &AutoTrader, messages: Seq<Message>) -> bool {
        exists|stages: Seq<AutoTrader>| self.replay(after, messages, stages)
    }

    /// Replays the snapshot taken at start. The messages are applied in their
    /// order as history: trades move the position and leave the ladders alone.
    /// The sequence number of each message that is applied becomes that of the
    /// replica, so the live feed is taken up after the last of them.
    ///
    /// The replay stops at the first message that is refused, with the messages
    /// before it applied.
    pub fn ingest_recovery(&mut self, messages: Vec<Message>) -> (r: Result<(), ReplayError>)
        requires
            old(self).wf(),
        ensures
            final(self).wf(),
            match r {
                Ok(()) => old(self).recovered(final(self), messages@),
                Err(e) => exists|count: int|
                    0 <= count < messages@.len() && #[trigger] old(self).recovered(
                        final(self),
                        messages@.take(count),
                    ) && final(self).refusal(messages@[count], State::Recovery) == Some(e),
            },
            // The live feed is taken up after the last message of the snapshot.
            r.is_ok() ==> final(self).sequence == if messages@.len() == 0 {
                old(self).sequence
            } else {
                messages@.last().spec_sequence()
            },
    {
        let ghost start = *self;
        let ghost all = messages@;
        let ghost mut stages = seq![*self];
        for message in iter: messages
            invariant
                self.wf(),
                start == *old(self),
                all == messages@,
                iter.seq() == all,
                start.replay(self, all.take(iter.index()), stages),
                stages[iter.index()] == *self,
                self.sequence == if iter.index() == 0 {
                    start.sequence
                } else {
                    all[iter.index() - 1].spec_sequence()
                },
        {
            let ghost before = *self;
            let ghost count = iter.index();
            let sequence: u32 = message.sequence();
            match self.parse_feed_message(message, State::Recovery) {
                Ok(()) => {
                    self.sequence = sequence;
                    proof {
                        lemma_replay_grows(start, before, *self, all.take(count), stages, message);
                        assert(all.take(count + 1) =~= all.take(count).push(message));
                        stages = stages.push(*self);
                    }
                },
                Err(e) => {
                    proof {
                        assert(start.replay(self, all.take(count), stages));
                        assert(old(self).recovered(self, messages@.take(count)));
                        assert(self.refusal(messages@[count], State::Recovery) == Some(e));
                    }
                    return Err(e);
                },
            }
        }
        proof {
            assert(all.take(all.len() as int) =~= all);
        }
        Ok(())
    }
}

/// In a well-formed replica, which every replica is that comes of applying
/// messages, each ladder of every book holds as much volume as the orders that
/// rest on its side, no level is empty, and the exposure recorded for a side is
/// the volume of the trader's own orders that rest on it.
pub proof fn lemma_books_mirror_orders(trader: AutoTrader, i: int, side: Side)
    requires
        trader.wf(),
        0 <= i < trader.books@.len(),
    ensures
        total_volume(trader.books@[i].levels(side)) == resting_on(trader.books@[i].orders@, side),
        forall|j: int|
            0 <= j < trader.books@[i].levels(side).len() ==> (#[trigger] trader.books@[i].levels(
                side,
            )[j]).volume.0 > 0,
        trader.books@[i].exposure(side) == own_volume(
            trader.books@[i].orders@,
            side,
            trader.username@,
        ),
{
    let book = trader.books@[i];
    assert(book.wf() && book.exposure_of(trader.username@));
    lemma_ladder_holds_orders(book, side);
}

/// A replay goes on by one message: where the message is applied to the replica
/// that the replay has reached, the replay of one message more reaches the
/// replica that comes of it.
proof fn lemma_replay_grows(
    start: AutoTrader,
    before: AutoTrader,
    after: AutoTrader,
    messages: Seq<Message>,
    stages: Seq<AutoTrader>,
    message: Message,
)
    requires
        start.replay(&before, messages, stages),
        stages[messages.len() as int] == before,
        before.refusal(message, State::Recovery).is_none(),
        before.applied(&after, message, State::Recovery),
        after.sequence == message.spec_sequence(),
        after.wf(),
    ensures
        start.replay(&after, messages.push(message), stages.push(after)),
{
    let longer = messages.push(message);
    let run = stages.push(after);
    assert forall|k: int| 0 <= k < longer.len() implies {
        &&& (#[trigger] run[k]).refusal(longer[k], State::Recovery).is_none()
        &&& run[k].applied(&run[k + 1], longer[k], State::Recovery)
        &&& run[k + 1].sequence == longer[k].spec_sequence()
        &&& run[k + 1].wf()
    } by {
        if k < messages.len() {
            assert(run[k] == stages[k]);
            assert(run[k + 1] == stages[k + 1]);
            assert(longer[k] == messages[k]);
        }
    }
}

impl AutoTrader {
    /// Takes one message of the live feed. The message that bears the sequence
    /// number after that of the replica is applied, and the replica moves on to
    /// its number; the gates follow, as `gates_after` says. A message that bears
    /// an earlier number was applied before and is passed over.
    ///
    /// A message that bears a later number shows that one is missing, and stops
    /// the replay with `SequenceGap`. So does a message that the books refuse,
    /// with the reason. Replica and gates are then left as they were.
    pub fn ingest_live(&mut self, message: Message, gates: &mut Gates) -> (r: Result<
        Ingest,
        ReplayError,
    >)
        requires
            old(self).wf(),
            old(gates).wf(),
        ensures
            final(self).wf(),
            final(gates).wf(),
            final(self).sequence >= old(self).sequence,
            match r {
                Ok(Ingest::Applied) => {
                    &&& message.spec_sequence() == old(self).sequence + 1
                    &&& final(self).sequence == old(self).sequence + 1
                    &&& old(self).refusal(message, State::Feed).is_none()
                    &&& old(self).applied(final(self), message, State::Feed)
                    &&& final(gates)@ == gates_after(old(gates)@, message)
                },
                Ok(Ingest::Duplicate) => {
                    &&& message.spec_sequence() <= old(self).sequence
                    &&& old(self).same_as(final(self))
                    &&& final(gates)@ == old(gates)@
                },
                Err(e) => {
                    &&& old(self).same_as(final(self))
                    &&& final(gates)@ == old(gates)@
                    &&& message.spec_sequence() > old(self).sequence
                    &&& if message.spec_sequence() == old(self).sequence + 1 {
                        old(self).refusal(message, State::Feed) == Some(e)
                    } else {
                        e == ReplayError::SequenceGap
                    }
                },
            },
    {
        let sequence: u32 = message.sequence();
        if sequence <= self.sequence {
            return Ok(Ingest::Duplicate);
        }
        if sequence - 1 != self.sequence {
            return Err(ReplayError::SequenceGap);
        }
        let action: GateAction = match &message {
            Message::Trade(trade) => GateAction::ClearFill(
                trade.product.clone(),
                trade.aggressor_order.clone(),
            ),
            Message::TradingHalt(halt) => GateAction::Remove(halt.product.clone()),
            _ => GateAction::Keep,
        };
        match self.parse_feed_message(message, State::Feed) {
            Err(e) => Err(e),
            Ok(()) => {
                let ghost parsed = *self;
                self.sequence = sequence;
                match action {
                    GateAction::ClearFill(product, order) => {
                        gates.clear_fill(&product, &order);
                    },
                    GateAction::Remove(product) => {
                        gates.remove(&product);
                    },
                    GateAction::Keep => {},
                }
                proof {
                    assert(old(self).applied(&parsed, message, State::Feed));
                    assert(old(self).applied(self, message, State::Feed));
                }
                Ok(Ingest::Applied)
            },
        }
    }
}

} // verus!
