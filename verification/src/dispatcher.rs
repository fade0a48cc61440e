//! The decisions taken after each message of the live feed: which books make up
//! a bundle, which bundles may trade, and which baskets are sent.

use crate::arbitrage::{best_basket, books_of, find_arbs, lemma_basket_crosses, Strategy};
use crate::autotrader::AutoTrader;
use crate::book::Book;
use crate::gates::{breaches_limit, is_breaching, within_limit, GateState, Gates};
use crate::order::AddMessage;
use crate::types::{Price, Station};
use vstd::prelude::*;

verus! {

/// The place of the last among the first `upto` books that expires at `expiry`
/// and is of the station numbered `ordinal`; -1 where there is none.
pub open spec fn slot(books: Seq<Book>, expiry: Seq<char>, ordinal: int, upto: int) -> int
    decreases upto,
{
    if upto <= 0 {
        -1
    } else if books[upto - 1].expiry@ == expiry && books[upto - 1].station_id.ordinal()
        == ordinal {
        upto - 1
    } else {
        slot(books, expiry, ordinal, upto - 1)
    }
}

/// Whether the book at place `i` is the first of its expiry.
pub open spec fn first_of_expiry(books: Seq<Book>, i: int) -> bool {
    forall|j: int| 0 <= j < i ==> (#[trigger] books[j]).expiry@ != books[i].expiry@
}

/// The places of the four books of the bundle that expires at `expiry`, by the
/// ordinal of their station.
pub open spec fn bundle_of(books: Seq<Book>, expiry: Seq<char>) -> Seq<int> {
    Seq::new(4, |ordinal: int| slot(books, expiry, ordinal, books.len() as int))
}

/// Whether the bundle that expires at `expiry` has a book for each station.
pub open spec fn complete(books: Seq<Book>, expiry: Seq<char>) -> bool {
    forall|ordinal: int| 0 <= ordinal < 4 ==> #[trigger] bundle_of(books, expiry)[ordinal] >= 0
}

/// The complete bundles among the books, in the order in which the first `upto`
/// books open an expiry.
pub open spec fn bundles_upto(books: Seq<Book>, upto: int) -> Seq<Seq<int>>
    decreases upto,
{
    if upto <= 0 {
        Seq::empty()
    } else if first_of_expiry(books, upto - 1) && complete(books, books[upto - 1].expiry@) {
        bundles_upto(books, upto - 1).push(bundle_of(books, books[upto - 1].expiry@))
    } else {
        bundles_upto(books, upto - 1)
    }
}

/// The places that a bundle names.
pub open spec fn places(bundle: [usize; 4]) -> Seq<int> {
    Seq::new(4, |ordinal: int| bundle@[ordinal] as int)
}

impl AutoTrader {
    /// The place of the last book that expires at `expiry` and is of `station`.
    fn find_slot(&self, expiry: &String, station: Station) -> (r: Option<usize>)
        ensures
            match r {
                Some(i) => i == slot(
                    self.books@,
                    expiry@,
                    station.ordinal() as int,
                    self.books@.len() as int,
                ) && i < self.books@.len(),
                None => slot(
                    self.books@,
                    expiry@,
                    station.ordinal() as int,
                    self.books@.len() as int,
                ) == -1,
            },
    {
        let mut found: Option<usize> = None;
        let mut i: usize = 0;
        while i < self.books.len()
            invariant
                i <= self.books@.len(),
                match found {
                    Some(j) => j == slot(self.books@, expiry@, station.ordinal() as int, i as int)
                        && j < i,
                    None => slot(self.books@, expiry@, station.ordinal() as int, i as int) == -1,
                },
            decreases self.books@.len() - i,
        {
            if self.books[i].expiry == *expiry && self.books[i].station_id == station {
                found = Some(i);
            }
            i += 1;
        }
        found
    }

    /// Whether no book before place `i` expires when the book at `i` does.
    fn opens_expiry(&self, i: usize) -> (r: bool)
        requires
            i < self.books@.len(),
        ensures
            r == first_of_expiry(self.books@, i as int),
    {
        let mut j: usize = 0;
        while j < i
            invariant
                j <= i < self.books@.len(),
                forall|k: int| 0 <= k < j ==> (#[trigger] self.books@[k]).expiry@
                    != self.books@[i as int].expiry@,
            decreases i - j,
        {
            if self.books[j].expiry == self.books[i].expiry {
                return false;
            }
            j += 1;
        }
        true
    }

    /// The complete bundles: for each expiry that has a book of every station,
    /// the places of its four books by the ordinal of their station. Where an
    /// expiry has several books of one station, the last of them stands for it.
    /// The bundles come in the order in which their expiries first occur among
    /// the books.
    pub fn bundles(&self) -> (r: Vec<[usize; 4]>)
        ensures
            r@.len() == bundles_upto(self.books@, self.books@.len() as int).len(),
            forall|k: int|
                0 <= k < r@.len() ==> places(#[trigger] r@[k]) == bundles_upto(
                    self.books@,
                    self.books@.len() as int,
                )[k],
            forall|k: int, ordinal: int|
                0 <= k < r@.len() && 0 <= ordinal < 4 ==> (#[trigger] r@[k]@[ordinal])
                    < self.books@.len(),
    {
        let mut r: Vec<[usize; 4]> = Vec::new();
        let mut i: usize = 0;
        while i < self.books.len()
            invariant
                i <= self.books@.len(),
                r@.len() == bundles_upto(self.books@, i as int).len(),
                forall|k: int|
                    0 <= k < r@.len() ==> places(#[trigger] r@[k]) == bundles_upto(
                        self.books@,
                        i as int,
                    )[k],
                forall|k: int, ordinal: int|
                    0 <= k < r@.len() && 0 <= ordinal < 4 ==> (#[trigger] r@[k]@[ordinal])
                        < self.books@.len(),
            decreases self.books@.len() - i,
        {
            if self.opens_expiry(i) {
                let expiry: &String = &self.books[i].expiry;
                let first = self.find_slot(expiry, Station::SydAirport);
                let second = self.find_slot(expiry, Station::SydOlympicPark);
                let third = self.find_slot(expiry, Station::CanberraAirport);
                let fourth = self.find_slot(expiry, Station::Index);
                match (first, second, third, fourth) {
                    (Some(a), Some(b), Some(c), Some(d)) => {
                        let bundle: [usize; 4] = [a, b, c, d];
                        proof {
                            assert(places(bundle) =~= bundle_of(self.books@, expiry@));
                        }
                        r.push(bundle);
                    },
                    _ => {
                        proof {
                            let bundle = bundle_of(self.books@, expiry@);
                            assert(bundle[0] == -1 || bundle[1] == -1 || bundle[2] == -1
                                || bundle[3] == -1);
                        }
                    },
                }
            }
            i += 1;
        }
        r
    }
}

/// The gates with one installed for each of the first `upto` books whose product
/// has none: open where the trader's position in the book is within the limit.
pub open spec fn installed(gates: Map<Seq<char>, GateState>, books: Seq<Book>, upto: int) -> Map<
    Seq<char>,
    GateState,
>
    decreases upto,
{
    if upto <= 0 {
        gates
    } else {
        let before = installed(gates, books, upto - 1);
        let book = books[upto - 1];
        if before.contains_key(book.product@) {
            before
        } else {
            before.insert(
                book.product@,
                GateState {
                    enabled: within_limit(book.position.position as int),
                    pending_fill: None,
                },
            )
        }
    }
}

/// The gates with that of `product` shut, if it has one.
pub open spec fn shut(gates: Map<Seq<char>, GateState>, product: Seq<char>) -> Map<
    Seq<char>,
    GateState,
> {
    if gates.contains_key(product) {
        gates.insert(
            product,
            GateState { enabled: false, pending_fill: gates[product].pending_fill },
        )
    } else {
        gates
    }
}

/// Whether baskets may trade in `product`: it has a gate, which is open, and
/// awaits no fill.
pub open spec fn may_trade(gates: Map<Seq<char>, GateState>, product: Seq<char>) -> bool {
    gates.contains_key(product) && gates[product].enabled && gates[product].pending_fill.is_none()
}

/// Whether `product` has a gate that is open.
pub open spec fn is_enabled(gates: Map<Seq<char>, GateState>, product: Seq<char>) -> bool {
    gates.contains_key(product) && gates[product].enabled
}

/// The four books that a bundle names.
pub open spec fn bundle_books(books: Seq<Book>, bundle: Seq<int>) -> Seq<Book> {
    Seq::new(4, |ordinal: int| books[bundle[ordinal]])
}

/// The gates after the first `upto` orders of a basket are held against the
/// limit: the product of each order that may take the trader's position in its
/// book beyond the limit is shut.
pub open spec fn shut_breaching(
    gates: Map<Seq<char>, GateState>,
    index: Seq<Book>,
    orders: Seq<AddMessage>,
    upto: int,
) -> Map<Seq<char>, GateState>
    decreases upto,
{
    if upto <= 0 {
        gates
    } else {
        let before = shut_breaching(gates, index, orders, upto - 1);
        if breaches_limit(
            index[upto - 1].position.position as int,
            orders[upto - 1].volume.0 as int,
        ) {
            shut(before, index[upto - 1].product@)
        } else {
            before
        }
    }
}

/// The gates with those of the first `upto` books of a bundle shut.
pub open spec fn shut_all(gates: Map<Seq<char>, GateState>, index: Seq<Book>, upto: int) -> Map<
    Seq<char>,
    GateState,
>
    decreases upto,
{
    if upto <= 0 {
        gates
    } else {
        shut(shut_all(gates, index, upto - 1), index[upto - 1].product@)
    }
}

/// Whether baskets may trade in each of the first `upto` books of a bundle.
pub open spec fn all_may_trade(gates: Map<Seq<char>, GateState>, index: Seq<Book>, upto: int) -> bool
    decreases upto,
{
    upto <= 0 || (all_may_trade(gates, index, upto - 1) && may_trade(
        gates,
        index[upto - 1].product@,
    ))
}

/// Whether each of the first `upto` books of a bundle has an open gate.
pub open spec fn all_enabled(gates: Map<Seq<char>, GateState>, index: Seq<Book>, upto: int) -> bool
    decreases upto,
{
    upto <= 0 || (all_enabled(gates, index, upto - 1) && is_enabled(gates, index[upto - 1].product@))
}

/// What is decided for one bundle: the gates afterwards, and the basket to send,
/// empty where none is sent.
///
/// A bundle in which some product may not trade is passed over. Otherwise the
/// basket that trades at a profit of more than `edge` is looked for. Each of its
/// orders is held against the position limit, and the product of each order that
/// fails is shut. Where none fails, the basket is sent, and all four products
/// are shut until the exchange has answered.
pub open spec fn decide(gates: Map<Seq<char>, GateState>, index: Seq<Book>, edge: int) -> (
    Map<Seq<char>, GateState>,
    Seq<AddMessage>,
) {
    let orders = best_basket(index, edge);
    if !all_may_trade(gates, index, 4) || orders.len() == 0 {
        (gates, Seq::empty())
    } else {
        let marked = shut_breaching(gates, index, orders, 4);
        if all_enabled(marked, index, 4) {
            (shut_all(marked, index, 4), orders)
        } else {
            (marked, Seq::empty())
        }
    }
}

/// What is decided for the first `upto` bundles, one after the other: the gates
/// afterwards, and the baskets to send.
pub open spec fn decide_all(
    gates: Map<Seq<char>, GateState>,
    books: Seq<Book>,
    bundles: Seq<Seq<int>>,
    edge: int,
    upto: int,
) -> (Map<Seq<char>, GateState>, Seq<Seq<AddMessage>>)
    decreases upto,
{
    if upto <= 0 {
        (gates, Seq::empty())
    } else {
        let before = decide_all(gates, books, bundles, edge, upto - 1);
        let decided = decide(before.0, bundle_books(books, bundles[upto - 1]), edge);
        (
            decided.0,
            if decided.1.len() > 0 {
                before.1.push(decided.1)
            } else {
                before.1
            },
        )
    }
}

impl AutoTrader {
    /// Gives every book a gate that has none.
    fn install_gates(&self, gates: &mut Gates)
        requires
            old(gates).wf(),
        ensures
            final(gates).wf(),
            final(gates)@ == installed(old(gates)@, self.books@, self.books@.len() as int),
    {
        let mut i: usize = 0;
        while i < self.books.len()
            invariant
                i <= self.books@.len(),
                gates.wf(),
                gates@ == installed(old(gates)@, self.books@, i as int),
            decreases self.books@.len() - i,
        {
            gates.install(&self.books[i].product, self.books[i].position.position);
            i += 1;
        }
    }

    /// Decides on one bundle.
    fn decide_bundle(&self, bundle: &[usize; 4], gates: &mut Gates, min_edge: Price) -> (orders: Vec<
        AddMessage,
    >)
        requires
            self.wf(),
            old(gates).wf(),
            forall|ordinal: int| 0 <= ordinal < 4 ==> (#[trigger] bundle@[ordinal]) < self.books@.len(),
        ensures
            final(gates).wf(),
            (final(gates)@, orders@) == decide(
                old(gates)@,
                bundle_books(self.books@, places(*bundle)),
                min_edge.0 as int,
            ),
            orders@.len() == 0 || orders@.len() == 4,
    {
        let index: [&Book; 4] = [
            &self.books[bundle[0]],
            &self.books[bundle[1]],
            &self.books[bundle[2]],
            &self.books[bundle[3]],
        ];
        let ghost books = bundle_books(self.books@, places(*bundle));
        proof {
            assert(books_of(&index) =~= books);
        }
        let mut k: usize = 0;
        let mut open: bool = true;
        while k < 4
            invariant
                k <= 4,
                gates.wf(),
                books_of(&index) == books,
                open == all_may_trade(gates@, books, k as int),
            decreases 4 - k,
        {
            let here: bool = gates.is_open(&index[k].product);
            open = open && here;
            k += 1;
        }
        if !open {
            return Vec::new();
        }
        let orders = find_arbs(&index, min_edge);
        if orders.len() == 0 {
            return orders;
        }
        proof {
            lemma_basket_crosses(books, Strategy::BuyUnderlyingSellIndex, min_edge.0 as int);
            lemma_basket_crosses(books, Strategy::BuyIndexSellUnderlying, min_edge.0 as int);
        }
        let ghost start = gates@;
        let mut k: usize = 0;
        while k < 4
            invariant
                k <= 4,
                gates.wf(),
                books_of(&index) == books,
                orders@.len() == 4,
                gates@ == shut_breaching(start, books, orders@, k as int),
            decreases 4 - k,
        {
            if is_breaching(index[k].position.position, orders[k].volume) {
                gates.set_enabled(&index[k].product, false);
            }
            k += 1;
        }
        let ghost marked = gates@;
        let mut k: usize = 0;
        let mut enabled: bool = true;
        while k < 4
            invariant
                k <= 4,
                gates.wf(),
                gates@ == marked,
                books_of(&index) == books,
                enabled == all_enabled(marked, books, k as int),
            decreases 4 - k,
        {
            let here: bool = gates.is_enabled(&index[k].product);
            enabled = enabled && here;
            k += 1;
        }
        if !enabled {
            return Vec::new();
        }
        let mut k: usize = 0;
        while k < 4
            invariant
                k <= 4,
                gates.wf(),
                books_of(&index) == books,
                gates@ == shut_all(marked, books, k as int),
            decreases 4 - k,
        {
            gates.set_enabled(&index[k].product, false);
            k += 1;
        }
        orders
    }

    /// Decides what to send after a message of the live feed was applied.
    ///
    /// Every book whose product has no gate yet is given one, open where the
    /// trader's position in the book is within the limit. Then the complete
    /// bundles are gone through in their order, and `decide` is taken on each.
    /// Returned are the baskets to send, each of four orders, one for each book of
    /// its bundle. The products of a basket are shut; `Gates::acknowledge` opens
    /// each again when the exchange has answered its order.
    pub fn dispatch(&self, gates: &mut Gates, min_edge: Price) -> (baskets: Vec<Vec<AddMessage>>)
        requires
            self.wf(),
            old(gates).wf(),
        ensures
            final(gates).wf(),
            ({
                let books = self.books@;
                let bundles = bundles_upto(books, books.len() as int);
                let decided = decide_all(
                    installed(old(gates)@, books, books.len() as int),
                    books,
                    bundles,
                    min_edge.0 as int,
                    bundles.len() as int,
                );
                &&& final(gates)@ == decided.0
                &&& baskets@.len() == decided.1.len()
                &&& forall|k: int| 0 <= k < baskets@.len() ==> (#[trigger] baskets@[k])@ == decided.1[k]
            }),
            // No basket is sent in part.
            forall|k: int| 0 <= k < baskets@.len() ==> (#[trigger] baskets@[k])@.len() == 4,
    {
        self.install_gates(gates);
        let bundles = self.bundles();
        let ghost start = gates@;
        let ghost all = bundles_upto(self.books@, self.books@.len() as int);
        let mut baskets: Vec<Vec<AddMessage>> = Vec::new();
        let mut i: usize = 0;
        while i < bundles.len()
            invariant
                i <= bundles@.len(),
                self.wf(),
                gates.wf(),
                bundles@.len() == all.len(),
                forall|k: int| 0 <= k < bundles@.len() ==> places(#[trigger] bundles@[k]) == all[k],
                forall|k: int, ordinal: int|
                    0 <= k < bundles@.len() && 0 <= ordinal < 4 ==> (
                    #[trigger] bundles@[k]@[ordinal]) < self.books@.len(),
                gates@ == decide_all(start, self.books@, all, min_edge.0 as int, i as int).0,
                baskets@.len() == decide_all(
                    start,
                    self.books@,
                    all,
                    min_edge.0 as int,
                    i as int,
                ).1.len(),
                forall|k: int|
                    0 <= k < baskets@.len() ==> (#[trigger] baskets@[k])@ == decide_all(
                        start,
                        self.books@,
                        all,
                        min_edge.0 as int,
                        i as int,
                    ).1[k],
                forall|k: int| 0 <= k < baskets@.len() ==> (#[trigger] baskets@[k])@.len() == 4,
            decreases bundles@.len() - i,
        {
            let orders = self.decide_bundle(&bundles[i], gates, min_edge);
            if orders.len() > 0 {
                baskets.push(orders);
            }
            i += 1;
        }
        baskets
    }
}

} // verus!
