//! A gate for each product: whether baskets may trade in it. A gate is shut
//! while an order of the trader is on its way to the exchange, and a product is
//! held back while a fill of the trader has not yet shown in the feed.

use crate::order::OrderAddedMessage;
use crate::types::Volume;
use vstd::prelude::*;

verus! {

/// The largest position, long or short, that the trader takes in one product.
pub const POSITION_LIMIT: i16 = 1000;

/// Whether a position is within the limit.
pub open spec fn within_limit(position: int) -> bool {
    -POSITION_LIMIT <= position <= POSITION_LIMIT
}

/// Whether an order of `volume` may take a position beyond the limit: a long
/// position that would pass the limit were the volume bought, or a short one that
/// would pass it were the volume sold.
pub open spec fn breaches_limit(position: int, volume: int) -> bool {
    (position > 0 && position + volume > POSITION_LIMIT) || (position < 0 && position - volume
        < -POSITION_LIMIT)
}

/// Whether a position is within the limit.
pub fn is_within_limit(position: i16) -> (r: bool)
    ensures
        r == within_limit(position as int),
{
    -POSITION_LIMIT <= position && position <= POSITION_LIMIT
}

/// Whether an order of `volume` may take a position beyond the limit.
pub fn is_breaching(position: i16, volume: Volume) -> (r: bool)
    ensures
        r == breaches_limit(position as int, volume.0 as int),
{
    let limit: i32 = POSITION_LIMIT as i32;
    (position > 0 && position as i32 + volume.0 as i32 > limit) || (position < 0 && position as i32
        - (volume.0 as i32) < -limit)
}

/// What a gate says of its product.
pub struct GateState {
    /// Whether baskets may trade in the product.
    pub enabled: bool,
    /// The order of the trader whose fill the feed has yet to show.
    pub pending_fill: Option<Seq<char>>,
}

/// One product's gate.
#[derive(Debug, PartialEq, Eq)]
pub struct Gate {
    pub product: String,
    pub enabled: bool,
    pub pending_fill: Option<String>,
}

impl View for Gate {
    type V = GateState;

    open spec fn view(&self) -> GateState {
        GateState {
            enabled: self.enabled,
            pending_fill: match self.pending_fill {
                Some(id) => Some(id@),
                None => None,
            },
        }
    }
}

/// Whether a gate for `product` is among `entries`.
pub open spec fn has_gate(entries: Seq<Gate>, product: Seq<char>) -> bool {
    exists|i: int| 0 <= i < entries.len() && #[trigger] entries[i].product@ == product
}

/// The place among `entries` of a gate for `product`.
pub open spec fn gate_place(entries: Seq<Gate>, product: Seq<char>) -> int {
    choose|i: int| 0 <= i < entries.len() && #[trigger] entries[i].product@ == product
}

/// No two gates are for the same product.
pub open spec fn distinct_products(entries: Seq<Gate>) -> bool {
    forall|i: int, j: int| 0 <= i < j < entries.len() ==> entries[i].product@ != entries[j].product@
}

/// The gates by product.
pub open spec fn gate_map(entries: Seq<Gate>) -> Map<Seq<char>, GateState> {
    Map::new(
        |product: Seq<char>| has_gate(entries, product),
        |product: Seq<char>| entries[gate_place(entries, product)]@,
    )
}

/// The gates of all products that were seen.
#[derive(Debug, PartialEq, Eq)]
pub struct Gates {
    entries: Vec<Gate>,
}

impl View for Gates {
    type V = Map<Seq<char>, GateState>;

    closed spec fn view(&self) -> Map<Seq<char>, GateState> {
        gate_map(self.entries@)
    }
}

impl Gates {
    /// No product has two gates.
    pub closed spec fn wf(&self) -> bool {
        distinct_products(self.entries@)
    }

    /// Whether baskets may trade in `product` now: its gate is open and no fill
    /// is awaited.
    pub open spec fn open_for(&self, product: Seq<char>) -> bool {
        self@.contains_key(product) && self@[product].enabled && self@[product].pending_fill.is_none()
    }

    /// Whether `product` has an open gate, be a fill awaited or not.
    pub open spec fn enabled_for(&self, product: Seq<char>) -> bool {
        self@.contains_key(product) && self@[product].enabled
    }

    /// No gates.
    pub fn new() -> (r: Gates)
        ensures
            r.wf(),
            r@ == Map::<Seq<char>, GateState>::empty(),
    {
        let r = Gates { entries: Vec::new() };
        assert(r@ =~= Map::<Seq<char>, GateState>::empty());
        r
    }

    /// The place of a gate for `product`.
    fn find(&self, product: &String) -> (r: Option<usize>)
        requires
            self.wf(),
        ensures
            match r {
                Some(i) => i < self.entries@.len() && self.entries@[i as int].product@ == product@
                    && i == gate_place(self.entries@, product@) && self@.contains_key(product@)
                    && self@[product@] == self.entries@[i as int]@,
                None => !has_gate(self.entries@, product@) && !self@.contains_key(product@),
            },
    {
        let mut i: usize = 0;
        while i < self.entries.len()
            invariant
                self.wf(),
                i <= self.entries@.len(),
                forall|j: int| 0 <= j < i ==> self.entries@[j].product@ != product@,
            decreases self.entries@.len() - i,
        {
            if self.entries[i].product == *product {
                proof {
                    let j = gate_place(self.entries@, product@);
                    assert(self.entries@[i as int].product@ == product@);
                    assert(self.entries@[j].product@ == product@);
                    assert(j == i);
                }
                return Some(i);
            }
            i += 1;
        }
        None
    }

    /// Whether baskets may trade in `product` now.
    pub fn is_open(&self, product: &String) -> (r: bool)
        requires
            self.wf(),
        ensures
            r == self.open_for(product@),
    {
        match self.find(product) {
            Some(i) => self.entries[i].enabled && self.entries[i].pending_fill.is_none(),
            None => false,
        }
    }

    /// Whether `product` has an open gate.
    pub fn is_enabled(&self, product: &String) -> (r: bool)
        requires
            self.wf(),
        ensures
            r == self.enabled_for(product@),
    {
        match self.find(product) {
            Some(i) => self.entries[i].enabled,
            None => false,
        }
    }

    /// Gives `product` a gate where it has none: open where the trader's
    /// `position` in it is within the limit, and with no fill awaited.
    pub fn install(&mut self, product: &String, position: i16)
        requires
            old(self).wf(),
        ensures
            final(self).wf(),
            final(self)@ == if old(self)@.contains_key(product@) {
                old(self)@
            } else {
                old(self)@.insert(
                    product@,
                    GateState { enabled: within_limit(position as int), pending_fill: None },
                )
            },
    {
        if self.find(product).is_none() {
            let ghost before = self.entries@;
            let gate = Gate {
                product: product.clone(),
                enabled: is_within_limit(position),
                pending_fill: None,
            };
            self.entries.push(gate);
            proof {
                lemma_gate_pushed(before, gate);
            }
        }
    }

    /// Opens or shuts a product's gate, if it has one.
    pub fn set_enabled(&mut self, product: &String, enabled: bool)
        requires
            old(self).wf(),
        ensures
            final(self).wf(),
            final(self)@ == if old(self)@.contains_key(product@) {
                old(self)@.insert(
                    product@,
                    GateState { enabled, pending_fill: old(self)@[product@].pending_fill },
                )
            } else {
                old(self)@
            },
    {
        match self.find(product) {
            Some(i) => {
                let ghost before = self.entries@;
                self.entries[i].enabled = enabled;
                proof {
                    lemma_gate_changed(before, self.entries@, i as int);
                }
            },
            None => {},
        }
    }

    /// Takes the exchange's answer to an order in `product`: where any of the
    /// order was filled, its fill is awaited from the feed; and its gate opens
    /// again. Nothing happens where the product has no gate any more.
    pub fn acknowledge(&mut self, product: &String, answer: OrderAddedMessage)
        requires
            old(self).wf(),
        ensures
            final(self).wf(),
            final(self)@ == if old(self)@.contains_key(product@) {
                old(self)@.insert(
                    product@,
                    GateState {
                        enabled: true,
                        pending_fill: if answer.filled.0 > 0 {
                            Some(answer.id@)
                        } else {
                            old(self)@[product@].pending_fill
                        },
                    },
                )
            } else {
                old(self)@
            },
    {
        match self.find(product) {
            Some(i) => {
                let ghost before = self.entries@;
                self.entries[i].enabled = true;
                if answer.filled.0 > 0 {
                    self.entries[i].pending_fill = Some(answer.id);
                }
                proof {
                    lemma_gate_changed(before, self.entries@, i as int);
                }
            },
            None => {},
        }
    }

    /// Stops waiting for a fill in `product` where the awaited order is
    /// `aggressor_order`, the aggressor of a trade that the feed has shown.
    pub fn clear_fill(&mut self, product: &String, aggressor_order: &String)
        requires
            old(self).wf(),
        ensures
            final(self).wf(),
            final(self)@ == if old(self)@.contains_key(product@) && old(self)@[product@].pending_fill
                == Some(aggressor_order@) {
                old(self)@.insert(
                    product@,
                    GateState { enabled: old(self)@[product@].enabled, pending_fill: None },
                )
            } else {
                old(self)@
            },
    {
        match self.find(product) {
            Some(i) => {
                let awaited: bool = match &self.entries[i].pending_fill {
                    Some(id) => *id == *aggressor_order,
                    None => false,
                };
                if awaited {
                    let ghost before = self.entries@;
                    self.entries[i].pending_fill = None;
                    proof {
                        lemma_gate_changed(before, self.entries@, i as int);
                    }
                }
            },
            None => {},
        }
    }

    /// Forgets a product's gate.
    pub fn remove(&mut self, product: &String)
        requires
            old(self).wf(),
        ensures
            final(self).wf(),
            final(self)@ == old(self)@.remove(product@),
    {
        match self.find(product) {
            Some(i) => {
                let ghost before = self.entries@;
                self.entries.remove(i);
                proof {
                    lemma_gate_removed(before, i as int);
                }
            },
            None => {
                assert(self@ =~= self@.remove(product@));
            },
        }
    }
}

/// What a gate that is added for a new product does to the gates by product.
proof fn lemma_gate_pushed(entries: Seq<Gate>, gate: Gate)
    requires
        distinct_products(entries),
        !has_gate(entries, gate.product@),
    ensures
        distinct_products(entries.push(gate)),
        gate_map(entries.push(gate)) == gate_map(entries).insert(gate.product@, gate@),
{
    let after = entries.push(gate);
    assert forall|product: Seq<char>| has_gate(after, product) <==> (has_gate(entries, product)
        || product == gate.product@) by {
        if has_gate(entries, product) {
            let i = gate_place(entries, product);
            assert(after[i].product@ == product);
        }
        if product == gate.product@ {
            assert(after[entries.len() as int].product@ == product);
        }
        if has_gate(after, product) {
            let i = gate_place(after, product);
            if i < entries.len() {
                assert(entries[i].product@ == product);
            }
        }
    }
    assert forall|product: Seq<char>| has_gate(after, product) implies #[trigger] gate_map(
        after,
    )[product] == gate_map(entries).insert(gate.product@, gate@)[product] by {
        let i = gate_place(after, product);
        if product != gate.product@ {
            let j = gate_place(entries, product);
            assert(after[j].product@ == product);
        }
    }
    assert(gate_map(after) =~= gate_map(entries).insert(gate.product@, gate@));
}

/// What a change to one gate, which stays with its product, does to the gates by
/// product.
proof fn lemma_gate_changed(entries: Seq<Gate>, after: Seq<Gate>, i: int)
    requires
        distinct_products(entries),
        0 <= i < entries.len(),
        after.len() == entries.len(),
        after[i].product == entries[i].product,
        forall|j: int| 0 <= j < entries.len() && j != i ==> after[j] == entries[j],
    ensures
        distinct_products(after),
        gate_map(after) == gate_map(entries).insert(entries[i].product@, after[i]@),
{
    assert forall|j: int| 0 <= j < entries.len() implies (#[trigger] after[j]).product
        == entries[j].product by {}
    assert forall|product: Seq<char>| has_gate(after, product) <==> has_gate(entries, product) by {
        if has_gate(entries, product) {
            let j = gate_place(entries, product);
            assert(after[j].product@ == product);
        }
        if has_gate(after, product) {
            let j = gate_place(after, product);
            assert(entries[j].product@ == product);
        }
    }
    assert(has_gate(entries, entries[i].product@));
    assert forall|product: Seq<char>| has_gate(after, product) implies #[trigger] gate_map(
        after,
    )[product] == gate_map(entries).insert(entries[i].product@, after[i]@)[product] by {
        let j = gate_place(after, product);
        let k = gate_place(entries, product);
        assert(entries[j].product@ == product);
    }
    assert(gate_map(after) =~= gate_map(entries).insert(entries[i].product@, after[i]@));
}

/// What taking a gate out does to the gates by product.
proof fn lemma_gate_removed(entries: Seq<Gate>, i: int)
    requires
        distinct_products(entries),
        0 <= i < entries.len(),
    ensures
        distinct_products(entries.remove(i)),
        gate_map(entries.remove(i)) == gate_map(entries).remove(entries[i].product@),
{
    let after = entries.remove(i);
    assert forall|j: int| 0 <= j < after.len() implies (#[trigger] after[j]) == entries[if j < i {
        j
    } else {
        j + 1
    }] by {}
    assert forall|product: Seq<char>| has_gate(after, product) <==> (has_gate(entries, product)
        && product != entries[i].product@) by {
        if has_gate(entries, product) && product != entries[i].product@ {
            let j = gate_place(entries, product);
            if j < i {
                assert(after[j].product@ == product);
            } else {
                assert(after[j - 1].product@ == product);
            }
        }
        if has_gate(after, product) {
            let j = gate_place(after, product);
            let k = if j < i {
                j
            } else {
                j + 1
            };
            assert(entries[k].product@ == product);
        }
    }
    assert forall|product: Seq<char>| has_gate(after, product) implies #[trigger] gate_map(
        after,
    )[product] == gate_map(entries).remove(entries[i].product@)[product] by {
        let j = gate_place(after, product);
        let k = gate_place(entries, product);
        let m = if j < i {
            j
        } else {
            j + 1
        };
        assert(entries[m].product@ == product);
    }
    assert(gate_map(after) =~= gate_map(entries).remove(entries[i].product@));
}

} // verus!
