//! Numeric and identity types shared by the whole crate: order side, fixed-point
//! price, volume, trader name and weather station.

use vstd::prelude::*;

verus! {

/// Side of an order or of a ladder.
#[derive(Debug, Clone, Copy, PartialEq, Eq, Structural, Hash)]
pub enum Side {
    Buy,
    Sell,
}

impl Side {
    /// The other side.
    pub open spec fn spec_opposite(self) -> Side {
        match self {
            Side::Buy => Side::Sell,
            Side::Sell => Side::Buy,
        }
    }

    #[verifier::when_used_as_spec(spec_opposite)]
    pub fn opposite(self) -> (r: Side)
        ensures
            r == self.spec_opposite(),
    {
        match self {
            Side::Buy => Side::Sell,
            Side::Sell => Side::Buy,
        }
    }
}

/// A price in hundredths of a unit.
#[derive(Debug, Clone, Copy, PartialEq, Eq, Structural, PartialOrd, Ord, Hash)]
pub struct Price(pub u16);

impl Default for Price {
    fn default() -> (r: Price)
        ensures
            r == Price(0),
    {
        Price(0)
    }
}

impl Price {
    /// Sum of two prices, or `None` when it does not fit in sixteen bits.
    pub fn checked_add(self, rhs: Price) -> (r: Option<Price>)
        ensures
            self.0 + rhs.0 <= u16::MAX ==> r == Some(Price((self.0 + rhs.0) as u16)),
            self.0 + rhs.0 > u16::MAX ==> r.is_none(),
    {
        if self.0 <= u16::MAX - rhs.0 {
            Some(Price(self.0 + rhs.0))
        } else {
            None
        }
    }

    /// Difference of two prices, or `None` when it would be negative.
    pub fn checked_sub(self, rhs: Price) -> (r: Option<Price>)
        ensures
            self.0 >= rhs.0 ==> r == Some(Price((self.0 - rhs.0) as u16)),
            self.0 < rhs.0 ==> r.is_none(),
    {
        if self.0 >= rhs.0 {
            Some(Price(self.0 - rhs.0))
        } else {
            None
        }
    }
}

/// A number of contracts.
#[derive(Debug, Clone, Copy, PartialEq, Eq, Structural, PartialOrd, Ord, Hash)]
pub struct Volume(pub u16);

impl Default for Volume {
    fn default() -> (r: Volume)
        ensures
            r == Volume(0),
    {
        Volume(0)
    }
}

impl Volume {
    /// The largest volume; the start value when a minimum is accumulated.
    pub fn largest() -> (r: Volume)
        ensures
            r.0 == u16::MAX,
    {
        Volume(u16::MAX)
    }

    /// Sum of two volumes, or `None` when it does not fit in sixteen bits.
    pub fn checked_add(self, rhs: Volume) -> (r: Option<Volume>)
        ensures
            self.0 + rhs.0 <= u16::MAX ==> r == Some(Volume((self.0 + rhs.0) as u16)),
            self.0 + rhs.0 > u16::MAX ==> r.is_none(),
    {
        if self.0 <= u16::MAX - rhs.0 {
            Some(Volume(self.0 + rhs.0))
        } else {
            None
        }
    }

    /// Difference of two volumes, or `None` when it would be negative.
    pub fn checked_sub(self, rhs: Volume) -> (r: Option<Volume>)
        ensures
            self.0 >= rhs.0 ==> r == Some(Volume((self.0 - rhs.0) as u16)),
            self.0 < rhs.0 ==> r.is_none(),
    {
        if self.0 >= rhs.0 {
            Some(Volume(self.0 - rhs.0))
        } else {
            None
        }
    }

    /// Sum of two volumes, held at the largest volume when it does not fit.
    pub fn saturating_add(self, rhs: Volume) -> (r: Volume)
        ensures
            r.0 == if self.0 + rhs.0 <= u16::MAX {
                self.0 + rhs.0
            } else {
                u16::MAX as int
            },
    {
        if self.0 <= u16::MAX - rhs.0 {
            Volume(self.0 + rhs.0)
        } else {
            Volume(u16::MAX)
        }
    }

    /// Difference of two volumes, held at zero when it would be negative.
    pub fn saturating_sub(self, rhs: Volume) -> (r: Volume)
        ensures
            r.0 == if self.0 >= rhs.0 {
                self.0 - rhs.0
            } else {
                0
            },
    {
        if self.0 >= rhs.0 {
            Volume(self.0 - rhs.0)
        } else {
            Volume(0)
        }
    }

    /// The smaller of two volumes.
    pub fn min(self, rhs: Volume) -> (r: Volume)
        ensures
            r.0 <= self.0,
            r.0 <= rhs.0,
            r == self || r == rhs,
    {
        if self.0 <= rhs.0 {
            self
        } else {
            rhs
        }
    }
}

/// Name of an exchange account.
#[derive(Debug, PartialEq, Eq, Hash)]
pub struct Username(pub String);

impl View for Username {
    type V = Seq<char>;

    open spec fn view(&self) -> Seq<char> {
        self.0@
    }
}

impl Clone for Username {
    fn clone(&self) -> (r: Username)
        ensures
            r == *self,
    {
        Username(self.0.clone())
    }
}

impl Username {
    /// The account of the given name.
    pub fn new(name: &str) -> (r: Username)
        ensures
            r@ == name@,
    {
        Username(name.to_owned())
    }

    /// Whether both names are the same account.
    pub fn is(&self, other: &Username) -> (r: bool)
        ensures
            r == (self@ == other@),
    {
        self.0 == other.0
    }
}

/// The products of one bundle: three weather stations and the index over them.
#[derive(Debug, Clone, Copy, PartialEq, Eq, Structural, Hash)]
pub enum Station {
    SydAirport,
    SydOlympicPark,
    CanberraAirport,
    Index,
}

impl Station {
    /// Place of the station in a bundle: 0, 1, 2 for the underlying stations and 3
    /// for the index.
    pub open spec fn spec_ordinal(self) -> usize {
        match self {
            Station::SydAirport => 0,
            Station::SydOlympicPark => 1,
            Station::CanberraAirport => 2,
            Station::Index => 3,
        }
    }

    #[verifier::when_used_as_spec(spec_ordinal)]
    pub fn ordinal(self) -> (r: usize)
        ensures
            r == self.spec_ordinal(),
            r < 4,
    {
        match self {
            Station::SydAirport => 0,
            Station::SydOlympicPark => 1,
            Station::CanberraAirport => 2,
            Station::Index => 3,
        }
    }

    /// The station that the exchange numbers `id`, if it is one of the four.
    pub open spec fn spec_from_id(id: u64) -> Option<Station> {
        if id == 66037 {
            Some(Station::SydAirport)
        } else if id == 66212 {
            Some(Station::SydOlympicPark)
        } else if id == 70351 {
            Some(Station::CanberraAirport)
        } else if id == 1 {
            Some(Station::Index)
        } else {
            None
        }
    }

    /// Decodes the exchange's station number; `None` for a number that names no
    /// station of a bundle.
    #[verifier::when_used_as_spec(spec_from_id)]
    pub fn from_id(id: u64) -> (r: Option<Station>)
        ensures
            r == Station::spec_from_id(id),
    {
        if id == 66037 {
            Some(Station::SydAirport)
        } else if id == 66212 {
            Some(Station::SydOlympicPark)
        } else if id == 70351 {
            Some(Station::CanberraAirport)
        } else if id == 1 {
            Some(Station::Index)
        } else {
            None
        }
    }

    /// The exchange's number of the station.
    pub fn id(self) -> (r: u64)
        ensures
            Station::spec_from_id(r) == Some(self),
    {
        match self {
            Station::SydAirport => 66037,
            Station::SydOlympicPark => 66212,
            Station::CanberraAirport => 70351,
            Station::Index => 1,
        }
    }
}

} // verus!
