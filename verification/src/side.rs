//! The two sides of the book.

use vstd::prelude::*;

verus! {

/// Which side of the book an order belongs to.
#[derive(Debug, PartialEq, Eq, Clone, Copy, Structural)]
pub enum Side {
    Buy,
    Sell,
}

impl From<bool> for Side {
    /// The side for a flag that is true for buys.
    fn from(b: bool) -> (r: Self) {
        if b {
            Self::Buy
        } else {
            Self::Sell
        }
    }
}

impl vstd::std_specs::convert::FromSpecImpl<bool> for Side {
    open spec fn obeys_from_spec() -> bool {
        true
    }

    open spec fn from_spec(b: bool) -> Self {
        if b {
            Side::Buy
        } else {
            Side::Sell
        }
    }
}

impl Side {
    /// Whether this is the bid side.
    pub fn is_buy(&self) -> (r: bool)
        ensures
            r <==> *self == Side::Buy,
    {
        match self {
            Side::Buy => true,
            Side::Sell => false,
        }
    }

    /// The side for a flag that is true for buys.
    pub fn from_is_buy(is_buy: bool) -> (r: Self)
        ensures
            r == (if is_buy { Side::Buy } else { Side::Sell }),
    {
        match is_buy {
            true => Self::Buy,
            false => Self::Sell,
        }
    }

    /// The side an order of this side trades against.
    pub open spec fn spec_opposite(self) -> Side {
        match self {
            Side::Buy => Side::Sell,
            Side::Sell => Side::Buy,
        }
    }

    /// The side an order of this side trades against.
    #[verifier::when_used_as_spec(spec_opposite)]
    pub fn opposite(self) -> (r: Side)
        ensures
            r == self.spec_opposite(),
    {
        match self {
            Side::Buy => Side::Sell,
            Side::Sell => Side::Buy,
        }
    }
}

} // verus!
