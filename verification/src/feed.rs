//! Messages of the market-data feed. Each carries the sequence number under which
//! the exchange published it.

use crate::types::{Price, Side, Station, Username, Volume};
use vstd::prelude::*;

verus! {

/// A message that carries a sequence number.
pub trait HasSequence {
    /// The sequence number the message was published under.
    spec fn spec_sequence(&self) -> u32;

    fn sequence(&self) -> (r: u32)
        ensures
            r == self.spec_sequence(),
    ;
}

/// Who crossed the spread in a trade, or that the trade was arranged off the book.
#[derive(Debug, Clone, Copy, PartialEq, Eq, Structural)]
pub enum TradeType {
    SellAggressor,
    BuyAggressor,
    BrokerTrade,
}

/// A product was listed.
#[derive(Debug, PartialEq, Eq)]
pub struct FutureMessage {
    pub product: String,
    pub station_id: Station,
    pub station_name: String,
    pub expiry: String,
    pub halt_time: String,
    pub sequence: u32,
}

/// An order came to rest in a book.
#[derive(Debug, PartialEq, Eq)]
pub struct AddedMessage {
    pub product: String,
    pub id: String,
    pub side: Side,
    pub price: Price,
    pub filled: Volume,
    pub resting: Volume,
    pub owner: Username,
    pub sequence: u32,
}

/// A resting order left a book.
#[derive(Debug, PartialEq, Eq)]
pub struct DeletedMessage {
    pub product: String,
    pub id: String,
    pub side: Side,
    pub sequence: u32,
}

/// Two accounts traded.
#[derive(Debug, PartialEq, Eq)]
pub struct TradeMessage {
    pub product: String,
    pub price: Price,
    pub volume: Volume,
    pub buyer: Username,
    pub seller: Username,
    pub trade_type: TradeType,
    pub passive_order: String,
    pub passive_order_remaining: Volume,
    pub aggressor_order: String,
    pub sequence: u32,
}

/// A product settled at a price.
#[derive(Debug, PartialEq, Eq)]
pub struct SettlementMessage {
    pub product: String,
    pub station_name: String,
    pub expiry: String,
    pub price: Price,
    pub sequence: u32,
}

/// An index was defined over stations.
#[derive(Debug, PartialEq, Eq)]
pub struct IndexMessage {
    pub index_id: u32,
    pub index_name: String,
    pub station_ids: Vec<Station>,
    pub sequence: u32,
}

/// Trading in a product stopped.
#[derive(Debug, PartialEq, Eq)]
pub struct TradingHaltMessage {
    pub product: String,
    pub sequence: u32,
}

/// Any message of the feed.
#[derive(Debug, PartialEq, Eq)]
pub enum Message {
    Future(FutureMessage),
    Added(AddedMessage),
    Deleted(DeletedMessage),
    Trade(TradeMessage),
    Settlement(SettlementMessage),
    Index(IndexMessage),
    TradingHalt(TradingHaltMessage),
}

impl HasSequence for Message {
    open spec fn spec_sequence(&self) -> u32 {
        match self {
            Message::Future(message) => message.sequence,
            Message::Added(message) => message.sequence,
            Message::Deleted(message) => message.sequence,
            Message::Trade(message) => message.sequence,
            Message::Settlement(message) => message.sequence,
            Message::Index(message) => message.sequence,
            Message::TradingHalt(message) => message.sequence,
        }
    }

    fn sequence(&self) -> (r: u32) {
        match self {
            Message::Future(message) => message.sequence,
            Message::Added(message) => message.sequence,
            Message::Deleted(message) => message.sequence,
            Message::Trade(message) => message.sequence,
            Message::Settlement(message) => message.sequence,
            Message::Index(message) => message.sequence,
            Message::TradingHalt(message) => message.sequence,
        }
    }
}

} // verus!
