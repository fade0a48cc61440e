//! Messages of the order-entry interface: what is sent to the exchange to place or
//! withdraw orders, and what it answers.

use crate::types::{Price, Side, Username, Volume};
use vstd::prelude::*;

verus! {

/// Kind of a request to the exchange.
#[derive(Debug, Clone, Copy, PartialEq, Eq, Structural)]
pub enum MessageType {
    Add,
    Delete,
    BulkDelete,
}

/// How long an order lives: for the day, or immediate-or-cancel.
#[derive(Debug, Clone, Copy, PartialEq, Eq, Structural)]
pub enum OrderType {
    Day,
    Ioc,
}

/// Request to place an order.
#[derive(Debug, PartialEq, Eq)]
pub struct AddMessage {
    pub message_type: MessageType,
    pub product: String,
    pub price: Price,
    pub side: Side,
    pub volume: Volume,
    pub order_type: OrderType,
}

impl Clone for AddMessage {
    fn clone(&self) -> (r: AddMessage)
        ensures
            r == *self,
    {
        AddMessage {
            message_type: self.message_type,
            product: self.product.clone(),
            price: self.price,
            side: self.side,
            volume: self.volume,
            order_type: self.order_type,
        }
    }
}

/// The exchange's answer to an `AddMessage`: what was filled at once and what
/// rests.
#[derive(Debug, PartialEq, Eq)]
pub struct OrderAddedMessage {
    pub id: String,
    pub side: Side,
    pub price: Price,
    pub filled: Volume,
    pub resting: Volume,
    pub owner: Username,
}

/// Request to withdraw one order.
#[derive(Debug, PartialEq, Eq)]
pub struct DeleteMessage {
    pub message_type: MessageType,
    pub product: String,
    pub id: String,
}

/// Request to withdraw every order of the sender in one product.
#[derive(Debug, PartialEq, Eq)]
pub struct BulkDeleteMessage {
    pub message_type: MessageType,
    pub product: String,
}

} // verus!
