//! Order-book replica and index-arbitrage search for weather-index futures.
//!
//! Four futures that expire together make up a bundle: three on the weather at a
//! station each, and one on an index that is worth what the three are worth
//! together. Where the index trades away from that sum, a basket of four orders
//! takes the difference.
//!
//! The crate keeps a replica of every order book from the exchange's feed
//! ([`autotrader`], [`book`], [`ladder`]), finds the baskets that trade at a
//! profit ([`arbitrage`]), and decides which of them to send ([`dispatcher`],
//! [`gates`]). It reads and writes prices as the exchange does ([`decimal`]),
//! checks the invariants of a replica at run time ([`audit`]), and shows that a
//! replay is a function of its messages ([`determinism`]). Every function is
//! verified against the contract it states.

pub mod arbitrage;
pub mod audit;
pub mod autotrader;
pub mod book;
pub mod decimal;
pub mod determinism;
pub mod dispatcher;
pub mod feed;
pub mod gates;
pub mod ladder;
pub mod order;
pub mod sums;
pub mod types;
