//! A ledger-and-marketplace engine: fungible balances per account, uniquely
//! owned tokens, and a listing/purchase workflow on top of both.
//!
//! Every operation takes the identity of its caller as an explicit argument,
//! so the whole engine is a state machine over plain values.
#![allow(non_snake_case)]

pub mod account;
pub mod error;
pub mod game;
pub mod key;
pub mod laws;
pub mod ledger;
pub mod market;
pub mod registry;
pub mod snapshot;
pub mod state;
pub mod table;
pub mod token;
