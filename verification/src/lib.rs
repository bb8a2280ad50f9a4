//! The economy engine of an automated in-game trading agent: accounts, tradable items,
//! the order queue, the trade history and the warehouse grid.
//!
//! The engine decides and computes; it touches neither files nor the network. Whoever
//! runs it hands it what was read and asked, and carries out what it says is to be
//! written and sent.
//!
//! - [`store`] holds the state and takes it from message to message: payments, orders,
//!   balances, the requests of the console.
//! - [`command`], [`chat`] and [`notice`] read what players write and word the answers.
//! - [`directory`] is the table of the identifiers behind the players' display names.
//! - [`user`], [`pair`], [`order`], [`trade`] and [`config`] are the records.
//! - [`position`], [`chest`], [`node`] and [`storage`] lay out the warehouse: nodes on a
//!   square spiral round the origin, four chests to a node.
//! - [`repository`] plans loads and saves: one file per record, and no file without one.
//! - [`amount`], [`sorting`] and [`text`] are the tools: amounts of money in thousandths
//!   of a diamond, a stable sort by key, and decimal numbers read and written.
//! - [`messages`] and [`error`] name what travels between the store and its peers.

pub mod amount;
pub mod chat;
pub mod chest;
pub mod command;
pub mod config;
pub mod directory;
pub mod error;
pub mod messages;
pub mod node;
pub mod notice;
pub mod order;
pub mod pair;
pub mod position;
pub mod repository;
pub mod sorting;
pub mod storage;
pub mod store;
pub mod text;
pub mod trade;
pub mod user;
