//! Flashblock payloads and their positional binary encoding.
//!
//! A flashblock is one step in the construction of a block: the part of the
//! execution payload that has changed, what execution left behind, and, on
//! the first step, the part of the payload that stays as it is. This crate
//! holds flashblocks, writes them as records of the positional binary format
//! and reads them back, and gathers them from a stream for a bounded time.
//!
//! - [`codec`], [`layout`] and [`list`] are the format: integers and offsets,
//!   records of fixed-width and variable-width fields, lists of byte strings.
//! - [`primitives`], [`withdrawal`], [`receipt`] and [`table`] are the values
//!   that the fields of a flashblock are made of.
//! - [`payload`] is the flashblock itself, its parts, and the three fields
//!   that are written in a way of their own: the identifier, the table of
//!   balances and the table of receipts.
//! - [`subscriber`] gathers flashblocks: a session that is told what happens
//!   on the stream and says what to do next.
//! - [`error`] says why a buffer was refused.
//!
//! Every function states what it returns, and what is stated is proved. What
//! is taken on trust of other crates is little: the offsets are written and
//! read by `ssz`, and whether a text reads as a receipt is asked of
//! `serde_json`.

pub mod codec;
pub mod error;
pub mod layout;
pub mod list;
pub mod payload;
pub mod primitives;
pub mod receipt;
pub mod subscriber;
pub mod table;
pub mod withdrawal;
