//! A verified core for a small double-entry bookkeeping system.
//!
//! A ledger document holds a chart of accounts (six leaf lists under the
//! balance/income taxonomy) and a list of dated transactions.  This crate
//! models those values, decodes and re-encodes the fixed-point amount
//! scalars, classifies the declared accounts under the taxonomy, and checks
//! that every transaction refers to declared accounts.

pub mod error;

pub mod amount;

pub mod date;

pub mod definition;

pub mod transaction;

pub mod document;

pub mod control;

pub mod validate;
