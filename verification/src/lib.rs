//! Reconciliation core of a bridge between on-chain multisig governance and a
//! chat surface: one discussion thread per open call, kept in step with the
//! call's votes and closed when the call is executed.

pub mod command;
pub mod config;
pub mod event;
pub mod identity;
pub mod lifecycle;
pub mod reconcile;
pub mod record;
pub mod state;
pub mod store;
pub mod text;
pub mod vote;
pub mod voters;
