//! A production-chain calculator for a crafting-game economy.
//!
//! Given a list of target items and rates, the library resolves which
//! machine produces each item, balances a net-flow ledger until every
//! demand is met, and orders the resulting production steps for display.
//! All quantities are exact rationals, so the balance the solver reports
//! is exact rather than approximate.

pub mod assoc;
pub mod calc_target;
pub mod calc_target_rate;
pub mod calc_step;
pub mod calculation;
pub mod constants;
pub mod data;
pub mod factory;
pub mod prototype_ref;
pub mod rational;
pub mod usersettings;
