//! A deterministic in-memory accounting engine.
//!
//! The engine tracks account balances in multiple currencies and applies
//! money transfers between accounts with atomicity, duplicate-request
//! safety (idempotency keys), and a strictly ordered audit log.

mod balances;
mod engine;
mod errors;
mod ids;
mod money;
mod time;

pub use balances::currencies_unique;
pub use balances::entries_non_negative;
pub use balances::entries_total;
pub use engine::account_index;
pub use engine::account_wf;
pub use engine::accounts_total;
pub use engine::clamp_limit;
pub use engine::ids_unique;
pub use engine::key_matches;
pub use engine::lemma_account_index;
pub use engine::lemma_balance_non_negative;
pub use engine::lemma_log_position;
pub use engine::lemma_sequence_monotonic;
pub use engine::seq_balance;
pub use engine::seq_has_account;
pub use engine::Account;
pub use engine::Ledger;
pub use engine::Transaction;
pub use errors::LedgerError;
pub use money::currency_ok;
pub use money::is_space;
pub use money::Money;
pub use time::Timestamp;
