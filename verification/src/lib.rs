//! A deposit-backed focus-session escrow for the NEAR host.
//!
//! A participant locks a fixed deposit to start a timed session. Ending the
//! session successfully, once it has lasted long enough, pays out the whole
//! pool of forfeited deposits; ending it as failed adds the deposit to that
//! pool. Sessions that are never ended are swept away after a timeout.

pub mod contract;
pub mod host;
pub mod laws;
pub mod model;

pub use contract::{
    compute_storage_refund, deposit_surplus, session_record_bytes, ActiveUsers, Contract,
    PaymadoroFN, Transfer, DEFAULT_POMODORO_TIME_MS, DEFAULT_STALE_TIME_MS,
};
pub use host::STORAGE_PRICE_PER_BYTE;
pub use model::SessionError;
