//! What the escrow reads from the NEAR host. Verus takes the contracts in
//! this file on trust: each says what the `near_sdk` function behind it is
//! known to give.
//!
//! The escrow only reads here. The transfers it decides on are handed back
//! to its caller, who asks the host for them.
//!
//! The host charges gas for every call and ends the contract call when the
//! gas is spent; what is stated here is stated of calls that return.

use vstd::prelude::*;

verus! {

/// The price of one byte of storage, in yoctoNEAR.
pub const STORAGE_PRICE_PER_BYTE: u128 = 10_000_000_000_000_000_000;

/// `near_sdk::env::block_timestamp_ms`: the time of the block in which the
/// call runs, in milliseconds, the unit of the ledger's times. Nothing is
/// claimed of the value.
#[verifier::external_body]
pub(crate) fn block_timestamp_ms() -> (now: u64) {
    near_sdk::env::block_timestamp_ms()
}

/// `near_sdk::env::storage_usage`: the bytes of storage that the contract's
/// account pays for at this moment. Nothing is claimed of the value.
#[verifier::external_body]
pub(crate) fn storage_usage() -> (bytes: u64) {
    near_sdk::env::storage_usage()
}

/// `near_sdk::env::attached_deposit`: the funds that came with the call, in
/// yoctoNEAR. Nothing is claimed of the value.
#[verifier::external_body]
pub(crate) fn attached_deposit() -> (amount: u128) {
    near_sdk::env::attached_deposit().as_yoctonear()
}

/// `near_sdk::env::storage_byte_cost`: the price of one byte of storage. The
/// function returns a constant, and the contract states that constant.
#[verifier::external_body]
pub(crate) fn storage_byte_cost() -> (price: u128)
    ensures
        price == STORAGE_PRICE_PER_BYTE,
{
    near_sdk::env::storage_byte_cost().as_yoctonear()
}

/// `near_sdk::env::predecessor_account_id`: the account that made the call,
/// as text. Nothing is claimed of the value.
#[verifier::external_body]
pub(crate) fn predecessor_account_id() -> (account: String) {
    near_sdk::env::predecessor_account_id().into()
}

} // verus!
