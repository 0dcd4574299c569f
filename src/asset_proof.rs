use vstd::prelude::*;
use vstd::string::StringExecFns;

verus! {

/// A deposit address on the collateral asset's own chain.
#[derive(Clone, Debug)]
pub struct BitcoinAddress {
    pub address: String,
    pub network: String,
}

/// What an address holds, in satoshis.
#[derive(Clone, Debug)]
pub struct BitcoinBalance {
    pub address: String,
    pub balance_satoshis: u64,
}

/// Why a transaction could not be looked at.
#[derive(Clone, Copy, Debug, PartialEq, Eq, Structural)]
pub enum ProofError {
    InvalidTransactionId,
}

/// The balance this stand-in service reports for every address.
pub const STUB_BALANCE_SATS: u64 = 50_000_000;

/// The deposit address of this stand-in service: one fixed testnet address.
pub fn get_bitcoin_address() -> (r: BitcoinAddress)
    ensures
        r.address@ == "bc1qxy2kgdygjrsqtzq2n0yrf2493p83kkfjhx0wlh"@,
        r.network@ == "testnet"@,
{
    BitcoinAddress {
        address: String::from_str("bc1qxy2kgdygjrsqtzq2n0yrf2493p83kkfjhx0wlh"),
        network: String::from_str("testnet"),
    }
}

/// The balance of `address`; this stand-in reports a fixed amount.
pub fn get_bitcoin_balance(address: String) -> (r: BitcoinBalance)
    ensures
        r.address@ == address@,
        r.balance_satoshis == STUB_BALANCE_SATS,
{
    BitcoinBalance { address, balance_satoshis: STUB_BALANCE_SATS }
}

/// Whether transaction `tx_id` is confirmed; this stand-in confirms every
/// non-empty id and refuses an empty one.
pub fn verify_bitcoin_transaction(tx_id: String) -> (r: Result<bool, ProofError>)
    ensures
        tx_id@.len() == 0 ==> r == Err::<bool, ProofError>(ProofError::InvalidTransactionId),
        tx_id@.len() > 0 ==> r == Ok::<bool, ProofError>(true),
{
    if tx_id.as_str().is_empty() {
        Err(ProofError::InvalidTransactionId)
    } else {
        Ok(true)
    }
}

} // verus!
