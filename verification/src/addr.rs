//! Address and fee-rate validation, performed by the bitcoin library that
//! the daemon is built on. The parses themselves are outside code; their
//! outcomes are named here and every decision taken on them is verified.

use core::str::FromStr;

use vstd::prelude::*;

use crate::types::Network;

verus! {

/// Whether `s` parses as a bitcoin address at all.
pub uninterp spec fn addr_parses(s: Seq<char>) -> bool;

/// Whether the address `s` is valid for network `n`.
pub uninterp spec fn addr_network_ok(s: Seq<char>, n: Network) -> bool;

/// The output script of the address `s`.
pub uninterp spec fn addr_script(s: Seq<char>) -> Seq<u8>;

/// The outcome of validating a caller-supplied address string.
#[derive(Debug)]
pub enum AddrValidation {
    /// The string is not an address; the message explains why.
    Invalid { message: String },
    /// An address, but of another network; the message explains.
    WrongNetwork { message: String },
    /// An address of the wallet's network; its output script.
    Valid { script: Vec<u8> },
}

/// Relies on `bdk_wallet::bitcoin::Address`: `from_str` decides whether
/// the string parses, `require_network` whether it fits the network, and
/// `script_pubkey` gives the script; each is a function of the string
/// (and the network) alone.
#[verifier::external_body]
pub(crate) fn check_address(s: &str, n: Network) -> (r: AddrValidation)
    ensures
        match r {
            AddrValidation::Invalid { .. } => !addr_parses(s@),
            AddrValidation::WrongNetwork { .. } => addr_parses(s@) && !addr_network_ok(s@, n),
            AddrValidation::Valid { script } => addr_parses(s@) && addr_network_ok(s@, n)
                && script@ == addr_script(s@),
        },
{
    let required = match n {
        Network::Bitcoin => bdk_wallet::bitcoin::Network::Bitcoin,
        Network::Testnet => bdk_wallet::bitcoin::Network::Testnet,
        Network::Testnet4 => bdk_wallet::bitcoin::Network::Testnet4,
        Network::Signet => bdk_wallet::bitcoin::Network::Signet,
        Network::Regtest => bdk_wallet::bitcoin::Network::Regtest,
    };
    match bdk_wallet::bitcoin::Address::from_str(s) {
        Err(e) => AddrValidation::Invalid { message: format!("{}", e) },
        Ok(a) => match a.require_network(required) {
            Err(e) => AddrValidation::WrongNetwork { message: format!("{}", e) },
            Ok(a) => AddrValidation::Valid { script: a.script_pubkey().to_bytes() },
        },
    }
}

/// Relies on `bdk_wallet::bitcoin::FeeRate::from_sat_per_vb`, which is
/// `Some` exactly when the rate times 250 (the conversion to weight
/// units) does not overflow.
#[verifier::external_body]
pub(crate) fn feerate_is_valid(sat_per_vb: u64) -> (r: bool)
    ensures
        r == (sat_per_vb <= u64::MAX / 250),
{
    bdk_wallet::bitcoin::FeeRate::from_sat_per_vb(sat_per_vb).is_some()
}

/// Relies on `bdk_wallet::bitcoin::Network::from_str`, which accepts
/// exactly the five names below.
#[verifier::external_body]
pub fn parse_network(s: &str) -> (r: Option<Network>)
    ensures
        r is Some <==> (s@ == "bitcoin"@ || s@ == "testnet"@ || s@ == "testnet4"@ || s@
            == "signet"@ || s@ == "regtest"@),
        s@ == "bitcoin"@ ==> r == Some(Network::Bitcoin),
        s@ == "testnet"@ ==> r == Some(Network::Testnet),
        s@ == "testnet4"@ ==> r == Some(Network::Testnet4),
        s@ == "signet"@ ==> r == Some(Network::Signet),
        s@ == "regtest"@ ==> r == Some(Network::Regtest),
{
    match bdk_wallet::bitcoin::Network::from_str(s) {
        Ok(bdk_wallet::bitcoin::Network::Bitcoin) => Some(Network::Bitcoin),
        Ok(bdk_wallet::bitcoin::Network::Testnet) => Some(Network::Testnet),
        Ok(bdk_wallet::bitcoin::Network::Testnet4) => Some(Network::Testnet4),
        Ok(bdk_wallet::bitcoin::Network::Signet) => Some(Network::Signet),
        Ok(bdk_wallet::bitcoin::Network::Regtest) => Some(Network::Regtest),
        Err(_) => None,
    }
}

} // verus!
