//! Which browser wallet a chain name selects.

use vstd::prelude::*;

verus! {

/// A browser wallet extension.
#[derive(Debug, PartialEq, Eq, Structural)]
pub enum WalletProvider {
    /// Phantom, for Solana.
    Phantom,
    /// MetaMask, for Ethereum and other EVM chains.
    MetaMask,
}

/// The wallet to connect for a chain: Phantom for `solana`, MetaMask for any
/// other name.
pub fn wallet_provider(chain: &str) -> (r: WalletProvider)
    ensures
        r == (if chain@ == "solana"@ {
            WalletProvider::Phantom
        } else {
            WalletProvider::MetaMask
        }),
{
    if String::from_str(chain) == String::from_str("solana") {
        WalletProvider::Phantom
    } else {
        WalletProvider::MetaMask
    }
}

} // verus!
