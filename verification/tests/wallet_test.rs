use oxirast::wallet::{wallet_provider, WalletProvider};

#[test]
fn solana_selects_phantom() {
    assert_eq!(wallet_provider("solana"), WalletProvider::Phantom);
}

#[test]
fn other_chains_select_metamask() {
    assert_eq!(wallet_provider("ethereum"), WalletProvider::MetaMask);
    assert_eq!(wallet_provider("Solana"), WalletProvider::MetaMask);
    assert_eq!(wallet_provider(""), WalletProvider::MetaMask);
}
