use bitcoin_node::logging::log_line;
use bitcoin_node::network::{BitcoinNetwork, ChainType, Network};
use bitcoin_node::node::{blocks_dir, data_dir, headers_path};

#[test]
fn networks_have_the_names_that_users_write() {
    assert_eq!(BitcoinNetwork::Mainnet.to_string(), "mainnet");
    assert_eq!(BitcoinNetwork::Testnet.to_string(), "testnet");
    assert_eq!(BitcoinNetwork::Signet.to_string(), "signet");
    assert_eq!(BitcoinNetwork::Regtest.to_string(), "regtest");
}

#[test]
fn networks_are_chosen_by_their_names() {
    for network in [
        BitcoinNetwork::Mainnet,
        BitcoinNetwork::Testnet,
        BitcoinNetwork::Signet,
        BitcoinNetwork::Regtest,
    ] {
        assert_eq!(BitcoinNetwork::from_name(&network.to_string()), Some(network));
    }
    for text in ["", "main", "Mainnet", "mainnet ", "testnet4"] {
        assert_eq!(BitcoinNetwork::from_name(text), None);
    }
}

#[test]
fn networks_choose_their_chain() {
    assert_eq!(ChainType::from(BitcoinNetwork::Mainnet), ChainType::Mainnet);
    assert_eq!(ChainType::from(BitcoinNetwork::Testnet), ChainType::Testnet);
    assert_eq!(ChainType::from(BitcoinNetwork::Signet), ChainType::Signet);
    assert_eq!(ChainType::from(BitcoinNetwork::Regtest), ChainType::Regtest);
}

#[test]
fn networks_choose_their_peers() {
    assert_eq!(Network::from(BitcoinNetwork::Mainnet), Network::Bitcoin);
    assert_eq!(Network::from(BitcoinNetwork::Testnet), Network::Testnet4);
    assert_eq!(Network::from(BitcoinNetwork::Signet), Network::Signet);
    assert_eq!(Network::from(BitcoinNetwork::Regtest), Network::Regtest);
}

#[test]
fn data_is_kept_apart_by_network() {
    let dir = data_dir(".bitcoin-node", BitcoinNetwork::Signet);
    assert_eq!(dir, ".bitcoin-node/signet");
    assert_eq!(blocks_dir(&dir), ".bitcoin-node/signet/blocks");
    assert_eq!(headers_path(&dir), ".bitcoin-node/signet/header");
}

#[test]
fn logged_lines_have_no_line_end() {
    assert_eq!(log_line("loaded\n"), "loaded");
    assert_eq!(log_line("loaded\r\n"), "loaded");
    assert_eq!(log_line("loaded"), "loaded");
    assert_eq!(log_line("loaded\n\n"), "loaded\n");
    assert_eq!(log_line("loaded\r"), "loaded\r");
    assert_eq!(log_line("\n"), "");
    assert_eq!(log_line(""), "");
}
