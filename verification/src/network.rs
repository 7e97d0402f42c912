//! The networks that the node can run on.

use vstd::prelude::*;
use vstd::std_specs::convert::FromSpecImpl;

verus! {

/// The networks that a user can choose from.
#[derive(Debug, Copy, Clone, PartialEq, Eq, PartialOrd, Ord, Structural)]
pub enum BitcoinNetwork {
    Mainnet,
    Testnet,
    Signet,
    Regtest,
}

/// The chains that the validation engine knows.
#[derive(Debug, Copy, Clone, PartialEq, Eq, Structural)]
pub enum ChainType {
    Mainnet,
    Testnet,
    Signet,
    Regtest,
}

/// The networks of the peer-to-peer protocol. The third test network has no user-facing name:
/// the node does not support it.
#[derive(Debug, Copy, Clone, PartialEq, Eq, Structural)]
pub enum Network {
    Bitcoin,
    Testnet,
    Testnet4,
    Signet,
    Regtest,
}

impl BitcoinNetwork {
    /// The name that users write.
    pub open spec fn name(self) -> Seq<char> {
        match self {
            BitcoinNetwork::Mainnet => "mainnet"@,
            BitcoinNetwork::Testnet => "testnet"@,
            BitcoinNetwork::Signet => "signet"@,
            BitcoinNetwork::Regtest => "regtest"@,
        }
    }

    /// The name that users write.
    pub fn to_string(&self) -> (text: String)
        ensures
            text@ == self.name(),
    {
        match self {
            BitcoinNetwork::Mainnet => "mainnet".to_owned(),
            BitcoinNetwork::Testnet => "testnet".to_owned(),
            BitcoinNetwork::Signet => "signet".to_owned(),
            BitcoinNetwork::Regtest => "regtest".to_owned(),
        }
    }
}

/// The network with this name.
pub open spec fn named(text: Seq<char>) -> Option<BitcoinNetwork> {
    if text == "mainnet"@ {
        Some(BitcoinNetwork::Mainnet)
    } else if text == "testnet"@ {
        Some(BitcoinNetwork::Testnet)
    } else if text == "signet"@ {
        Some(BitcoinNetwork::Signet)
    } else if text == "regtest"@ {
        Some(BitcoinNetwork::Regtest)
    } else {
        None
    }
}

impl BitcoinNetwork {
    /// The network that a user named.
    pub fn from_name(text: &str) -> (network: Option<BitcoinNetwork>)
        ensures
            network == named(text@),
    {
        let text = text.to_owned();
        if text == "mainnet".to_owned() {
            Some(BitcoinNetwork::Mainnet)
        } else if text == "testnet".to_owned() {
            Some(BitcoinNetwork::Testnet)
        } else if text == "signet".to_owned() {
            Some(BitcoinNetwork::Signet)
        } else if text == "regtest".to_owned() {
            Some(BitcoinNetwork::Regtest)
        } else {
            None
        }
    }
}

/// The name of a network is what a user writes to choose it, and different networks have
/// different names.
pub proof fn law_names_are_read_back(network: BitcoinNetwork, other: BitcoinNetwork)
    ensures
        named(network.name()) == Some(network),
        network != other ==> network.name() != other.name(),
{
    reveal_strlit("mainnet");
    reveal_strlit("testnet");
    reveal_strlit("signet");
    reveal_strlit("regtest");
    assert("mainnet"@[0] == 'm');
    assert("testnet"@[0] == 't');
    assert("signet"@[0] == 's');
    assert("regtest"@[0] == 'r');
}

impl From<BitcoinNetwork> for ChainType {
    fn from(value: BitcoinNetwork) -> (chain: Self) {
        match value {
            BitcoinNetwork::Mainnet => ChainType::Mainnet,
            BitcoinNetwork::Testnet => ChainType::Testnet,
            BitcoinNetwork::Signet => ChainType::Signet,
            BitcoinNetwork::Regtest => ChainType::Regtest,
        }
    }
}

impl FromSpecImpl<BitcoinNetwork> for ChainType {
    open spec fn obeys_from_spec() -> bool {
        true
    }

    open spec fn from_spec(value: BitcoinNetwork) -> Self {
        match value {
            BitcoinNetwork::Mainnet => ChainType::Mainnet,
            BitcoinNetwork::Testnet => ChainType::Testnet,
            BitcoinNetwork::Signet => ChainType::Signet,
            BitcoinNetwork::Regtest => ChainType::Regtest,
        }
    }
}

impl From<BitcoinNetwork> for Network {
    fn from(value: BitcoinNetwork) -> (network: Self) {
        match value {
            BitcoinNetwork::Mainnet => Network::Bitcoin,
            BitcoinNetwork::Testnet => Network::Testnet4,
            BitcoinNetwork::Signet => Network::Signet,
            BitcoinNetwork::Regtest => Network::Regtest,
        }
    }
}

impl FromSpecImpl<BitcoinNetwork> for Network {
    open spec fn obeys_from_spec() -> bool {
        true
    }

    open spec fn from_spec(value: BitcoinNetwork) -> Self {
        match value {
            BitcoinNetwork::Mainnet => Network::Bitcoin,
            BitcoinNetwork::Testnet => Network::Testnet4,
            BitcoinNetwork::Signet => Network::Signet,
            BitcoinNetwork::Regtest => Network::Regtest,
        }
    }
}

} // verus!
