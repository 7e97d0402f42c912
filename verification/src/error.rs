//! What can go wrong in the node's own logic.

use vstd::prelude::*;
use vstd::std_specs::convert::FromSpecImpl;

verus! {

/// The error of `bitcoin`'s consensus decoding. Nothing is known of what it holds.
#[verifier::external_type_specification]
#[verifier::external_body]
pub struct ExConsensusError(bitcoin::consensus::encode::Error);

/// Why a header fails the check of its proof of work.
#[derive(Debug, Clone, Copy, PartialEq, Eq, Structural)]
pub enum BitcoinValidationError {
    /// The hash is above the target.
    BadProofOfWork,
    /// The target is not the required one.
    BadTarget,
}

/// Why a header is not accepted into the chain.
#[derive(Debug, Clone, Copy, PartialEq, Eq, Structural)]
pub enum HeaderValidationError {
    BitcoinValidationError(BitcoinValidationError),
    PrevBlockNotFound,
}

/// Why an operation on the headers chain failed.
#[derive(Debug, Clone, Copy, PartialEq, Eq, Structural)]
pub enum HeaderChainError {
    ValidationError(HeaderValidationError),
}

/// Why the node could not handle a message.
#[derive(Debug)]
pub enum NodeError {
    NetworkIO(String),
    NetworkNotSupported,
    BitcoinConsensusError(bitcoin::consensus::encode::Error),
    HeaderChainError(HeaderChainError),
}

impl From<BitcoinValidationError> for HeaderValidationError {
    fn from(value: BitcoinValidationError) -> (error: Self) {
        HeaderValidationError::BitcoinValidationError(value)
    }
}

impl FromSpecImpl<BitcoinValidationError> for HeaderValidationError {
    open spec fn obeys_from_spec() -> bool {
        true
    }

    open spec fn from_spec(value: BitcoinValidationError) -> Self {
        HeaderValidationError::BitcoinValidationError(value)
    }
}

impl From<HeaderValidationError> for HeaderChainError {
    fn from(value: HeaderValidationError) -> (error: Self) {
        HeaderChainError::ValidationError(value)
    }
}

impl FromSpecImpl<HeaderValidationError> for HeaderChainError {
    open spec fn obeys_from_spec() -> bool {
        true
    }

    open spec fn from_spec(value: HeaderValidationError) -> Self {
        HeaderChainError::ValidationError(value)
    }
}

impl From<HeaderChainError> for NodeError {
    fn from(value: HeaderChainError) -> (error: Self) {
        NodeError::HeaderChainError(value)
    }
}

impl FromSpecImpl<HeaderChainError> for NodeError {
    open spec fn obeys_from_spec() -> bool {
        true
    }

    open spec fn from_spec(value: HeaderChainError) -> Self {
        NodeError::HeaderChainError(value)
    }
}

impl From<bitcoin::consensus::encode::Error> for NodeError {
    fn from(value: bitcoin::consensus::encode::Error) -> (error: Self) {
        NodeError::BitcoinConsensusError(value)
    }
}

impl FromSpecImpl<bitcoin::consensus::encode::Error> for NodeError {
    open spec fn obeys_from_spec() -> bool {
        true
    }

    open spec fn from_spec(value: bitcoin::consensus::encode::Error) -> Self {
        NodeError::BitcoinConsensusError(value)
    }
}

/// Calls `Display` of `bitcoin::block::ValidationError`: each of its two variants has one fixed
/// text.
#[verifier::external_body]
fn validation_error_text(error: BitcoinValidationError) -> (text: String)
    ensures
        text@ == error.text(),
{
    let error = match error {
        BitcoinValidationError::BadProofOfWork => bitcoin::block::ValidationError::BadProofOfWork,
        BitcoinValidationError::BadTarget => bitcoin::block::ValidationError::BadTarget,
    };
    format!("{}", error)
}

/// Calls `Display` of `bitcoin::consensus::encode::Error`. Nothing is claimed of the text: it
/// rests on what the error holds, which is not visible here, and for an error of the operating
/// system on the locale.
#[verifier::external_body]
fn consensus_error_text(error: &bitcoin::consensus::encode::Error) -> (text: String) {
    format!("{}", error)
}

impl BitcoinValidationError {
    /// What the error says.
    pub open spec fn text(self) -> Seq<char> {
        match self {
            BitcoinValidationError::BadProofOfWork => "block target correct but not attained"@,
            BitcoinValidationError::BadTarget => "block target incorrect"@,
        }
    }

    /// What the error says.
    pub fn to_string(&self) -> (text: String)
        ensures
            text@ == self.text(),
    {
        validation_error_text(*self)
    }
}

impl HeaderValidationError {
    /// What the error says.
    pub open spec fn text(self) -> Seq<char> {
        match self {
            HeaderValidationError::BitcoinValidationError(error) => error.text(),
            HeaderValidationError::PrevBlockNotFound => "header previous block does not exist"@,
        }
    }

    /// What the error says.
    pub fn to_string(&self) -> (text: String)
        ensures
            text@ == self.text(),
    {
        match self {
            HeaderValidationError::BitcoinValidationError(error) => error.to_string(),
            HeaderValidationError::PrevBlockNotFound => {
                "header previous block does not exist".to_owned()
            },
        }
    }
}

impl HeaderChainError {
    /// What the error says.
    pub open spec fn text(self) -> Seq<char> {
        match self {
            HeaderChainError::ValidationError(error) => error.text(),
        }
    }

    /// What the error says.
    pub fn to_string(&self) -> (text: String)
        ensures
            text@ == self.text(),
    {
        match self {
            HeaderChainError::ValidationError(error) => error.to_string(),
        }
    }
}

impl NodeError {
    /// The message of the error. For a decoding error it is the message of that error, of which
    /// nothing is stated.
    pub fn to_string(&self) -> (text: String)
        ensures
            *self matches NodeError::NetworkIO(message) ==> text@ == message@,
            *self is NetworkNotSupported ==> text@ == "network not supported"@,
            *self matches NodeError::HeaderChainError(error) ==> text@ == error.text(),
    {
        match self {
            NodeError::NetworkIO(message) => message.clone(),
            NodeError::NetworkNotSupported => "network not supported".to_owned(),
            NodeError::BitcoinConsensusError(error) => consensus_error_text(error),
            NodeError::HeaderChainError(error) => error.to_string(),
        }
    }
}

/// An error that is passed on in another says what it said before.
pub proof fn law_layers_add_no_text(
    pow: BitcoinValidationError,
    header: HeaderValidationError,
    chain: HeaderChainError,
    node: &NodeError,
    text: String,
)
    requires
        call_ensures(NodeError::to_string, (node,), text),
    ensures
        HeaderValidationError::BitcoinValidationError(pow).text() == pow.text(),
        HeaderChainError::ValidationError(header).text() == header.text(),
        *node == NodeError::HeaderChainError(chain) ==> text@ == chain.text(),
        *node matches NodeError::NetworkIO(message) ==> text@ == message@,
{
}

} // verus!
