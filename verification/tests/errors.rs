use bitcoin_node::error::{
    BitcoinValidationError, HeaderChainError, HeaderValidationError, NodeError,
};

#[test]
fn proof_of_work_errors_read_as_the_bitcoin_crate_says() {
    assert_eq!(
        BitcoinValidationError::BadProofOfWork.to_string(),
        "block target correct but not attained",
    );
    assert_eq!(
        BitcoinValidationError::BadProofOfWork.to_string(),
        bitcoin::block::ValidationError::BadProofOfWork.to_string(),
    );
    assert_eq!(BitcoinValidationError::BadTarget.to_string(), "block target incorrect");
    assert_eq!(
        BitcoinValidationError::BadTarget.to_string(),
        bitcoin::block::ValidationError::BadTarget.to_string(),
    );
}

#[test]
fn header_errors_say_what_is_wrong() {
    let unknown = HeaderValidationError::PrevBlockNotFound;
    assert_eq!(unknown.to_string(), "header previous block does not exist");
    assert_eq!(
        HeaderChainError::ValidationError(unknown).to_string(),
        "header previous block does not exist",
    );
    assert_eq!(
        HeaderValidationError::BitcoinValidationError(BitcoinValidationError::BadTarget)
            .to_string(),
        "block target incorrect",
    );
}

#[test]
fn node_errors_say_what_is_wrong() {
    assert_eq!(NodeError::NetworkIO("x".to_string()).to_string(), "x");
    assert_eq!(NodeError::NetworkNotSupported.to_string(), "network not supported");
    let chain = HeaderChainError::ValidationError(HeaderValidationError::PrevBlockNotFound);
    assert_eq!(
        NodeError::HeaderChainError(chain).to_string(),
        "header previous block does not exist",
    );
    let decoding = bitcoin::consensus::encode::Error::NonMinimalVarInt;
    let expected = decoding.to_string();
    assert_eq!(NodeError::BitcoinConsensusError(decoding).to_string(), expected);
}

#[test]
fn errors_are_passed_on_in_the_next_layer() {
    let pow = BitcoinValidationError::BadProofOfWork;
    let header = HeaderValidationError::from(pow);
    assert_eq!(header, HeaderValidationError::BitcoinValidationError(pow));
    let chain = HeaderChainError::from(header);
    assert_eq!(chain, HeaderChainError::ValidationError(header));
    assert!(matches!(NodeError::from(chain), NodeError::HeaderChainError(inner) if inner == chain));
    let decoding = bitcoin::consensus::encode::Error::NonMinimalVarInt;
    assert!(matches!(
        NodeError::from(decoding),
        NodeError::BitcoinConsensusError(bitcoin::consensus::encode::Error::NonMinimalVarInt),
    ));
}
