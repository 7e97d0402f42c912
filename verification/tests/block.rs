use bitcoin_node::block::block_text;
use bitcoin_node::error::NodeError;

fn genesis() -> bitcoin::Block {
    bitcoin::constants::genesis_block(bitcoin::Network::Regtest)
}

#[test]
fn a_block_is_shown_as_the_outside_crates_write_it() {
    let bytes = bitcoin::consensus::serialize(&genesis());
    let text = block_text(&bytes).unwrap();
    assert_eq!(text, serde_json::to_string_pretty(&genesis()).unwrap());
    assert!(text.starts_with("{\n  \"header\": {\n    \"version\": 1,\n"));
    assert!(text.contains("\"time\": 1296688602"));
    assert!(text.contains("\"nonce\": 2"));
    assert!(text.contains(
        "\"merkle_root\": \"4a5e1e4baab89f3a32518a88c31bc87f618f76673e2cc77ab2127b7afdeda33b\"",
    ));
}

#[test]
fn bytes_that_are_no_block_are_an_error() {
    let bytes = bitcoin::consensus::serialize(&genesis());
    let mut longer = bytes.clone();
    longer.push(0);
    for wrong in [vec![], bytes[..80].to_vec(), bytes[..bytes.len() - 1].to_vec(), longer] {
        assert!(matches!(block_text(&wrong), Err(NodeError::BitcoinConsensusError(_))));
    }
}
