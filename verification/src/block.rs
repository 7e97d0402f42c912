//! Blocks as users read them.

use vstd::prelude::*;

use crate::error::NodeError;
use crate::wire::block_json;

verus! {

/// The text that shows a block in its serialised form.
pub fn block_text(block: &Vec<u8>) -> (text: Result<String, NodeError>)
    ensures
        match text {
            Ok(text) => crate::wire::block_text_of(block@) == Some(text@),
            Err(error) => crate::wire::block_text_of(block@) is None
                && error is BitcoinConsensusError,
        },
{
    match block_json(block.as_slice()) {
        Ok(text) => Ok(text),
        Err(error) => Err(NodeError::from(error)),
    }
}

} // verus!
