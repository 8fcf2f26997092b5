//! Metadata describing a piece: its key and its unpadded size.

use vstd::prelude::*;
use crate::bytes_amount::UnpaddedBytesAmount;

verus! {

/// A piece as the caller describes it: a key that identifies the piece within
/// an ordered sequence, and the number of unpadded bytes it holds.
#[derive(Debug, PartialEq, Eq)]
pub struct PieceMetadata {
    pub piece_key: String,
    pub num_bytes: UnpaddedBytesAmount,
}

impl Clone for PieceMetadata {
    fn clone(&self) -> (r: Self)
        ensures
            r == *self,
    {
        PieceMetadata { piece_key: self.piece_key.clone(), num_bytes: self.num_bytes }
    }
}

} // verus!
