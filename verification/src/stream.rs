//! The padded stream builder: left zeros, the piece's own bytes, right zeros.

use vstd::prelude::*;
use crate::bytes_amount::UnpaddedBytesAmount;
use crate::metadata::PieceMetadata;
use crate::pieces::{
    aligned_piece_size, get_piece_alignment, left_padding_of, lemma_alignment_parts,
    lemma_quantum_of_bounds, quantum_of, right_padding_of, sum_piece_bytes_with_alignment,
    sum_with_alignment, PieceAlignment, MAX_PIECE_BYTES,
};

verus! {

/// A run of `n` zero bytes.
pub open spec fn zero_bytes(n: nat) -> Seq<u8> {
    Seq::new(n, |i: int| 0u8)
}

/// Wraps a piece's bytes in its padding: the alignment's worth of zero bytes on
/// the left, the source bytes, and the alignment's worth of zero bytes on the
/// right, as one contiguous buffer.
pub fn with_alignment(source: &[u8], alignment: &PieceAlignment) -> (r: Vec<u8>)
    requires
        alignment.left_bytes@ + source@.len() + alignment.right_bytes@ <= usize::MAX,
    ensures
        r@ == zero_bytes(alignment.left_bytes@) + source@ + zero_bytes(alignment.right_bytes@),
{
    let left_bytes = alignment.left_bytes.0;
    let right_bytes = alignment.right_bytes.0;
    let mut padded: Vec<u8> = Vec::new();

    let mut k: u64 = 0;
    while k < left_bytes
        invariant
            k <= left_bytes,
            left_bytes + source@.len() + right_bytes <= usize::MAX,
            padded@ =~= zero_bytes(k as nat),
        decreases left_bytes - k,
    {
        padded.push(0u8);
        k = k + 1;
    }

    let mut j: usize = 0;
    while j < source.len()
        invariant
            j <= source@.len(),
            left_bytes + source@.len() + right_bytes <= usize::MAX,
            padded@ =~= zero_bytes(left_bytes as nat) + source@.take(j as int),
        decreases source@.len() - j,
    {
        padded.push(source[j]);
        j = j + 1;
    }

    let mut k: u64 = 0;
    while k < right_bytes
        invariant
            k <= right_bytes,
            left_bytes + source@.len() + right_bytes <= usize::MAX,
            padded@ =~= zero_bytes(left_bytes as nat) + source@ + zero_bytes(k as nat),
        decreases right_bytes - k,
    {
        padded.push(0u8);
        k = k + 1;
    }

    proof {
        assert(source@.take(source@.len() as int) =~= source@);
    }
    padded
}

/// The total the caller should see written for a piece: its left padding, its
/// own bytes, and its right padding, or `None` if that total overflows a `u64`.
pub fn expected_bytes_written(alignment: &PieceAlignment, piece_bytes: UnpaddedBytesAmount) -> (r:
    Option<UnpaddedBytesAmount>)
    ensures
        match r {
            Some(total) => total@ == alignment.left_bytes@ + piece_bytes@ + alignment.right_bytes@,
            None => alignment.left_bytes@ + piece_bytes@ + alignment.right_bytes@ > u64::MAX,
        },
{
    match alignment.left_bytes.0.checked_add(piece_bytes.0) {
        Some(v) => match v.checked_add(alignment.right_bytes.0) {
            Some(total) => Some(UnpaddedBytesAmount(total)),
            None => None,
        },
        None => None,
    }
}

/// Builds the padded byte buffer for a piece appended after `pieces`: the
/// piece's alignment is computed against the aligned total of `pieces`, and the
/// result is that many zero bytes, the source bytes, and the right padding's
/// zero bytes, together with the total number of bytes the caller should see
/// written.
pub fn get_aligned_source(
    source: &[u8],
    pieces: &[PieceMetadata],
    piece_bytes: UnpaddedBytesAmount,
) -> (r: (UnpaddedBytesAmount, Vec<u8>))
    requires
        source@.len() == piece_bytes@,
        sum_with_alignment(pieces@) <= u64::MAX,
        aligned_piece_size(sum_with_alignment(pieces@), piece_bytes@) <= u64::MAX,
        aligned_piece_size(sum_with_alignment(pieces@), piece_bytes@) <= usize::MAX,
    ensures
        r.0@ == aligned_piece_size(sum_with_alignment(pieces@), piece_bytes@),
        r.1@ == zero_bytes(left_padding_of(sum_with_alignment(pieces@), piece_bytes@)) + source@
            + zero_bytes(right_padding_of(piece_bytes@)),
        r.1@.len() == r.0@,
{
    proof {
        lemma_alignment_parts(sum_with_alignment(pieces@), piece_bytes@);
        lemma_quantum_of_bounds(piece_bytes@);
    }
    let written_bytes = sum_piece_bytes_with_alignment(pieces);
    let alignment = get_piece_alignment(written_bytes, piece_bytes);
    let expected = alignment.left_bytes.0 + piece_bytes.0 + alignment.right_bytes.0;
    let padded = with_alignment(source, &alignment);
    (UnpaddedBytesAmount(expected), padded)
}

} // verus!
