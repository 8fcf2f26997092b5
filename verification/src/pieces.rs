//! The alignment calculator and the offset accumulator.
//!
//! A piece of `piece_bytes` unpadded bytes is packed into the smallest
//! alignment quantum of the form `MINIMUM_PIECE_BYTES * 2^k` that holds it.
//! Left padding moves the write cursor to the next multiple of that quantum;
//! right padding fills the quantum after the piece's own bytes.

use vstd::prelude::*;
use vstd::arithmetic::div_mod::{lemma_fundamental_div_mod, lemma_mod_multiples_basic};
use vstd::arithmetic::mul::{lemma_mul_is_commutative, lemma_mul_is_distributive_add};
use crate::bytes_amount::{UnpaddedBytesAmount, UnpaddedByteIndex};
use crate::metadata::PieceMetadata;

verus! {

/// The smallest alignment quantum: one leaf row of the downstream fixed-arity
/// structure, 4 * 32 - 1 bytes. Every quantum is this value times a power of two.
pub const MINIMUM_PIECE_BYTES: u64 = 4 * 32 - 1;

/// The largest piece size whose alignment quantum still fits in a `u64`:
/// `MINIMUM_PIECE_BYTES * 2^57`. One doubling more would overflow.
pub const MAX_PIECE_BYTES: u64 = 0xFE00_0000_0000_0000;

/// The smallest value of the form `q * 2^k` (`k >= 0`) that is at least `target`;
/// `q` itself when `q >= target` or `q == 0`.
pub open spec fn quantum_from(q: nat, target: nat) -> nat
    decreases (if q < target { target - q } else { 0 }),
{
    if 0 < q < target {
        quantum_from(q * 2, target)
    } else {
        q
    }
}

/// The alignment quantum a piece of `piece_bytes` unpadded bytes must fit inside:
/// the smallest `MINIMUM_PIECE_BYTES * 2^k` that is at least
/// `max(MINIMUM_PIECE_BYTES, piece_bytes)`.
pub open spec fn quantum_of(piece_bytes: nat) -> nat {
    quantum_from(
        MINIMUM_PIECE_BYTES as nat,
        if piece_bytes > MINIMUM_PIECE_BYTES { piece_bytes } else { MINIMUM_PIECE_BYTES as nat },
    )
}

/// The left padding that moves a cursor at `written` up to the next multiple of
/// the piece's quantum (zero if the cursor already sits on one).
pub open spec fn left_padding_of(written: nat, piece_bytes: nat) -> nat {
    let q = quantum_of(piece_bytes);
    if written % q == 0 {
        0
    } else {
        (q - written % q) as nat
    }
}

/// The right padding that fills the piece's quantum after the piece's own bytes.
pub open spec fn right_padding_of(piece_bytes: nat) -> nat {
    (quantum_of(piece_bytes) - piece_bytes) as nat
}

/// The number of bytes a piece consumes when written after `written` bytes:
/// its left padding, its own bytes, and its right padding.
pub open spec fn aligned_piece_size(written: nat, piece_bytes: nat) -> nat {
    left_padding_of(written, piece_bytes) + piece_bytes + right_padding_of(piece_bytes)
}

/// The aligned byte total of an ordered sequence of pieces: each piece's
/// alignment is computed against the bytes the pieces before it consumed.
pub open spec fn sum_with_alignment(pieces: Seq<PieceMetadata>) -> nat
    decreases pieces.len(),
{
    if pieces.len() == 0 {
        0
    } else {
        let prior = sum_with_alignment(pieces.drop_last());
        prior + aligned_piece_size(prior, pieces.last().num_bytes@)
    }
}

/// The index of the first piece whose key is `key`, or `pieces.len()` if no
/// piece has that key.
pub open spec fn first_index_of_key(pieces: Seq<PieceMetadata>, key: Seq<char>) -> int
    decreases pieces.len(),
{
    if pieces.len() == 0 {
        0
    } else if pieces[0].piece_key@ == key {
        0
    } else {
        1 + first_index_of_key(pieces.drop_first(), key)
    }
}

/// The ordered prefix of `pieces` strictly before the first piece whose key is
/// `key`; the whole sequence if no piece has that key.
pub open spec fn pieces_before_key(pieces: Seq<PieceMetadata>, key: Seq<char>) -> Seq<PieceMetadata> {
    pieces.take(first_index_of_key(pieces, key))
}

/// The unpadded byte offset at which a piece's own bytes begin: the aligned
/// total of the pieces before the first occurrence of its key, plus the
/// piece's own left padding.
pub open spec fn piece_start_byte(pieces: Seq<PieceMetadata>, piece: PieceMetadata) -> nat {
    let prior = sum_with_alignment(pieces_before_key(pieces, piece.piece_key@));
    prior + left_padding_of(prior, piece.num_bytes@)
}

/// A doubling search never lands below its floor or below its target.
pub proof fn lemma_quantum_from_ge(q: nat, target: nat)
    requires
        1 <= q,
    ensures
        quantum_from(q, target) >= q,
        quantum_from(q, target) >= target,
    decreases (if q < target { target - q } else { 0 }),
{
    if q < target {
        lemma_quantum_from_ge(q * 2, target);
    }
}

/// A doubling search whose chain reaches `cap` exactly does not overshoot `cap`
/// while the target lies at or below `cap`.
proof fn lemma_quantum_from_le_cap(q: nat, target: nat, cap: nat)
    requires
        1 <= q <= cap,
        target <= cap,
        quantum_from(q, cap) == cap,
    ensures
        quantum_from(q, target) <= cap,
    decreases (if q < cap { cap - q } else { 0 }),
{
    if q < target {
        lemma_quantum_from_ge(q * 2, cap);
        lemma_quantum_from_le_cap(q * 2, target, cap);
    }
}

/// A doubling search whose chain reaches `cap` exactly returns at least
/// `2 * cap` once the target lies beyond `cap`.
proof fn lemma_quantum_from_exceeds_cap(q: nat, target: nat, cap: nat)
    requires
        1 <= q <= cap,
        cap < target,
        quantum_from(q, cap) == cap,
    ensures
        quantum_from(q, target) >= 2 * cap,
    decreases (if q < cap { cap - q } else { 0 }),
{
    if q == cap {
        lemma_quantum_from_ge(q * 2, target);
    } else {
        lemma_quantum_from_ge(q * 2, cap);
        lemma_quantum_from_exceeds_cap(q * 2, target, cap);
    }
}

/// `MAX_PIECE_BYTES` is on the doubling chain that starts at the minimum quantum.
proof fn lemma_max_piece_bytes_on_chain()
    ensures
        quantum_from(MINIMUM_PIECE_BYTES as nat, MAX_PIECE_BYTES as nat) == MAX_PIECE_BYTES as nat,
{
    reveal_with_fuel(quantum_from, 59);
}

/// The quantum of a piece is at least the minimum quantum and at least the
/// piece itself; for pieces up to `MAX_PIECE_BYTES` it stays on or below
/// `MAX_PIECE_BYTES`, and beyond that bound it no longer fits in a `u64`.
pub proof fn lemma_quantum_of_bounds(piece_bytes: nat)
    ensures
        quantum_of(piece_bytes) >= MINIMUM_PIECE_BYTES as nat,
        quantum_of(piece_bytes) >= piece_bytes,
        piece_bytes <= MAX_PIECE_BYTES ==> quantum_of(piece_bytes) <= MAX_PIECE_BYTES as nat,
        piece_bytes > MAX_PIECE_BYTES ==> quantum_of(piece_bytes) > u64::MAX,
{
    let min = MINIMUM_PIECE_BYTES as nat;
    let adjusted: nat = if piece_bytes > min { piece_bytes } else { min };
    lemma_quantum_from_ge(min, adjusted);
    lemma_max_piece_bytes_on_chain();
    if piece_bytes <= MAX_PIECE_BYTES {
        lemma_quantum_from_le_cap(min, adjusted, MAX_PIECE_BYTES as nat);
    } else {
        lemma_quantum_from_exceeds_cap(min, adjusted, MAX_PIECE_BYTES as nat);
    }
}

/// The amount of padding needed before and after a piece so that it occupies
/// exactly one alignment quantum starting on a quantum boundary.
pub struct PieceAlignment {
    pub left_bytes: UnpaddedBytesAmount,
    pub right_bytes: UnpaddedBytesAmount,
}

/// Computes the left and right padding for a piece of `piece_bytes` unpadded
/// bytes placed after `written_bytes` already-committed bytes.
///
/// The left padding brings the cursor to the next multiple of the piece's
/// quantum; the right padding fills the quantum after the piece's own bytes,
/// so the piece and its right padding together always measure one quantum.
pub fn get_piece_alignment(
    written_bytes: UnpaddedBytesAmount,
    piece_bytes: UnpaddedBytesAmount,
) -> (r: PieceAlignment)
    requires
        piece_bytes@ <= MAX_PIECE_BYTES,
    ensures
        r.left_bytes@ == left_padding_of(written_bytes@, piece_bytes@),
        r.right_bytes@ == right_padding_of(piece_bytes@),
        (written_bytes@ + r.left_bytes@) % quantum_of(piece_bytes@) == 0,
        piece_bytes@ + r.right_bytes@ == quantum_of(piece_bytes@),
        written_bytes@ % quantum_of(piece_bytes@) == 0 ==> r.left_bytes@ + piece_bytes@
            + r.right_bytes@ == quantum_of(piece_bytes@),
{
    let minimum_piece_bytes: u64 = MINIMUM_PIECE_BYTES;
    let adjusted_piece_bytes: u64 = if piece_bytes.0 > minimum_piece_bytes {
        piece_bytes.0
    } else {
        minimum_piece_bytes
    };
    proof {
        lemma_quantum_of_bounds(piece_bytes@);
    }

    let mut piece_bytes_needed: u64 = minimum_piece_bytes;
    while piece_bytes_needed < adjusted_piece_bytes
        invariant
            1 <= piece_bytes_needed,
            piece_bytes@ <= MAX_PIECE_BYTES,
            adjusted_piece_bytes@ == (if piece_bytes@ > MINIMUM_PIECE_BYTES {
                piece_bytes@
            } else {
                MINIMUM_PIECE_BYTES as nat
            }),
            quantum_from(piece_bytes_needed as nat, adjusted_piece_bytes as nat) == quantum_of(
                piece_bytes@,
            ),
            quantum_of(piece_bytes@) <= MAX_PIECE_BYTES,
        decreases (if piece_bytes_needed < adjusted_piece_bytes {
            adjusted_piece_bytes - piece_bytes_needed
        } else {
            0
        }),
    {
        proof {
            lemma_quantum_from_ge(piece_bytes_needed as nat * 2, adjusted_piece_bytes as nat);
        }
        piece_bytes_needed = piece_bytes_needed * 2;
    }
    assert(piece_bytes_needed as nat == quantum_of(piece_bytes@));

    let encroaching: u64 = written_bytes.0 % piece_bytes_needed;
    let left_bytes: u64 = if encroaching > 0 {
        piece_bytes_needed - encroaching
    } else {
        0
    };
    let right_bytes: u64 = piece_bytes_needed - piece_bytes.0;

    proof {
        let w = written_bytes@ as int;
        let q = piece_bytes_needed as int;
        let l = left_bytes as int;
        lemma_fundamental_div_mod(w, q);
        if encroaching > 0 {
            lemma_mul_is_distributive_add(q, w / q, 1);
            lemma_mod_multiples_basic(w / q + 1, q);
            assert(w + l == q * (w / q + 1));
            assert(q * (w / q + 1) == (w / q + 1) * q) by {
                lemma_mul_is_commutative(q, w / q + 1);
            }
            assert((w + l) % q == 0);
        } else {
            assert((w + l) % q == 0);
        }
    }

    PieceAlignment {
        left_bytes: UnpaddedBytesAmount(left_bytes),
        right_bytes: UnpaddedBytesAmount(right_bytes),
    }
}

/// A piece's aligned size splits into its left padding plus one full quantum,
/// and the left padding itself stays below the quantum.
pub proof fn lemma_alignment_parts(written: nat, piece_bytes: nat)
    ensures
        aligned_piece_size(written, piece_bytes) == left_padding_of(written, piece_bytes)
            + quantum_of(piece_bytes),
        left_padding_of(written, piece_bytes) < quantum_of(piece_bytes),
        aligned_piece_size(written, piece_bytes) >= quantum_of(piece_bytes),
{
    lemma_quantum_of_bounds(piece_bytes);
}

/// Law: when the cursor sits on a boundary of the piece's quantum, no left
/// padding is needed, and left padding, piece and right padding together
/// measure exactly one quantum. (Off a boundary, the left padding comes on
/// top of the quantum.)
pub proof fn lemma_piece_fills_quantum_on_boundary(written: nat, piece_bytes: nat)
    requires
        written % quantum_of(piece_bytes) == 0,
    ensures
        left_padding_of(written, piece_bytes) == 0,
        aligned_piece_size(written, piece_bytes) == quantum_of(piece_bytes),
{
    lemma_quantum_of_bounds(piece_bytes);
}

/// Extending a prefix of `pieces` by one piece adds that piece's aligned size,
/// computed against the bytes the prefix consumed.
pub proof fn lemma_sum_take_step(pieces: Seq<PieceMetadata>, i: int)
    requires
        0 <= i < pieces.len(),
    ensures
        sum_with_alignment(pieces.take(i + 1)) == sum_with_alignment(pieces.take(i))
            + aligned_piece_size(sum_with_alignment(pieces.take(i)), pieces[i].num_bytes@),
{
    assert(pieces.take(i + 1).drop_last() =~= pieces.take(i));
    assert(pieces.take(i + 1).last() == pieces[i]);
}

/// The aligned total of a prefix never shrinks as the prefix grows.
pub proof fn lemma_sum_take_monotone(pieces: Seq<PieceMetadata>, i: int, j: int)
    requires
        0 <= i <= j <= pieces.len(),
    ensures
        sum_with_alignment(pieces.take(i)) <= sum_with_alignment(pieces.take(j)),
    decreases j - i,
{
    if i < j {
        lemma_sum_take_monotone(pieces, i, j - 1);
        lemma_sum_take_step(pieces, j - 1);
    }
}

/// Folds the pieces in order: each piece's alignment is computed against the
/// running total, then its left padding, own bytes and right padding are added.
pub fn sum_piece_bytes_with_alignment(pieces: &[PieceMetadata]) -> (r: UnpaddedBytesAmount)
    requires
        sum_with_alignment(pieces@) <= u64::MAX,
    ensures
        r@ == sum_with_alignment(pieces@),
{
    let mut acc: u64 = 0;
    let mut i: usize = 0;
    while i < pieces.len()
        invariant
            i <= pieces@.len(),
            sum_with_alignment(pieces@) <= u64::MAX,
            acc as nat == sum_with_alignment(pieces@.take(i as int)),
        decreases pieces@.len() - i,
    {
        let num_bytes = pieces[i].num_bytes;
        proof {
            lemma_sum_take_step(pieces@, i as int);
            lemma_sum_take_monotone(pieces@, i as int + 1, pieces@.len() as int);
            assert(pieces@.take(pieces@.len() as int) =~= pieces@);
            lemma_alignment_parts(acc as nat, num_bytes@);
            lemma_quantum_of_bounds(num_bytes@);
        }
        let alignment = get_piece_alignment(UnpaddedBytesAmount(acc), num_bytes);
        acc = acc + alignment.left_bytes.0 + num_bytes.0 + alignment.right_bytes.0;
        i = i + 1;
    }
    proof {
        assert(pieces@.take(pieces@.len() as int) =~= pieces@);
    }
    UnpaddedBytesAmount(acc)
}

/// Like `sum_piece_bytes_with_alignment`, but reports an aligned total that
/// does not fit in a `u64` as `None` instead of demanding it up front.
pub fn checked_sum_piece_bytes_with_alignment(pieces: &[PieceMetadata]) -> (r: Option<
    UnpaddedBytesAmount,
>)
    ensures
        match r {
            Some(total) => sum_with_alignment(pieces@) <= u64::MAX && total@ == sum_with_alignment(
                pieces@,
            ),
            None => sum_with_alignment(pieces@) > u64::MAX,
        },
{
    let mut acc: u64 = 0;
    let mut i: usize = 0;
    while i < pieces.len()
        invariant
            i <= pieces@.len(),
            acc as nat == sum_with_alignment(pieces@.take(i as int)),
        decreases pieces@.len() - i,
    {
        let num_bytes = pieces[i].num_bytes;
        proof {
            lemma_sum_take_step(pieces@, i as int);
            lemma_sum_take_monotone(pieces@, i as int + 1, pieces@.len() as int);
            assert(pieces@.take(pieces@.len() as int) =~= pieces@);
            lemma_alignment_parts(acc as nat, num_bytes@);
            lemma_quantum_of_bounds(num_bytes@);
        }
        if num_bytes.0 > MAX_PIECE_BYTES {
            return None;
        }
        let alignment = get_piece_alignment(UnpaddedBytesAmount(acc), num_bytes);
        let next = match acc.checked_add(alignment.left_bytes.0) {
            Some(v) => v,
            None => {
                return None;
            },
        };
        let next = match next.checked_add(num_bytes.0) {
            Some(v) => v,
            None => {
                return None;
            },
        };
        let next = match next.checked_add(alignment.right_bytes.0) {
            Some(v) => v,
            None => {
                return None;
            },
        };
        acc = next;
        i = i + 1;
    }
    proof {
        assert(pieces@.take(pieces@.len() as int) =~= pieces@);
    }
    Some(UnpaddedBytesAmount(acc))
}

/// `first_index_of_key` points at the first occurrence of the key: the piece
/// there (if any) carries the key, and no piece before it does.
pub proof fn lemma_first_index_of_key_props(pieces: Seq<PieceMetadata>, key: Seq<char>)
    ensures
        0 <= first_index_of_key(pieces, key) <= pieces.len(),
        first_index_of_key(pieces, key) < pieces.len() ==> pieces[first_index_of_key(
            pieces,
            key,
        )].piece_key@ == key,
        forall|j: int| 0 <= j < first_index_of_key(pieces, key) ==> pieces[j].piece_key@ != key,
    decreases pieces.len(),
{
    if pieces.len() > 0 && pieces[0].piece_key@ != key {
        lemma_first_index_of_key_props(pieces.drop_first(), key);
        assert forall|j: int| 0 <= j < first_index_of_key(pieces, key) implies pieces[j].piece_key@
            != key by {
            if j > 0 {
                assert(pieces.drop_first()[j - 1] == pieces[j]);
            }
        }
    }
}

/// Returns a copy of the first piece whose key is `piece_key`, if one exists.
pub fn get_piece_by_key(pieces: &[PieceMetadata], piece_key: &str) -> (r: Option<PieceMetadata>)
    ensures
        ({
            let idx = first_index_of_key(pieces@, piece_key@);
            match r {
                Some(p) => idx < pieces@.len() && p == pieces@[idx],
                None => idx == pieces@.len(),
            }
        }),
{
    proof {
        lemma_first_index_of_key_props(pieces@, piece_key@);
    }
    let key: String = piece_key.to_owned();
    let mut i: usize = 0;
    while i < pieces.len()
        invariant
            i <= pieces@.len(),
            key@ == piece_key@,
            forall|j: int| 0 <= j < i ==> pieces@[j].piece_key@ != piece_key@,
            0 <= first_index_of_key(pieces@, piece_key@) <= pieces@.len(),
            first_index_of_key(pieces@, piece_key@) < pieces@.len() ==> pieces@[first_index_of_key(
                pieces@,
                piece_key@,
            )].piece_key@ == piece_key@,
            forall|j: int|
                0 <= j < first_index_of_key(pieces@, piece_key@) ==> pieces@[j].piece_key@
                    != piece_key@,
        decreases pieces@.len() - i,
    {
        if pieces[i].piece_key == key {
            assert(i as int == first_index_of_key(pieces@, piece_key@));
            return Some(pieces[i].clone());
        }
        i = i + 1;
    }
    None
}

/// Returns the unpadded byte offset at which `piece`'s own bytes begin: the
/// aligned total of the pieces strictly before the first occurrence of its key
/// (the whole sequence if the key does not occur), plus its own left padding.
pub fn get_piece_start_byte(pieces: &[PieceMetadata], piece: &PieceMetadata) -> (r:
    UnpaddedByteIndex)
    requires
        sum_with_alignment(pieces_before_key(pieces@, piece.piece_key@)) + quantum_of(
            piece.num_bytes@,
        ) <= u64::MAX,
    ensures
        r@ == piece_start_byte(pieces@, *piece),
{
    let ghost fi = first_index_of_key(pieces@, piece.piece_key@);
    proof {
        lemma_first_index_of_key_props(pieces@, piece.piece_key@);
        lemma_quantum_of_bounds(piece.num_bytes@);
    }
    let mut acc: u64 = 0;
    let mut i: usize = 0;
    while i < pieces.len()
        invariant
            i <= fi <= pieces@.len(),
            fi == first_index_of_key(pieces@, piece.piece_key@),
            acc as nat == sum_with_alignment(pieces@.take(i as int)),
            sum_with_alignment(pieces@.take(fi)) + quantum_of(piece.num_bytes@) <= u64::MAX,
            forall|j: int| 0 <= j < fi ==> pieces@[j].piece_key@ != piece.piece_key@,
            fi < pieces@.len() ==> pieces@[fi].piece_key@ == piece.piece_key@,
        ensures
            acc as nat == sum_with_alignment(pieces@.take(fi)),
        decreases pieces@.len() - i,
    {
        if pieces[i].piece_key == piece.piece_key {
            assert(i as int == fi);
            break;
        }
        assert((i as int) < fi);
        let num_bytes = pieces[i].num_bytes;
        proof {
            lemma_sum_take_step(pieces@, i as int);
            lemma_sum_take_monotone(pieces@, i as int + 1, fi);
            lemma_alignment_parts(acc as nat, num_bytes@);
            lemma_quantum_of_bounds(num_bytes@);
        }
        let alignment = get_piece_alignment(UnpaddedBytesAmount(acc), num_bytes);
        acc = acc + alignment.left_bytes.0 + num_bytes.0 + alignment.right_bytes.0;
        i = i + 1;
    }
    proof {
        if i == pieces.len() {
            assert(fi == pieces@.len());
        }
        lemma_quantum_of_bounds(piece.num_bytes@);
        lemma_alignment_parts(acc as nat, piece.num_bytes@);
    }
    let alignment = get_piece_alignment(UnpaddedBytesAmount(acc), piece.num_bytes);
    UnpaddedByteIndex::from(UnpaddedBytesAmount(acc + alignment.left_bytes.0))
}

/// In a sequence with pairwise-distinct keys, the first occurrence of the key
/// of the piece at position `i` is position `i` itself, so that piece starts at
/// the aligned total of the pieces before it plus its own left padding.
pub proof fn lemma_start_byte_at_index(pieces: Seq<PieceMetadata>, i: int)
    requires
        0 <= i < pieces.len(),
        forall|m: int, n: int|
            0 <= m < n < pieces.len() ==> pieces[m].piece_key@ != pieces[n].piece_key@,
    ensures
        first_index_of_key(pieces, pieces[i].piece_key@) == i,
        piece_start_byte(pieces, pieces[i]) == sum_with_alignment(pieces.take(i))
            + left_padding_of(sum_with_alignment(pieces.take(i)), pieces[i].num_bytes@),
{
    lemma_first_index_of_key_props(pieces, pieces[i].piece_key@);
    let fi = first_index_of_key(pieces, pieces[i].piece_key@);
    if fi < i {
        assert(pieces[fi].piece_key@ != pieces[i].piece_key@);
    }
}

/// Law: along a sequence of pieces with pairwise-distinct keys, start bytes are
/// non-decreasing in position.
pub proof fn lemma_start_bytes_non_decreasing(pieces: Seq<PieceMetadata>, i: int, j: int)
    requires
        0 <= i <= j < pieces.len(),
        forall|m: int, n: int|
            0 <= m < n < pieces.len() ==> pieces[m].piece_key@ != pieces[n].piece_key@,
    ensures
        piece_start_byte(pieces, pieces[i]) <= piece_start_byte(pieces, pieces[j]),
{
    lemma_start_byte_at_index(pieces, i);
    lemma_start_byte_at_index(pieces, j);
    if i < j {
        lemma_sum_take_step(pieces, i);
        lemma_sum_take_monotone(pieces, i + 1, j);
        lemma_alignment_parts(sum_with_alignment(pieces.take(i)), pieces[i].num_bytes@);
    }
}

} // verus!
