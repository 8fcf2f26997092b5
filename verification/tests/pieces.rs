use piece_alignment::bytes_amount::{UnpaddedByteIndex, UnpaddedBytesAmount};
use piece_alignment::metadata::PieceMetadata;
use piece_alignment::pieces::{
    checked_sum_piece_bytes_with_alignment, get_piece_alignment, get_piece_by_key,
    get_piece_start_byte, sum_piece_bytes_with_alignment, PieceAlignment, MAX_PIECE_BYTES,
};

#[test]
fn test_get_piece_alignment() {
    let table = vec![
        (0, 0, (0, 127)),
        (0, 127, (0, 0)),
        (0, 254, (0, 0)),
        (0, 508, (0, 0)),
        (0, 1016, (0, 0)),
        (127, 127, (0, 0)),
        (127, 254, (127, 0)),
        (127, 508, (381, 0)),
        (100, 100, (27, 27)),
        (200, 200, (54, 54)),
        (300, 300, (208, 208)),
    ];

    for (bytes_in_sector, bytes_in_piece, (expected_left_align, expected_right_align)) in
        table.clone()
    {
        let PieceAlignment {
            left_bytes: UnpaddedBytesAmount(actual_left_align),
            right_bytes: UnpaddedBytesAmount(actual_right_align),
        } = get_piece_alignment(
            UnpaddedBytesAmount(bytes_in_sector),
            UnpaddedBytesAmount(bytes_in_piece),
        );
        assert_eq!(
            (expected_left_align, expected_right_align),
            (actual_left_align, actual_right_align)
        );
    }
}

#[test]
fn test_get_piece_start_byte() {
    let mut pieces: Vec<PieceMetadata> = Default::default();

    let piece_a = PieceMetadata {
        piece_key: String::from("a"),
        num_bytes: UnpaddedBytesAmount(31),
    };

    let piece_b = PieceMetadata {
        piece_key: String::from("b"),
        num_bytes: UnpaddedBytesAmount(32),
    };

    let piece_c = PieceMetadata {
        piece_key: String::from("c"),
        num_bytes: UnpaddedBytesAmount(33),
    };

    pieces.push(piece_a);
    pieces.push(piece_b);
    pieces.push(piece_c);

    assert_eq!(
        get_piece_start_byte(&pieces, &pieces[0]),
        UnpaddedByteIndex(0)
    );
    assert_eq!(
        get_piece_start_byte(&pieces, &pieces[1]),
        UnpaddedByteIndex(127)
    );
    assert_eq!(
        get_piece_start_byte(&pieces, &pieces[2]),
        UnpaddedByteIndex(254)
    );
}

fn piece(key: &str, num_bytes: u64) -> PieceMetadata {
    PieceMetadata {
        piece_key: String::from(key),
        num_bytes: UnpaddedBytesAmount(num_bytes),
    }
}

#[test]
fn sum_of_no_pieces_is_zero() {
    let pieces: Vec<PieceMetadata> = Vec::new();
    assert_eq!(sum_piece_bytes_with_alignment(&pieces), UnpaddedBytesAmount(0));
}

#[test]
fn sum_counts_padding_of_each_piece() {
    // 31 -> 0 + 31 + 96, 32 -> 0 + 32 + 95, 33 -> 0 + 33 + 94: one quantum each.
    let pieces = vec![piece("a", 31), piece("b", 32), piece("c", 33)];
    assert_eq!(
        sum_piece_bytes_with_alignment(&pieces),
        UnpaddedBytesAmount(381)
    );
}

#[test]
fn sum_is_order_sensitive() {
    // A 254-byte piece after a 31-byte piece needs left padding up to 254.
    let small_first = vec![piece("a", 31), piece("b", 254)];
    assert_eq!(
        sum_piece_bytes_with_alignment(&small_first),
        UnpaddedBytesAmount(508)
    );
    let large_first = vec![piece("b", 254), piece("a", 31)];
    assert_eq!(
        sum_piece_bytes_with_alignment(&large_first),
        UnpaddedBytesAmount(381)
    );
}

#[test]
fn checked_sum_matches_plain_sum() {
    let pieces = vec![piece("a", 31), piece("b", 254)];
    assert_eq!(
        checked_sum_piece_bytes_with_alignment(&pieces),
        Some(UnpaddedBytesAmount(508))
    );
}

#[test]
fn checked_sum_reports_overflow() {
    // Each piece occupies a full 127 * 2^57 quantum; two do not fit in a u64.
    let pieces = vec![piece("a", MAX_PIECE_BYTES), piece("b", MAX_PIECE_BYTES)];
    assert_eq!(checked_sum_piece_bytes_with_alignment(&pieces), None);
}

#[test]
fn checked_sum_reports_oversized_piece() {
    let pieces = vec![piece("a", MAX_PIECE_BYTES + 1)];
    assert_eq!(checked_sum_piece_bytes_with_alignment(&pieces), None);
}

#[test]
fn get_piece_by_key_finds_first_match() {
    let pieces = vec![piece("a", 31), piece("b", 32), piece("b", 33)];
    let found = get_piece_by_key(&pieces, "b").unwrap();
    assert_eq!(found.piece_key, "b");
    assert_eq!(found.num_bytes, UnpaddedBytesAmount(32));
    assert_eq!(get_piece_by_key(&pieces, "d"), None);
}

#[test]
fn start_byte_of_missing_key_is_after_everything() {
    // A key that never occurs makes the whole sequence the prefix.
    let pieces = vec![piece("a", 31), piece("b", 32)];
    let absent = piece("z", 10);
    assert_eq!(
        get_piece_start_byte(&pieces, &absent),
        UnpaddedByteIndex(254)
    );
}

#[test]
fn alignment_of_cursor_on_boundary_adds_no_left_padding() {
    let r = get_piece_alignment(UnpaddedBytesAmount(254), UnpaddedBytesAmount(127));
    assert_eq!(r.left_bytes, UnpaddedBytesAmount(0));
    assert_eq!(r.right_bytes, UnpaddedBytesAmount(0));
}

#[test]
fn alignment_of_largest_piece() {
    let r = get_piece_alignment(UnpaddedBytesAmount(0), UnpaddedBytesAmount(MAX_PIECE_BYTES));
    assert_eq!(r.left_bytes, UnpaddedBytesAmount(0));
    assert_eq!(r.right_bytes, UnpaddedBytesAmount(0));
}
