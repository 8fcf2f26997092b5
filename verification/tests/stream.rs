use piece_alignment::bytes_amount::UnpaddedBytesAmount;
use piece_alignment::metadata::PieceMetadata;
use piece_alignment::pieces::get_piece_alignment;
use piece_alignment::stream::{expected_bytes_written, get_aligned_source, with_alignment};

fn piece(key: &str, num_bytes: u64) -> PieceMetadata {
    PieceMetadata {
        piece_key: String::from(key),
        num_bytes: UnpaddedBytesAmount(num_bytes),
    }
}

#[test]
fn aligned_source_round_trip() {
    // No pieces written yet: a 5-byte piece gets no left padding and 122 zero
    // bytes of right padding, one 127-byte quantum in all.
    let source: Vec<u8> = vec![1, 2, 3, 4, 5];
    let pieces: Vec<PieceMetadata> = Vec::new();
    let (expected, padded) = get_aligned_source(&source, &pieces, UnpaddedBytesAmount(5));
    assert_eq!(expected, UnpaddedBytesAmount(127));
    assert_eq!(padded.len(), 127);
    assert_eq!(&padded[..5], &[1, 2, 3, 4, 5]);
    assert!(padded[5..].iter().all(|b| *b == 0));
}

#[test]
fn aligned_source_pads_left_and_right() {
    // After a 100-byte piece (which consumed one 127-byte quantum), a 100-byte
    // piece needs 27 zero bytes on each side... but the cursor sits on a
    // boundary, so only the right padding remains.
    let committed = vec![piece("a", 100)];
    let source: Vec<u8> = vec![7; 100];
    let (expected, padded) = get_aligned_source(&source, &committed, UnpaddedBytesAmount(100));
    assert_eq!(expected, UnpaddedBytesAmount(127));
    assert_eq!(padded.len(), 127);
    assert_eq!(&padded[..100], vec![7u8; 100].as_slice());
    assert!(padded[100..].iter().all(|b| *b == 0));
}

#[test]
fn with_alignment_concatenates_the_three_segments() {
    let alignment = get_piece_alignment(UnpaddedBytesAmount(100), UnpaddedBytesAmount(100));
    let source: Vec<u8> = (1..=100).collect();
    let padded = with_alignment(&source, &alignment);
    assert_eq!(padded.len(), 154);
    assert!(padded[..27].iter().all(|b| *b == 0));
    assert_eq!(&padded[27..127], source.as_slice());
    assert!(padded[127..].iter().all(|b| *b == 0));
}

#[test]
fn expected_bytes_written_totals_the_alignment() {
    let alignment = get_piece_alignment(UnpaddedBytesAmount(100), UnpaddedBytesAmount(100));
    assert_eq!(
        expected_bytes_written(&alignment, UnpaddedBytesAmount(100)),
        Some(UnpaddedBytesAmount(154))
    );
}

#[test]
fn empty_source_still_occupies_a_quantum() {
    let pieces: Vec<PieceMetadata> = Vec::new();
    let source: Vec<u8> = Vec::new();
    let (expected, padded) = get_aligned_source(&source, &pieces, UnpaddedBytesAmount(0));
    assert_eq!(expected, UnpaddedBytesAmount(127));
    assert_eq!(padded, vec![0u8; 127]);
}
