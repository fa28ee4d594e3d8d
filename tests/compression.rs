use rollback_server::compression::{compress_packet, decompress_packet, CompressionError};

#[test]
fn test_compress_decompress_empty() {
    let empty: Vec<u8> = vec![];
    let compressed = compress_packet(&empty).unwrap();
    assert_eq!(compressed.len(), 0);

    let decompressed = decompress_packet(&compressed, Some(0)).unwrap();
    assert_eq!(decompressed.len(), 0);
}

#[test]
fn test_compress_decompress_simple() {
    let input = vec![1, 0, 3, 0, 0, 6, 7, 0, 9];
    let compressed = compress_packet(&input).unwrap();
    let decompressed = decompress_packet(&compressed, Some(input.len())).unwrap();

    assert_eq!(decompressed, input);
}

#[test]
fn test_compress_decompress_all_zeros() {
    let input = vec![0, 0, 0, 0, 0, 0, 0, 0];
    let compressed = compress_packet(&input).unwrap();

    // For 8 zeros, we should just have a single mask byte of 0
    assert_eq!(compressed.len(), 1);
    assert_eq!(compressed[0], 0);

    let decompressed = decompress_packet(&compressed, Some(input.len())).unwrap();
    assert_eq!(decompressed, input);
}

#[test]
fn test_compress_decompress_all_nonzeros() {
    let input = vec![1, 2, 3, 4, 5, 6, 7, 8];
    let compressed = compress_packet(&input).unwrap();

    // For 8 non-zeros, we should have 1 mask byte + 8 data bytes
    assert_eq!(compressed.len(), 9);
    assert_eq!(compressed[0], 0xFF); // all bits set

    let decompressed = decompress_packet(&compressed, Some(input.len())).unwrap();
    assert_eq!(decompressed, input);
}

#[test]
fn compressed_bytes_of_mixed_input() {
    let input = vec![1, 0, 3, 0, 0, 6, 7, 0, 9];
    let compressed = compress_packet(&input).unwrap();
    assert_eq!(compressed, vec![0x65, 1, 3, 6, 7, 0x01, 9]);
}

#[test]
fn zero_runs_compress_to_one_mask_per_group() {
    for n in [1usize, 7, 8, 9, 16, 20, 1024] {
        let input = vec![0u8; n];
        let compressed = compress_packet(&input).unwrap();
        assert_eq!(compressed.len(), (n + 7) / 8);
        assert!(compressed.iter().all(|b| *b == 0));
        assert_eq!(decompress_packet(&compressed, Some(n)).unwrap(), input);
    }
}

#[test]
fn round_trip_of_assorted_inputs() {
    let mut input = Vec::new();
    for i in 0..900u32 {
        input.push(if i % 3 == 0 { 0 } else { (i % 251) as u8 });
    }
    let compressed = compress_packet(&input).unwrap();
    assert_eq!(decompress_packet(&compressed, Some(input.len())).unwrap(), input);
}

#[test]
fn compression_overflow_is_reported() {
    let input = vec![7u8; 1024];
    assert_eq!(compress_packet(&input), Err(CompressionError::Overflow));
    let fits = vec![7u8; 910];
    assert_eq!(compress_packet(&fits).unwrap().len(), 910 + 114);
}

#[test]
fn decompression_rejects_oversize_length() {
    assert_eq!(decompress_packet(&[0u8], Some(1025)), Err(CompressionError::Oversize));
}

#[test]
fn decompression_reports_missing_data_byte() {
    assert_eq!(decompress_packet(&[0x03, 5], Some(8)), Err(CompressionError::Truncated));
}

#[test]
fn decompression_stops_at_requested_length() {
    let out = decompress_packet(&[0xFF, 1, 2, 3, 4, 5, 6, 7, 8], Some(3)).unwrap();
    assert_eq!(out, vec![1, 2, 3]);
}

#[test]
fn decompression_with_default_length_ends_with_input() {
    let out = decompress_packet(&[0x01, 9, 0x02, 4], None).unwrap();
    assert_eq!(out, vec![9, 0, 0, 0, 0, 0, 0, 0, 0, 4, 0, 0, 0, 0, 0, 0]);
}
