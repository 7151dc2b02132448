use file_tools::blob::blob_substr;
use file_tools::compress::{
    compress, compress_lz4, compress_zstd, decompress, decompress_with, CodecError,
    CompressionAlgorithm,
};

#[test]
fn test_blob_substr_logic() {
    // Test the core logic of BLOB substring extraction
    let test_blob = b"\x00\x01\x02\x03\x04\x05";

    // Normal case: substr(blob, 3, 2) returns the bytes at offsets 2-3
    let result = blob_substr(test_blob, 3, 2);
    assert_eq!(result, vec![0x02, 0x03]);

    // Start beyond blob size yields an empty buffer
    assert_eq!(blob_substr(test_blob, 10, 2), Vec::<u8>::new());

    // Negative length takes all available bytes from the offset
    assert_eq!(blob_substr(test_blob, 3, -1), vec![0x02, 0x03, 0x04, 0x05]);

    // Length larger than available clamps to what is there
    assert_eq!(blob_substr(test_blob, 3, 100), vec![0x02, 0x03, 0x04, 0x05]);

    // Zero length and start positions before one
    assert_eq!(blob_substr(test_blob, 3, 0), Vec::<u8>::new());
    assert_eq!(blob_substr(test_blob, 0, 2), vec![0x00, 0x01]);
    assert_eq!(blob_substr(b"", 1, 5), Vec::<u8>::new());
}

#[test]
fn gzip_round_trip_survives_auto_detection() {
    let data = b"compressible compressible compressible".to_vec();
    let packed = compress(&data);
    assert_eq!(packed[0], 0x1f);
    assert_eq!(packed[1], 0x8b);
    assert_eq!(decompress(&packed).unwrap(), data);
    assert_eq!(decompress_with(CompressionAlgorithm::Gzip, &packed).unwrap(), data);
    assert_eq!(
        CompressionAlgorithm::detect_from_header(&packed),
        Some(CompressionAlgorithm::Gzip)
    );
}

#[test]
fn zstd_round_trip_survives_auto_detection() {
    let data = b"zstandard data zstandard data".to_vec();
    let packed = compress_zstd(&data);
    assert_eq!(&packed[0..4], &[0x28, 0xb5, 0x2f, 0xfd]);
    assert_eq!(decompress(&packed).unwrap(), data);
}

#[test]
fn lz4_round_trip_survives_auto_detection() {
    let data = b"lz4 block data with a prepended size".to_vec();
    let packed = compress_lz4(&data);
    assert_eq!(decompress(&packed).unwrap(), data);
    assert_eq!(
        decompress_with(CompressionAlgorithm::Lz4, &packed).unwrap(),
        data
    );
}

#[test]
fn header_detection_reads_the_magic_bytes() {
    assert_eq!(
        CompressionAlgorithm::detect_from_header(&[0x1f, 0x8b, 0x00, 0x00]),
        Some(CompressionAlgorithm::Gzip)
    );
    assert_eq!(
        CompressionAlgorithm::detect_from_header(&[0x28, 0xb5, 0x2f, 0xfd]),
        Some(CompressionAlgorithm::Zstd)
    );
    assert_eq!(
        CompressionAlgorithm::detect_from_header(&[0x05, 0x00, 0x00, 0x00, 1, 2, 3, 4]),
        Some(CompressionAlgorithm::Lz4)
    );
    assert_eq!(CompressionAlgorithm::detect_from_header(&[0x1f]), None);
    assert_eq!(
        CompressionAlgorithm::detect_from_header(&[0x00, 0x00, 0x00, 0x00, 0, 0, 0, 0]),
        None
    );
}

#[test]
fn algorithm_names_parse_in_any_casing() {
    assert_eq!(
        CompressionAlgorithm::from_str("GZIP"),
        Ok(CompressionAlgorithm::Gzip)
    );
    assert_eq!(
        CompressionAlgorithm::from_str("gz"),
        Ok(CompressionAlgorithm::Gzip)
    );
    assert_eq!(
        CompressionAlgorithm::from_str("Lz4"),
        Ok(CompressionAlgorithm::Lz4)
    );
    assert_eq!(
        CompressionAlgorithm::from_str("zst"),
        Ok(CompressionAlgorithm::Zstd)
    );
    assert_eq!(
        CompressionAlgorithm::from_str("brotli"),
        Err(CodecError::UnknownAlgorithm)
    );
}

#[test]
fn malformed_input_reports_corrupt_data() {
    let garbage = [0x1f, 0x8b, 0x99, 0x99, 0x99, 0x99, 0x99, 0x99];
    assert_eq!(decompress(&garbage), Err(CodecError::CorruptData));
    assert_eq!(
        decompress_with(CompressionAlgorithm::Zstd, b"not zstd at all"),
        Err(CodecError::CorruptData)
    );
}
