use mosh::compressor::{compress, uncompress, CompressError, BUFFER_SIZE};

#[test]
fn round_trips() {
    for case in [
        &b""[..],
        b"hello",
        &[0u8; 10_000][..],
        "some unicode \u{4e00}\u{e9}".as_bytes(),
    ] {
        assert_eq!(uncompress(&compress(case).unwrap()).unwrap(), case);
    }
}

#[test]
fn compresses_repetitive_data() {
    let input = vec![b'a'; 100_000];
    let compressed = compress(&input).unwrap();
    assert!(
        compressed.len() < input.len() / 10,
        "repetitive data barely compressed: {} -> {}",
        input.len(),
        compressed.len()
    );
}

#[test]
fn writes_a_zlib_stream() {
    // The peer's zlib must recognise the framing: 0x78 is the zlib CMF byte for a
    // 32K window with deflate.
    let out = compress(b"hello").unwrap();
    assert_eq!(out[0], 0x78, "not a zlib stream: {:02x?}", &out[..2]);
}

#[test]
fn rejects_garbage_rather_than_dying() {
    assert_eq!(uncompress(b"not compressed"), Err(CompressError::Malformed));
    assert_eq!(uncompress(&[]), Err(CompressError::Malformed));
}

#[test]
fn rejects_a_decompression_bomb() {
    // A long run of zeroes compresses to almost nothing and expands past the limit.
    let bomb = compress(&vec![0u8; BUFFER_SIZE + 1]).unwrap();
    assert!(bomb.len() < 10_000, "test bomb was not actually small");
    assert_eq!(uncompress(&bomb), Err(CompressError::TooLarge));
}
