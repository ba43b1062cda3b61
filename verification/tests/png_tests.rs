use arcaferry::png::{
    build_png, embed_card, extract_ccv3_data, extract_idat_chunks, get_card_data,
    inject_text_chunk, read_chunks, read_text_chunks, remove_text_chunk, PngChunk,
};
use arcaferry::error::ArcaferryError;

/// A minimal valid PNG: IHDR, one IDAT, IEND, with fresh CRCs.
fn create_minimal_png() -> Vec<u8> {
    let ihdr_data: Vec<u8> = vec![0, 0, 0, 1, 0, 0, 0, 1, 8, 0, 0, 0, 0];
    let idat_data: Vec<u8> = vec![0x08, 0xD7, 0x63, 0x60, 0x00, 0x00, 0x00, 0x02, 0x00, 0x01];
    let chunks = vec![
        PngChunk::new(b"IHDR", ihdr_data),
        PngChunk::new(b"IDAT", idat_data),
        PngChunk::new(b"IEND", vec![]),
    ];
    build_png(&chunks)
}

#[test]
fn test_read_chunks() {
    let png = create_minimal_png();
    let chunks = read_chunks(&png).unwrap();

    assert_eq!(chunks.len(), 3);
    assert_eq!(chunks[0].type_string(), "IHDR");
    assert_eq!(chunks[1].type_string(), "IDAT");
    assert_eq!(chunks[2].type_string(), "IEND");
}

#[test]
fn test_build_png_roundtrip() {
    let original = create_minimal_png();
    let chunks = read_chunks(&original).unwrap();
    let rebuilt = build_png(&chunks);

    let rebuilt_chunks = read_chunks(&rebuilt).unwrap();
    assert_eq!(chunks.len(), rebuilt_chunks.len());

    for (orig, rebuilt) in chunks.iter().zip(rebuilt_chunks.iter()) {
        assert_eq!(orig.type_string(), rebuilt.type_string());
        assert_eq!(orig.data, rebuilt.data);
    }
}

#[test]
fn test_inject_text_chunk() {
    let png = create_minimal_png();
    let json = r#"{"name":"Test"}"#;

    let modified = inject_text_chunk(&png, "ccv3", json, false).unwrap();
    let chunks = read_chunks(&modified).unwrap();

    // IHDR, IDAT, tEXt, IEND
    assert_eq!(chunks.len(), 4);

    let pairs = read_text_chunks(&modified).unwrap();
    assert_eq!(pairs.len(), 1);
    assert_eq!(pairs[0].0, "ccv3");
    assert_eq!(pairs[0].1, json);
}

#[test]
fn test_inject_preserves_idat() {
    let png = create_minimal_png();
    let original_idat = extract_idat_chunks(&png).unwrap();

    let modified = inject_text_chunk(&png, "ccv3", r#"{"test":true}"#, false).unwrap();
    let modified_idat = extract_idat_chunks(&modified).unwrap();

    assert_eq!(original_idat, modified_idat);
}

#[test]
fn test_remove_preserves_idat() {
    let png = create_minimal_png();
    let with_chunk = inject_text_chunk(&png, "ccv3", r#"{"a":1}"#, true).unwrap();
    let original_idat = extract_idat_chunks(&with_chunk).unwrap();

    let removed = remove_text_chunk(&with_chunk, "ccv3").unwrap();
    let removed_idat = extract_idat_chunks(&removed).unwrap();

    assert_eq!(original_idat, removed_idat);
    assert_eq!(read_text_chunks(&removed).unwrap().len(), 0);
}

#[test]
fn test_get_card_data_priority() {
    let png = create_minimal_png();

    let with_chara = inject_text_chunk(&png, "chara", r#"{"v2":"data"}"#, false).unwrap();
    let with_both = inject_text_chunk(&with_chara, "ccv3", r#"{"v3":"data"}"#, false).unwrap();

    let (format, data) = get_card_data(&with_both).unwrap().unwrap();
    assert_eq!(format, "ccv3");
    assert_eq!(data, r#"{"v3":"data"}"#);
}

#[test]
fn test_replace_existing_chunk() {
    let png = create_minimal_png();

    let first = inject_text_chunk(&png, "ccv3", r#"{"version":1}"#, false).unwrap();
    let second = inject_text_chunk(&first, "ccv3", r#"{"version":2}"#, true).unwrap();

    let text_chunks = read_text_chunks(&second).unwrap();

    assert_eq!(text_chunks.len(), 1);
    assert_eq!(text_chunks[0].0, "ccv3");
    assert_eq!(text_chunks[0].1, r#"{"version":2}"#);
}

#[test]
fn test_inject_replace_is_idempotent() {
    let png = create_minimal_png();
    let json = r#"{"keep":"me"}"#;

    let once = inject_text_chunk(&png, "ccv3", json, true).unwrap();
    let twice = inject_text_chunk(&once, "ccv3", json, true).unwrap();

    assert_eq!(once, twice);
}

#[test]
fn test_inject_extract_roundtrip() {
    let png = create_minimal_png();
    let json = "{\"name\":\"<p>HTML &amp; bytes</p>\",\"n\":7}";

    let modified = embed_card(&png, json).unwrap();
    let (format, extracted) = get_card_data(&modified).unwrap().unwrap();

    assert_eq!(format, "ccv3");
    assert_eq!(extracted, json);

    let again = extract_ccv3_data(&modified).unwrap().unwrap();
    assert_eq!(again, json);
}

#[test]
fn test_invalid_png_signature() {
    let invalid = vec![0x00, 0x01, 0x02, 0x03, 0x04, 0x05, 0x06, 0x07];
    let result = read_chunks(&invalid);
    assert!(matches!(result, Err(ArcaferryError::InvalidPngSignature)));
}

#[test]
fn test_truncated_chunk_is_reported() {
    let mut png = create_minimal_png();
    png.truncate(20);
    let result = read_chunks(&png);
    assert!(matches!(result, Err(ArcaferryError::PngChunkError(_))));
}
