use pixelbox::record::Record;

// A tiny 2x2 RGB image: four distinct pixels, twelve bytes.
fn pixels_2x2() -> Vec<u8> {
    vec![255, 0, 0, 0, 255, 0, 0, 0, 255, 10, 20, 30]
}

#[test]
fn test_thumbnail_roundtrip() {
    let px = pixels_2x2();
    let rec = Record::from_decoded(
        "t.png".to_string(),
        "/t.png".to_string(),
        2,
        2,
        px.clone(),
        2,
        2,
        &vec![0u8, 1, 2],
        None,
        None,
    )
    .unwrap();
    // The stored thumbnail is a real encoding, not the raw pixels.
    assert!(!rec.thumbnail.is_empty());
    assert_ne!(rec.thumbnail, px);
    // Decoding restores the pixels and dimensions losslessly.
    let (decoded, w, h) = rec.get_thumbnail().unwrap();
    assert_eq!((w, h), (2, 2));
    assert_eq!(decoded, px);
}

#[test]
fn test_from_decoded_rejects_short_pixel_data() {
    let r = Record::from_decoded(
        "t.png".to_string(),
        "/t.png".to_string(),
        2,
        2,
        vec![1u8, 2, 3],
        2,
        2,
        &vec![],
        None,
        None,
    );
    assert!(r.is_err());
}

#[test]
fn test_exif_extraction_is_best_effort() {
    // Raw bytes that are no image container at all: extraction fails
    // quietly and the record simply has no tags.
    let rec = Record::from_decoded(
        "t.png".to_string(),
        "/t.png".to_string(),
        2,
        2,
        pixels_2x2(),
        2,
        2,
        &vec![1u8, 2, 3, 4, 5],
        None,
        None,
    )
    .unwrap();
    assert!(rec.tags.is_empty());
}

#[test]
fn test_exif_extraction_reads_real_tags() {
    // A minimal little-endian TIFF: one IFD holding one SHORT tag,
    // ImageWidth = 100.
    let tiff: Vec<u8> = vec![
        0x49, 0x49, 0x2A, 0x00, 0x08, 0x00, 0x00, 0x00, // header, IFD at 8
        0x01, 0x00, // one entry
        0x00, 0x01, 0x03, 0x00, 0x01, 0x00, 0x00, 0x00, 0x64, 0x00, 0x00, 0x00,
        0x00, 0x00, 0x00, 0x00, // no next IFD
    ];
    let rec = Record::from_decoded(
        "t.tif".to_string(),
        "/t.tif".to_string(),
        2,
        2,
        pixels_2x2(),
        2,
        2,
        &tiff,
        None,
        None,
    )
    .unwrap();
    assert_eq!(rec.tags.len(), 1);
    assert_eq!(rec.tags[0].0, "ImageWidth");
    assert_eq!(rec.tags[0].1, "100");
}

#[test]
fn test_thumbnail_of_stored_bytes_only_decodes_valid_blobs() {
    let mut rec = Record::from_decoded(
        "t.png".to_string(),
        "/t.png".to_string(),
        2,
        2,
        pixels_2x2(),
        2,
        2,
        &vec![],
        None,
        None,
    )
    .unwrap();
    rec.thumbnail = vec![9u8, 9, 9];
    assert!(rec.get_thumbnail().is_none());
}
