use pixelbox::distance::{
    byte_distance, cosine_distance, hamming_distance, Distance, DistanceError,
};

fn as_f32(d: Distance) -> f32 {
    d.num as f32 / d.den as f32
}

#[test]
fn test_hamming_distance() {
    assert_eq!(as_f32(hamming_distance(&vec![0u8], &vec![0xFFu8]).unwrap()), 1f32);
    assert_eq!(as_f32(hamming_distance(&vec![0x0Fu8], &vec![0xFFu8]).unwrap()), 0.5f32);
    assert_eq!(as_f32(hamming_distance(&vec![0x0u8], &vec![0x0u8]).unwrap()), 0.0f32);
    assert_eq!(
        as_f32(hamming_distance(&vec![0b10101010u8], &vec![0b01010101u8]).unwrap()),
        1f32
    );
    assert_eq!(
        as_f32(
            hamming_distance(&vec![0b10101010u8, 0b01010101u8], &vec![0b01010101u8, 0b10101010u8])
                .unwrap()
        ),
        1f32
    );
    assert_eq!(
        as_f32(hamming_distance(&vec![0xFFu8, 0x0Fu8], &vec![0x0Fu8, 0x0Fu8]).unwrap()),
        0.25f32
    ); // 4 bits are different.
}

#[test]
fn test_cosine_distance() {
    assert!(as_f32(cosine_distance(&vec![255u8, 0], &vec![255u8, 0]).unwrap()) < 1e-6f32);
    assert!(as_f32(cosine_distance(&vec![0, 255], &vec![0, 255]).unwrap()) < 1e-6f32);
    assert!(as_f32(cosine_distance(&vec![255, 0], &vec![0, 255]).unwrap()) > 2.0f32);
}

#[test]
fn test_byte_distance_values() {
    let d = byte_distance(&vec![0u8, 0], &vec![255u8, 255]).unwrap();
    assert_eq!(as_f32(d), 1.0f32);
    let d = byte_distance(&vec![0u8], &vec![0u8]).unwrap();
    assert_eq!(as_f32(d), 0.0f32);
    // Mean of |10-20| and |30-10| is 15; over 255 that is 30/510.
    let d = byte_distance(&vec![10u8, 30], &vec![20u8, 10]).unwrap();
    assert_eq!(d.num, 30);
    assert_eq!(d.den, 510);
}

#[test]
fn test_distance_symmetry() {
    let a = vec![1u8, 200, 30, 77];
    let b = vec![250u8, 3, 99, 140];
    assert_eq!(hamming_distance(&a, &b).unwrap(), hamming_distance(&b, &a).unwrap());
    assert_eq!(byte_distance(&a, &b).unwrap(), byte_distance(&b, &a).unwrap());
    assert_eq!(cosine_distance(&a, &b).unwrap(), cosine_distance(&b, &a).unwrap());
}

#[test]
fn test_distance_rejects_bad_input() {
    assert_eq!(
        hamming_distance(&vec![1u8], &vec![1u8, 2]),
        Err(DistanceError::LengthMismatch)
    );
    assert_eq!(byte_distance(&vec![], &vec![1u8]), Err(DistanceError::LengthMismatch));
    assert_eq!(cosine_distance(&vec![], &vec![]), Err(DistanceError::EmptyVector));
}

#[test]
fn test_cosine_known_direction() {
    // A pair with a small positive angle lands strictly between
    // parallel (0) and the orthogonal cap.
    let a = vec![255u8, 255, 0];
    let b = vec![255u8, 200, 40];
    let d = cosine_distance(&a, &b).unwrap();
    assert!(d.num > 0);
    assert!(as_f32(d) < 2.0f32);
}
