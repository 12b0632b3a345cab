//! Tests of the binary audio request codec and the worker-side guard.

use voxtype::codec::{decode_sample_count, decode_samples, encode_request, MAX_SAMPLES};
use voxtype::worker::sample_count_guard;
use voxtype::response::WorkerResponse;

#[test]
fn encoding_is_byte_exact() {
    let samples: Vec<u32> = vec![0x0403_0201, 0x0807_0605];
    let bytes = encode_request(&samples);
    assert_eq!(bytes, vec![2, 0, 0, 0, 1, 2, 3, 4, 5, 6, 7, 8]);
    assert_eq!(bytes.len(), 4 + 4 * samples.len());
}

#[test]
fn request_round_trips() {
    let samples: Vec<u32> = (0..4800u32).map(|i| i.wrapping_mul(2654435761)).collect();
    let bytes = encode_request(&samples);
    assert_eq!(bytes.len(), 4 + 4 * samples.len());
    let count = decode_sample_count(&bytes[0..4]);
    assert_eq!(count as usize, samples.len());
    let decoded = decode_samples(&bytes[4..], count);
    assert_eq!(decoded, samples);
}

#[test]
fn sample_bytes_match_float_bytes() {
    // a sample's wire bytes are the little-endian bytes of its f32 value
    let value: f32 = 0.25;
    let samples: Vec<u32> = vec![value.to_bits()];
    let bytes = encode_request(&samples);
    assert_eq!(&bytes[4..8], &value.to_le_bytes());
}

#[test]
fn guard_rejects_zero_and_oversized_counts() {
    match sample_count_guard(0) {
        Some(WorkerResponse::Error { message }) => assert_eq!(message, "Empty audio buffer"),
        _ => panic!("a zero count must be answered with an error"),
    }
    match sample_count_guard(MAX_SAMPLES + 1) {
        Some(WorkerResponse::Error { message }) => {
            assert_eq!(message, "Sample count too large: 9600001 (max 9600000)")
        },
        _ => panic!("an oversized count must be answered with an error"),
    }
}

#[test]
fn guard_accepts_counts_in_range() {
    assert!(sample_count_guard(1).is_none());
    assert!(sample_count_guard(16000).is_none());
    assert!(sample_count_guard(MAX_SAMPLES).is_none());
}
