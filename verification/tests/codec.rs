//! Frame codec and configuration behaviour, at the byte level.
use robin::{Meta, TransferConfig, Fragment, FrameError, Sender};
use robin::frame::{encode, decode};
use sha2::Digest;

fn sample_config() -> TransferConfig {
    TransferConfig {
        transfer_length: 10,
        symbol_size: 4,
        source_blocks: 1,
        sub_blocks: 1,
        alignment: 1,
    }
}

fn sample_meta() -> Meta {
    Meta { filename: b"sample.bin".to_vec(), config: sample_config() }
}

fn sample_fragment() -> Fragment {
    Fragment { block: 0, symbol_id: 7, payload: vec![1, 2, 3, 4] }
}

#[test]
fn frame_round_trip() {
    let meta = sample_meta();
    let frag = sample_fragment();
    let bytes = encode(&meta, &frag);
    let (m2, f2) = decode(&bytes).expect("a freshly encoded frame must decode");
    assert_eq!(m2, meta);
    assert_eq!(f2, frag);
}

#[test]
fn frame_round_trip_empty_name_and_payload() {
    let meta = Meta { filename: Vec::new(), config: sample_config() };
    let frag = Fragment { block: 3, symbol_id: 0xFFFFFF, payload: Vec::new() };
    let bytes = encode(&meta, &frag);
    let (m2, f2) = decode(&bytes).expect("decode");
    assert_eq!(m2, meta);
    assert_eq!(f2, frag);
}

#[test]
fn truncated_frame_is_malformed() {
    let bytes = encode(&sample_meta(), &sample_fragment());
    assert_eq!(decode(&bytes[..10]), Err(FrameError::MalformedFrame));
    assert_eq!(decode(&[]), Err(FrameError::MalformedFrame));
    // Too short to carry the fixed header after the digest is split off.
    assert_eq!(decode(&bytes[bytes.len() - 40..]), Err(FrameError::DigestMismatch));
}

#[test]
fn digest_bit_flip_is_rejected() {
    let bytes = encode(&sample_meta(), &sample_fragment());
    for k in 0..8 {
        let mut bad = bytes.clone();
        let n = bad.len();
        bad[n - 1 - k] ^= 1 << k;
        assert_eq!(decode(&bad), Err(FrameError::DigestMismatch));
    }
}

#[test]
fn buffer_bit_flip_is_rejected() {
    let bytes = encode(&sample_meta(), &sample_fragment());
    let inner_len = bytes.len() - 32;
    for pos in [0usize, 5, 14, 20, inner_len - 1] {
        let mut bad = bytes.clone();
        bad[pos] ^= 0x80;
        assert_eq!(decode(&bad), Err(FrameError::DigestMismatch));
    }
}

#[test]
fn name_length_lying_is_malformed() {
    // A frame whose digest is correct but whose filename length field points
    // past the end of the buffer: rebuilt by hand so the digest matches.
    let meta = sample_meta();
    let frag = sample_fragment();
    let good = encode(&meta, &frag);
    let mut inner = good[..good.len() - 32].to_vec();
    inner[14] = 0xFF;
    inner[15] = 0xFF;
    // The codec's own encoder always writes a consistent length, so splice a
    // matching digest onto the tampered buffer directly.
    let dg = sha2::Sha256::digest(&inner);
    let mut bad = inner;
    bad.extend_from_slice(&dg);
    assert_eq!(decode(&bad), Err(FrameError::MalformedFrame));
}

#[test]
fn sender_policy_defaults() {
    let s = Sender::new();
    assert!(s.systematic);
    assert_eq!(s.initial_repairs, 0);
    assert_eq!(s.residual_batch_size, 1);
    assert_eq!(s.starting_offset, 0);
    assert!(s.shuffle);
    assert_eq!(Sender::default(), s);
}

#[test]
fn meta_equality_is_structural() {
    let a = sample_meta();
    let mut b = sample_meta();
    assert_eq!(a, b);
    b.config.transfer_length = 11;
    assert_ne!(a, b, "same filename with a different configuration is a different transfer");
}
