//! End-to-end protocol behaviour: scheduling, multiplexed receipt,
//! completion, idempotence and loss tolerance, with the real coder linked.
use robin::{Sender, SendSession, Receiver, RecvOutcome, FrameError};

fn pattern(len: usize) -> Vec<u8> {
    (0..len).map(|i| ((i * 31 + 7) % 251) as u8).collect()
}

fn plain_policy() -> Sender {
    Sender {
        systematic: true,
        initial_repairs: 0,
        residual_batch_size: 1,
        starting_offset: 0,
        shuffle: false,
    }
}

fn session_for(name: &[u8], data: &[u8], policy: Sender) -> SendSession {
    SendSession::new(policy, name.to_vec(), data).expect("the coder accepts this source")
}

#[test]
fn systematic_scenario_small_file() {
    let data = pattern(5000);
    let session = session_for(b"file.bin", &data, plain_policy());
    let frames = session.systematic_frames();
    assert_eq!(frames.len(), 5, "ceil(5000 / 1200) source-equivalent fragments");

    let mut rx = Receiver::new();
    for k in 0..4 {
        match rx.recv(&frames[k]) {
            RecvOutcome::InProgress { received, required } => {
                assert_eq!(required, 5);
                assert_eq!(received, (k + 1) as u64);
            },
            _ => panic!("transfer must still be in progress"),
        }
    }
    match rx.recv(&frames[4]) {
        RecvOutcome::Completed { meta, data: out } => {
            assert_eq!(meta.filename, b"file.bin".to_vec());
            assert_eq!(out, data);
        },
        _ => panic!("the fifth fragment completes the transfer"),
    }
}

#[test]
fn order_independence() {
    let data = pattern(5000);
    let session = session_for(b"rev.bin", &data, plain_policy());
    let frames = session.systematic_frames();

    let mut rx = Receiver::new();
    let mut completed: Option<Vec<u8>> = None;
    for fr in frames.iter().rev() {
        if let RecvOutcome::Completed { data: out, .. } = rx.recv(fr) {
            completed = Some(out);
        }
    }
    assert_eq!(completed.expect("reversed delivery reconstructs"), data);
}

#[test]
fn shuffled_systematic_phase_reconstructs() {
    let data = pattern(4321);
    let mut policy = plain_policy();
    policy.shuffle = true;
    policy.initial_repairs = 1;
    let session = session_for(b"shuf.bin", &data, policy);
    let frames = session.systematic_frames();
    assert_eq!(frames.len(), 5, "4 source fragments and 1 initial repair");

    let mut rx = Receiver::new();
    let mut completed: Option<Vec<u8>> = None;
    for fr in frames.iter() {
        if let RecvOutcome::Completed { data: out, .. } = rx.recv(fr) {
            completed = Some(out);
        }
    }
    assert_eq!(completed.expect("a full systematic phase reconstructs"), data);
}

#[test]
fn idempotent_completion() {
    let data = pattern(3000);
    let session = session_for(b"idem.bin", &data, plain_policy());
    let frames = session.systematic_frames();

    let mut rx = Receiver::new();
    let mut completions = 0;
    for fr in frames.iter() {
        if let RecvOutcome::Completed { .. } = rx.recv(fr) {
            completions += 1;
        }
    }
    assert_eq!(completions, 1);
    assert!(rx.is_finalized(session.meta()));

    // Resubmitting every previously sent fragment neither completes again nor
    // resurrects the transfer.
    for fr in frames.iter() {
        match rx.recv(fr) {
            RecvOutcome::InProgress { received, required } => {
                assert_eq!(received, required);
            },
            _ => panic!("late fragments of a finished transfer report progress only"),
        }
    }
    assert!(rx.is_finalized(session.meta()));
}

#[test]
fn corrupted_frames_never_touch_the_table() {
    let data = pattern(2500);
    let session = session_for(b"guard.bin", &data, plain_policy());
    let frames = session.systematic_frames();
    let mut rx = Receiver::new();

    let mut bad = frames[0].clone();
    let n = bad.len();
    bad[n - 5] ^= 1;
    assert!(matches!(rx.recv(&bad), RecvOutcome::Rejected(FrameError::DigestMismatch)));
    assert!(!rx.is_known(session.meta()));

    let mut bad2 = frames[0].clone();
    bad2[3] ^= 0x40;
    assert!(matches!(rx.recv(&bad2), RecvOutcome::Rejected(FrameError::DigestMismatch)));
    assert!(!rx.is_known(session.meta()));

    assert!(matches!(rx.recv(&frames[0][..7]), RecvOutcome::Rejected(FrameError::MalformedFrame)));
    assert!(!rx.is_known(session.meta()));

    // After all that noise the intact frames still reconstruct the source.
    let mut completed: Option<Vec<u8>> = None;
    for fr in frames.iter() {
        if let RecvOutcome::Completed { data: out, .. } = rx.recv(fr) {
            completed = Some(out);
        }
    }
    assert_eq!(completed.expect("clean frames still complete"), data);
}

#[test]
fn multiplexing_isolation() {
    let data_a = pattern(3000);
    let data_b: Vec<u8> = pattern(7000).iter().map(|b| b ^ 0x5A).collect();
    let session_a = session_for(b"alpha.bin", &data_a, plain_policy());
    let session_b = session_for(b"beta.bin", &data_b, plain_policy());
    let frames_a = session_a.systematic_frames();
    let frames_b = session_b.systematic_frames();

    let mut rx = Receiver::new();
    let mut out_a: Option<Vec<u8>> = None;
    let mut out_b: Option<Vec<u8>> = None;
    let longest = frames_a.len().max(frames_b.len());
    for k in 0..longest {
        if k < frames_a.len() {
            if let RecvOutcome::Completed { meta, data } = rx.recv(&frames_a[k]) {
                assert_eq!(meta.filename, b"alpha.bin".to_vec());
                out_a = Some(data);
            }
        }
        if k < frames_b.len() {
            if let RecvOutcome::Completed { meta, data } = rx.recv(&frames_b[k]) {
                assert_eq!(meta.filename, b"beta.bin".to_vec());
                out_b = Some(data);
            }
        }
    }
    assert_eq!(out_a.expect("first transfer completes"), data_a);
    assert_eq!(out_b.expect("second transfer completes"), data_b);
}

#[test]
fn same_name_different_configuration_is_a_distinct_transfer() {
    let data_short = pattern(1000);
    let data_long = pattern(6000);
    let session_short = session_for(b"twin.bin", &data_short, plain_policy());
    let session_long = session_for(b"twin.bin", &data_long, plain_policy());

    let mut rx = Receiver::new();
    let mut done_long: Option<Vec<u8>> = None;
    for fr in session_long.systematic_frames().iter() {
        if let RecvOutcome::Completed { data, .. } = rx.recv(fr) {
            done_long = Some(data);
        }
    }
    assert_eq!(done_long.expect("long twin completes"), data_long);
    assert!(rx.is_finalized(session_long.meta()));
    assert!(!rx.is_known(session_short.meta()), "the short twin is a separate key");

    let mut done_short: Option<Vec<u8>> = None;
    for fr in session_short.systematic_frames().iter() {
        if let RecvOutcome::Completed { data, .. } = rx.recv(fr) {
            done_short = Some(data);
        }
    }
    assert_eq!(done_short.expect("short twin completes"), data_short);
}

#[test]
fn loss_tolerance_with_repair_fragments() {
    let data = pattern(5000);
    let mut policy = plain_policy();
    policy.residual_batch_size = 2;
    let mut session = session_for(b"lossy.bin", &data, policy);
    let systematic = session.systematic_frames();
    assert_eq!(systematic.len(), 5);

    // Two systematic fragments are lost; the residual fountain covers them.
    let mut rx = Receiver::new();
    let mut completed: Option<Vec<u8>> = None;
    for (k, fr) in systematic.iter().enumerate() {
        if k == 1 || k == 3 {
            continue;
        }
        assert!(matches!(rx.recv(fr), RecvOutcome::InProgress { .. }));
    }
    let mut passes = 0;
    while completed.is_none() && passes < 30 {
        let repair = session.residual_pass().expect("repair ids far from exhausted");
        assert_eq!(repair.len(), 2, "one block, batch size two");
        for fr in repair.iter() {
            if let RecvOutcome::Completed { data: out, .. } = rx.recv(fr) {
                completed = Some(out);
                break;
            }
        }
        passes += 1;
    }
    assert_eq!(completed.expect("repair fragments cover the losses"), data);
}

#[test]
fn too_few_fragments_never_complete() {
    let data = pattern(5000);
    let session = session_for(b"short.bin", &data, plain_policy());
    let frames = session.systematic_frames();

    let mut rx = Receiver::new();
    // Only 4 of the 5 required symbols, resubmitted over and over: never a
    // spurious completion, and progress stays at 4 of 5.
    for _round in 0..3 {
        for fr in frames.iter().take(4) {
            match rx.recv(fr) {
                RecvOutcome::InProgress { received, required } => {
                    assert_eq!(required, 5);
                    assert!(received <= 4);
                },
                _ => panic!("an insufficient set must never complete"),
            }
        }
    }
    assert!(!rx.is_finalized(session.meta()));
}

#[test]
fn fountain_only_reconstruction() {
    let data = pattern(4000);
    let mut policy = plain_policy();
    policy.systematic = false;
    policy.residual_batch_size = 3;
    let mut session = session_for(b"fountain.bin", &data, policy);
    assert!(session.systematic_frames().is_empty(), "the systematic phase is disabled");

    let mut rx = Receiver::new();
    let mut completed: Option<Vec<u8>> = None;
    let mut passes = 0;
    while completed.is_none() && passes < 30 {
        let repair = session.residual_pass().expect("repair ids far from exhausted");
        for fr in repair.iter() {
            if let RecvOutcome::Completed { data: out, .. } = rx.recv(fr) {
                completed = Some(out);
                break;
            }
        }
        passes += 1;
    }
    assert_eq!(
        completed.expect("a receiver that missed the systematic phase still reconstructs"),
        data,
    );
}

#[test]
fn shuffle_preserves_the_fragment_set() {
    let data = pattern(5000);
    let mut shuffled = plain_policy();
    shuffled.shuffle = true;
    let session_plain = session_for(b"same.bin", &data, plain_policy());
    let session_shuffled = session_for(b"same.bin", &data, shuffled);
    let mut frames_plain = session_plain.systematic_frames();
    let mut frames_shuffled = session_shuffled.systematic_frames();
    frames_plain.sort();
    frames_shuffled.sort();
    assert_eq!(
        frames_plain, frames_shuffled,
        "shuffling permutes the frames but neither drops nor duplicates one"
    );
}

#[test]
fn residual_passes_never_repeat_material() {
    let data = pattern(5000);
    let mut policy = plain_policy();
    policy.residual_batch_size = 2;
    let mut session = session_for(b"fresh.bin", &data, policy);
    let mut ids: Vec<(u8, u32)> = Vec::new();
    for _pass in 0..3 {
        let frames = session.residual_pass().expect("repair ids far from exhausted");
        assert_eq!(frames.len(), 2);
        for fr in frames.iter() {
            let (meta, frag) = robin::frame::decode(fr).expect("scheduler frames decode");
            assert_eq!(meta.filename, b"fresh.bin".to_vec());
            ids.push((frag.block, frag.symbol_id));
        }
    }
    let mut deduped = ids.clone();
    deduped.sort();
    deduped.dedup();
    assert_eq!(deduped.len(), ids.len(), "no repair fragment id is ever produced twice");
}

#[test]
fn degenerate_configuration_is_rejected_not_fed() {
    // A frame anyone can craft: correct digest (integrity, not
    // authentication), a fragment consistent with its own header fields, but
    // a configuration with a zero sub-block count, which the coder would
    // divide by. The receiver must drop it as malformed, never build a
    // decoder for it.
    let config = robin::TransferConfig {
        transfer_length: 1,
        symbol_size: 1,
        source_blocks: 1,
        sub_blocks: 0,
        alignment: 1,
    };
    let meta = robin::Meta { filename: b"evil.bin".to_vec(), config };
    let frag = robin::Fragment { block: 0, symbol_id: 0, payload: vec![0x41] };
    let bytes = robin::frame::encode(&meta, &frag);
    let mut rx = Receiver::new();
    assert!(matches!(rx.recv(&bytes), RecvOutcome::Rejected(FrameError::MalformedFrame)));
    assert!(!rx.is_known(&meta));

    // The same frame with a unit sub-block count is a valid one-byte transfer.
    let good_config = robin::TransferConfig { sub_blocks: 1, ..config };
    let good_meta = robin::Meta { filename: b"evil.bin".to_vec(), config: good_config };
    let good = robin::frame::encode(&good_meta, &frag);
    match rx.recv(&good) {
        RecvOutcome::Completed { data, .. } => assert_eq!(data, vec![0x41]),
        _ => panic!("a complete one-symbol transfer finishes at once"),
    }
}

#[test]
fn equal_sources_emit_equal_frames() {
    // The coder's outputs are deterministic functions of (source, fragment
    // size, policy): two sessions over the same inputs schedule the same
    // frames, in the same order when shuffling is off.
    let data = pattern(4444);
    let mut policy = plain_policy();
    policy.initial_repairs = 2;
    policy.residual_batch_size = 2;
    let mut first = session_for(b"twice.bin", &data, policy);
    let mut second = session_for(b"twice.bin", &data, policy);
    assert_eq!(first.systematic_frames(), second.systematic_frames());
    assert_eq!(first.residual_pass().unwrap(), second.residual_pass().unwrap());
    assert_eq!(first.residual_pass().unwrap(), second.residual_pass().unwrap());
}

#[test]
fn single_fragment_transfer_completes_immediately() {
    let data = pattern(600);
    let session = session_for(b"tiny.bin", &data, plain_policy());
    let frames = session.systematic_frames();
    assert_eq!(frames.len(), 1);
    let mut rx = Receiver::new();
    match rx.recv(&frames[0]) {
        RecvOutcome::Completed { data: out, .. } => assert_eq!(out, data),
        _ => panic!("one fragment suffices for a sub-symbol source"),
    }
}
