use cognitora::error::Error;
use cognitora::layers::LayerRange;
use cognitora::pipeline::{check_decode_batch, check_pipeline_layers, pipeline_max_seq_len, PositionLedger};

fn lr(a: usize, b: usize) -> LayerRange {
    LayerRange { start: a, end: b }
}

#[test]
fn coordinator_must_start_at_zero() {
    match check_pipeline_layers(lr(2, 10), &[lr(10, 32)], 32) {
        Err(Error::Config(m)) => assert_eq!(m, "coordinator layer range must start at 0, got 2:10"),
        other => panic!("unexpected {other:?}"),
    }
}

#[test]
fn stages_must_tile_the_model() {
    assert!(check_pipeline_layers(lr(0, 10), &[lr(10, 20), lr(20, 32)], 32).is_ok());
    match check_pipeline_layers(lr(0, 10), &[lr(12, 32)], 32) {
        Err(Error::InvalidArgument(m)) => assert_eq!(
            m,
            "pipeline layer ranges must be contiguous: expected a range starting at 10, got 12:32"
        ),
        other => panic!("unexpected {other:?}"),
    }
    match check_pipeline_layers(lr(0, 10), &[lr(10, 30)], 32) {
        Err(Error::InvalidArgument(m)) => {
            assert_eq!(m, "pipeline layer ranges cover [0, 30) but the model has 32 layers")
        }
        other => panic!("unexpected {other:?}"),
    }
}

#[test]
fn max_seq_len_is_capped_and_positive() {
    assert_eq!(pipeline_max_seq_len(4096, 2048), 2048);
    assert_eq!(pipeline_max_seq_len(1024, 8192), 1024);
    assert_eq!(pipeline_max_seq_len(0, 8192), 1);
}

#[test]
fn decode_batches_hold_at_most_one_sequence() {
    assert!(check_decode_batch(0).is_ok());
    assert!(check_decode_batch(1).is_ok());
    match check_decode_batch(2) {
        Err(Error::Internal(m)) => assert_eq!(m, "pipeline runtime cannot decode a batch larger than 1"),
        other => panic!("unexpected {other:?}"),
    }
}

#[test]
fn worker_steps_continue_their_sequence() {
    let mut l = PositionLedger::new();
    assert!(l.worker_begin(7, 0).is_ok());
    l.advance(7, 5);
    assert_eq!(l.position(7), Some(5));
    assert!(l.worker_begin(7, 5).is_ok());
    l.advance(7, 1);
    match l.worker_begin(7, 9) {
        Err(Error::InvalidArgument(m)) => assert_eq!(
            m,
            "seq 7: worker KV holds 6 positions but coordinator sent index_pos 9"
        ),
        other => panic!("unexpected {other:?}"),
    }
    // A restart at position 0 always runs.
    assert!(l.worker_begin(7, 0).is_ok());
    assert_eq!(l.position(7), Some(0));
}

#[test]
fn worker_creates_unknown_sequences_even_on_mismatch() {
    let mut l = PositionLedger::new();
    assert!(l.worker_begin(3, 4).is_err());
    assert_eq!(l.position(3), Some(0));
}

#[test]
fn coordinator_prefill_and_decode_positions() {
    let mut l = PositionLedger::new();
    match l.prefill_begin(1, 16) {
        Err(Error::Internal(m)) => assert_eq!(m, "prefill of unknown seq 1"),
        other => panic!("unexpected {other:?}"),
    }
    assert!(l.prefill_begin(1, 0).is_ok());
    l.advance(1, 16);
    assert!(l.prefill_begin(1, 16).is_ok());
    l.advance(1, 4);
    match l.prefill_begin(1, 16) {
        Err(Error::Internal(m)) => assert_eq!(m, "prefill position mismatch for seq 1: kv 20 vs start_pos 16"),
        other => panic!("unexpected {other:?}"),
    }
    assert_eq!(l.decode_position(1).unwrap(), 20);
    match l.decode_position(2) {
        Err(Error::Internal(m)) => assert_eq!(m, "decode of unknown seq 2"),
        other => panic!("unexpected {other:?}"),
    }
    assert!(l.forget(1));
    assert!(!l.forget(1));
    assert_eq!(l.position(1), None);
}
