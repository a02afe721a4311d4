use golden::protocol::{ValueFrame, ValueFrameError, ValueSample};

#[test]
fn binary_value_frames_round_trip_without_json() {
    let frame = ValueFrame {
        sequence: 7,
        generation: 3,
        samples: vec![
            ValueSample { slot: 1, bits: 2.5f64.to_bits() },
            ValueSample { slot: 9, bits: (-4.0f64).to_bits() },
        ],
    };
    let bytes = frame.encode().unwrap();
    assert_eq!(&bytes[..4], b"GVF1");
    assert_eq!(ValueFrame::decode(&bytes, 16).unwrap(), frame);
}

#[test]
fn value_frame_limits_are_checked_before_sample_allocation() {
    let bytes = ValueFrame { sequence: 1, generation: 1, samples: vec![ValueSample { slot: 0, bits: 1.0f64.to_bits() }] }
        .encode()
        .unwrap();
    assert_eq!(ValueFrame::decode(&bytes, 0).unwrap_err(), ValueFrameError::SampleLimit { count: 1, maximum: 0 });
}

#[test]
fn malformed_frames_are_refused() {
    let frame = ValueFrame { sequence: 1, generation: 2, samples: vec![ValueSample { slot: 3, bits: 0 }] };
    let bytes = frame.encode().unwrap();
    assert_eq!(ValueFrame::decode(&bytes[..bytes.len() - 1], 4), Err(ValueFrameError::Truncated));
    let mut wrong_magic = bytes.clone();
    wrong_magic[0] = b'X';
    assert_eq!(ValueFrame::decode(&wrong_magic, 4), Err(ValueFrameError::Magic));
    let nan = ValueFrame { sequence: 1, generation: 2, samples: vec![ValueSample { slot: 3, bits: f64::NAN.to_bits() }] };
    assert_eq!(nan.encode(), Err(ValueFrameError::NonFiniteValue));
}
