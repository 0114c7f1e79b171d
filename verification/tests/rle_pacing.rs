use tvp::pacing::{frame_due_nanos, Pacer, PacerAction, PacerEvent, PacerState};
use tvp::rle::encode_row;

/// Decodes the protocol's run-length form: `!<n><v>` expands to `n` copies
/// of `v`, any other byte stands for itself.
fn decode(encoded: &[u8]) -> Vec<u8> {
    let mut out = Vec::new();
    let mut i = 0usize;
    while i < encoded.len() {
        if encoded[i] == b'!' {
            i += 1;
            let mut n = 0usize;
            while i < encoded.len() && encoded[i].is_ascii_digit() {
                n = n * 10 + (encoded[i] - b'0') as usize;
                i += 1;
            }
            let v = encoded[i];
            i += 1;
            out.extend(std::iter::repeat(v).take(n));
        } else {
            out.push(encoded[i]);
            i += 1;
        }
    }
    out
}

fn encode(row: &Vec<u8>) -> Vec<u8> {
    let mut out = Vec::new();
    encode_row(row, &mut out);
    out
}

#[test]
fn short_runs_are_emitted_literally() {
    assert_eq!(encode(&vec![0x41]), b"A".to_vec());
    assert_eq!(encode(&vec![0x41, 0x41]), b"AA".to_vec());
    assert_eq!(encode(&vec![0x41, 0x41, 0x41]), b"AAA".to_vec());
}

#[test]
fn long_runs_use_the_repeat_escape() {
    assert_eq!(encode(&vec![0x41; 4]), b"!4A".to_vec());
    assert_eq!(encode(&vec![0x7E; 10]), b"!10~".to_vec());
    assert_eq!(encode(&vec![0x3F; 123]), b"!123?".to_vec());
}

#[test]
fn mixed_runs_split_at_every_edge() {
    let mut row = Vec::new();
    row.extend_from_slice(&[0x41; 5]);
    row.extend_from_slice(&[0x42; 2]);
    row.extend_from_slice(&[0x43; 4]);
    row.push(0x44);
    assert_eq!(encode(&row), b"!5ABB!4CD".to_vec());
}

#[test]
fn empty_row_encodes_to_nothing() {
    assert_eq!(encode(&Vec::new()), Vec::<u8>::new());
}

#[test]
fn round_trip_reconstructs_any_row() {
    let all_same = vec![0x50u8; 64];
    let alternating: Vec<u8> = (0..64).map(|i| if i % 2 == 0 { 0x3F } else { 0x7E }).collect();
    let ramp: Vec<u8> = (0..128).map(|i| 0x3F + (i / 7) as u8 % 0x40).collect();
    for row in [all_same, alternating, ramp] {
        assert_eq!(decode(&encode(&row)), row);
    }
}

#[test]
fn encoding_is_idempotent() {
    let row: Vec<u8> = (0..100).map(|i| 0x3F + (i % 3) as u8).collect();
    assert_eq!(encode(&row), encode(&row));
}

#[test]
fn due_time_follows_the_time_base() {
    // Time base 1/1000 seconds per tick: PTS 40 is due 40 ms in.
    assert_eq!(frame_due_nanos(40, 1, 1000), 40_000_000);
    assert_eq!(frame_due_nanos(0, 1, 1000), 0);
    // 1/25 seconds per tick: each frame 40 ms apart.
    assert_eq!(frame_due_nanos(3, 1, 25), 120_000_000);
    assert_eq!(frame_due_nanos(1, 1001, 30000), 33_366_666);
}

#[test]
fn early_frame_sleeps_off_its_deficit() {
    // Time base 1/1000, PTS 40, invoked 10 ms in: sleep 30 ms, then present.
    let mut pacer = Pacer::new(1, 1000);
    pacer.start();
    assert_eq!(pacer.state, PacerState::Running);
    let action = pacer.step(PacerEvent::Frame(40), 10_000_000);
    assert_eq!(action, PacerAction::SleepThenPresent(30_000_000));
    assert_eq!(pacer.state, PacerState::Running);
}

#[test]
fn late_frame_is_presented_without_sleeping() {
    let mut pacer = Pacer::new(1, 1000);
    pacer.start();
    let action = pacer.step(PacerEvent::Frame(40), 95_000_000);
    assert_eq!(action, PacerAction::SleepThenPresent(0));
}

#[test]
fn end_of_stream_stops_the_session() {
    let mut pacer = Pacer::new(1, 1000);
    pacer.start();
    assert_eq!(pacer.step(PacerEvent::EndOfStream, 0), PacerAction::Stop);
    assert_eq!(pacer.state, PacerState::Stopped);
}

#[test]
fn cancellation_stops_the_session() {
    let mut pacer = Pacer::new(1, 1000);
    pacer.start();
    assert_eq!(pacer.step(PacerEvent::Cancel, 7), PacerAction::Stop);
    assert_eq!(pacer.state, PacerState::Stopped);
}
