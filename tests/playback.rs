use hearme::format::RING_CAPACITY;
use hearme::playback::{next_output_sample, output_sample, playback_ring, push_frame, SILENCE};

#[test]
fn empty_ring_plays_silence() {
    let (_producer, mut consumer) = playback_ring();
    assert_eq!(next_output_sample(&mut consumer), SILENCE);
    assert_eq!(SILENCE, 0.0f32.to_bits());
    assert_eq!(output_sample(None), SILENCE);
    assert_eq!(output_sample(Some(0x3F00_0000)), 0x3F00_0000);
}

#[test]
fn samples_come_out_in_order() {
    let (mut producer, mut consumer) = playback_ring();
    let frame: Vec<u32> = (1..=5).collect();
    assert_eq!(push_frame(&mut producer, &frame), 5);
    for expected in 1..=5u32 {
        assert_eq!(next_output_sample(&mut consumer), expected);
    }
    assert_eq!(next_output_sample(&mut consumer), SILENCE);
}

#[test]
fn full_ring_drops_the_newest_samples() {
    let (mut producer, mut consumer) = playback_ring();
    let frame: Vec<u32> = (0..RING_CAPACITY as u32 + 10).collect();
    assert_eq!(push_frame(&mut producer, &frame), RING_CAPACITY);
    assert_eq!(push_frame(&mut producer, &[7, 8]), 0);
    assert_eq!(next_output_sample(&mut consumer), 0);
    assert_eq!(push_frame(&mut producer, &[7, 8]), 1);
    for expected in 1..RING_CAPACITY as u32 {
        assert_eq!(next_output_sample(&mut consumer), expected);
    }
    assert_eq!(next_output_sample(&mut consumer), 7);
    assert_eq!(next_output_sample(&mut consumer), SILENCE);
}
