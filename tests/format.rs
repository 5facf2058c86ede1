use hearme::format::{
    ALPN, BUS_CAPACITY, CHANNELS, FRAME_CHANNEL_CAPACITY, FRAME_SIZE, MAX_PACKET_SIZE,
    PACKET_CHANNEL_CAPACITY, RING_CAPACITY, SAMPLES_PER_FRAME, SAMPLE_RATE,
};

#[test]
fn alpn_is_correct() {
    assert_eq!(&ALPN, b"/hearme/audio/1");
}

#[test]
fn frame_is_twenty_milliseconds_of_stereo() {
    assert_eq!(SAMPLE_RATE, 48_000);
    assert_eq!(CHANNELS, 2);
    assert_eq!(FRAME_SIZE, 960);
    assert_eq!(SAMPLES_PER_FRAME, FRAME_SIZE * CHANNELS as usize);
    assert_eq!(SAMPLES_PER_FRAME, 1920);
    assert_eq!(FRAME_SIZE * 1000 / SAMPLE_RATE as usize, 20);
}

#[test]
fn buffer_sizes_match_the_pipeline() {
    assert_eq!(MAX_PACKET_SIZE, 4000);
    assert_eq!(FRAME_CHANNEL_CAPACITY, 64);
    assert_eq!(PACKET_CHANNEL_CAPACITY, 64);
    assert_eq!(BUS_CAPACITY, 50);
    assert_eq!(RING_CAPACITY, SAMPLE_RATE as usize * CHANNELS as usize / 5);
}
