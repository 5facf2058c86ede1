use hearme::format::SAMPLES_PER_FRAME;
use hearme::reblock::Reblocker;

fn ramp(start: u32, len: usize) -> Vec<u32> {
    (0..len as u32).map(|i| start + i).collect()
}

#[test]
fn small_buffers_accumulate_until_a_frame_is_full() {
    let mut r: Reblocker<u32> = Reblocker::new();
    assert_eq!(r.pending_len(), 0);
    let frames = r.push(&ramp(0, 1000));
    assert!(frames.is_empty());
    assert_eq!(r.pending_len(), 1000);
    let frames = r.push(&ramp(1000, 1000));
    assert_eq!(frames.len(), 1);
    assert_eq!(frames[0], ramp(0, SAMPLES_PER_FRAME));
    assert_eq!(r.pending_len(), 80);
}

#[test]
fn a_large_buffer_yields_consecutive_frames() {
    let mut r: Reblocker<u32> = Reblocker::new();
    let frames = r.push(&ramp(0, 3 * SAMPLES_PER_FRAME + 5));
    assert_eq!(frames.len(), 3);
    for (k, frame) in frames.iter().enumerate() {
        assert_eq!(frame.len(), SAMPLES_PER_FRAME);
        assert_eq!(*frame, ramp((k * SAMPLES_PER_FRAME) as u32, SAMPLES_PER_FRAME));
    }
    assert_eq!(r.pending_len(), 5);
    let frames = r.push(&ramp(3 * SAMPLES_PER_FRAME as u32 + 5, SAMPLES_PER_FRAME - 5));
    assert_eq!(frames.len(), 1);
    assert_eq!(frames[0], ramp(3 * SAMPLES_PER_FRAME as u32, SAMPLES_PER_FRAME));
    assert_eq!(r.pending_len(), 0);
}

#[test]
fn empty_buffer_changes_nothing() {
    let mut r: Reblocker<u32> = Reblocker::new();
    r.push(&ramp(0, 7));
    let frames = r.push(&[]);
    assert!(frames.is_empty());
    assert_eq!(r.pending_len(), 7);
}

#[test]
fn pending_stays_below_a_frame_after_every_callback() {
    let mut r: Reblocker<f32> = Reblocker::new();
    let mut emitted = 0usize;
    for size in [1usize, 480, 1919, 1920, 1921, 4000, 960, 3] {
        let frames = r.push(&vec![0.25f32; size]);
        for f in &frames {
            assert_eq!(f.len(), SAMPLES_PER_FRAME);
        }
        emitted += frames.len();
        assert!(r.pending_len() < SAMPLES_PER_FRAME);
    }
    let total: usize = [1usize, 480, 1919, 1920, 1921, 4000, 960, 3].iter().sum();
    assert_eq!(emitted, total / SAMPLES_PER_FRAME);
    assert_eq!(r.pending_len(), total % SAMPLES_PER_FRAME);
}
