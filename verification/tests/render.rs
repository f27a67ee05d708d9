use pathtracer::render::{
    chunk, claim, grant, next_phase, pixel_index, pixel_position, to_u32, worker_count, Phase,
    PIXELS_PER_CLAIM,
};
use std::sync::atomic::{AtomicBool, AtomicUsize, Ordering};

#[test]
fn worker_count_leaves_one_thread_free() {
    assert_eq!(worker_count(0), 1);
    assert_eq!(worker_count(1), 1);
    assert_eq!(worker_count(2), 1);
    assert_eq!(worker_count(3), 2);
    assert_eq!(worker_count(16), 15);
    assert_eq!(worker_count(usize::MAX), usize::MAX - 1);
}

#[test]
fn chunk_is_64_pixels_long() {
    assert_eq!(PIXELS_PER_CLAIM, 64);
    assert_eq!(chunk(0, 1000), Some((0, 64)));
    assert_eq!(chunk(64, 1000), Some((64, 128)));
    assert_eq!(chunk(936, 1000), Some((936, 1000)));
}

#[test]
fn chunk_is_cut_off_at_the_end_of_the_frame() {
    assert_eq!(chunk(960, 1000), Some((960, 1000)));
    assert_eq!(chunk(999, 1000), Some((999, 1000)));
    assert_eq!(chunk(0, 1), Some((0, 1)));
    assert_eq!(chunk(usize::MAX - 1, usize::MAX), Some((usize::MAX - 1, usize::MAX)));
}

#[test]
fn chunk_beyond_the_frame_is_none() {
    assert_eq!(chunk(1000, 1000), None);
    assert_eq!(chunk(1024, 1000), None);
    assert_eq!(chunk(0, 0), None);
    assert_eq!(chunk(usize::MAX, usize::MAX), None);
}

#[test]
fn claims_hand_out_every_pixel_once() {
    for pixels in [0usize, 1, 63, 64, 65, 640 * 360, 1000] {
        let counter = AtomicUsize::new(0);
        let stop = AtomicBool::new(false);
        let mut owners = vec![0u8; pixels];
        while let Some((first, end)) = claim(&counter, pixels, &stop) {
            assert!(first < end && end <= pixels && end - first <= 64);
            for pixel in first..end {
                owners[pixel] += 1;
            }
        }
        assert!(owners.iter().all(|&n| n == 1));
        assert!(claim(&counter, pixels, &stop).is_none());
    }
}

#[test]
fn claim_moves_the_counter_on() {
    let counter = AtomicUsize::new(0);
    let stop = AtomicBool::new(false);
    assert_eq!(claim(&counter, 100, &stop), Some((0, 64)));
    assert_eq!(counter.load(Ordering::SeqCst), 64);
    assert_eq!(claim(&counter, 100, &stop), Some((64, 100)));
    assert_eq!(counter.load(Ordering::SeqCst), 128);
    assert_eq!(claim(&counter, 100, &stop), None);
    assert_eq!(counter.load(Ordering::SeqCst), 192);
}

#[test]
fn no_chunk_is_claimed_once_the_stop_flag_is_up() {
    let counter = AtomicUsize::new(0);
    let stop = AtomicBool::new(false);
    assert_eq!(claim(&counter, 1000, &stop), Some((0, 64)));
    stop.store(true, Ordering::SeqCst);
    assert_eq!(claim(&counter, 1000, &stop), None);
    assert_eq!(counter.load(Ordering::SeqCst), 64);
    stop.store(false, Ordering::SeqCst);
    assert_eq!(claim(&counter, 1000, &stop), Some((64, 128)));
}

#[test]
fn the_frame_loop_goes_round() {
    assert_eq!(next_phase(Phase::Idle, false, false), Some(Phase::Dispatch));
    assert_eq!(next_phase(Phase::Dispatch, false, false), Some(Phase::Collect));
    assert_eq!(next_phase(Phase::Collect, false, true), Some(Phase::Present));
    assert_eq!(next_phase(Phase::Present, false, true), Some(Phase::Idle));
}

#[test]
fn the_frame_loop_ends_between_frames() {
    assert_eq!(next_phase(Phase::Idle, true, false), None);
    assert_eq!(next_phase(Phase::Idle, true, true), None);
    assert_eq!(next_phase(Phase::Dispatch, true, false), Some(Phase::Collect));
    assert_eq!(next_phase(Phase::Collect, true, true), Some(Phase::Present));
    assert_eq!(next_phase(Phase::Present, true, true), Some(Phase::Idle));
}

#[test]
fn a_frame_cut_short_is_not_presented() {
    assert_eq!(next_phase(Phase::Collect, true, false), Some(Phase::Idle));
    assert_eq!(next_phase(Phase::Collect, false, false), Some(Phase::Idle));
}

#[test]
fn pixel_position_is_column_and_row() {
    assert_eq!(pixel_position(0, 640), (0, 0));
    assert_eq!(pixel_position(639, 640), (639, 0));
    assert_eq!(pixel_position(640, 640), (0, 1));
    assert_eq!(pixel_position(640 * 359 + 17, 640), (17, 359));
}

#[test]
fn pixel_index_is_row_major() {
    assert_eq!(pixel_index(0, 0, 640), Some(0));
    assert_eq!(pixel_index(17, 359, 640), Some(640 * 359 + 17));
    assert_eq!(pixel_index(640, 0, 640), None);
    assert_eq!(pixel_index(0, usize::MAX, 2), None);
    assert_eq!(pixel_index(1, usize::MAX / 2, 2), Some(usize::MAX));
}

#[test]
fn pixel_index_undoes_pixel_position() {
    for width in [1usize, 7, 640] {
        for index in 0..3 * width + 5 {
            let (x, y) = pixel_position(index, width);
            assert!(x < width);
            assert_eq!(pixel_index(x, y, width), Some(index));
        }
    }
}

#[test]
fn to_u32_packs_opaque_argb() {
    assert_eq!(to_u32(0, 0, 0), 0xFF00_0000);
    assert_eq!(to_u32(255, 255, 255), 0xFFFF_FFFF);
    assert_eq!(to_u32(0x12, 0x34, 0x56), 0xFF12_3456);
    assert_eq!(to_u32(255, 0, 0), 0xFFFF_0000);
    assert_eq!(to_u32(0, 255, 0), 0xFF00_FF00);
    assert_eq!(to_u32(0, 0, 255), 0xFF00_00FF);
}

#[test]
fn no_turn_is_granted_nothing() {
    assert_eq!(grant(None, 1000), None);
    assert_eq!(grant(None, 0), None);
    assert_eq!(grant(None, usize::MAX), None);
}

#[test]
fn a_turn_is_granted_the_chunk_where_the_counter_stood() {
    assert_eq!(grant(Some(0), 1000), Some((0, 64)));
    assert_eq!(grant(Some(128), 1000), Some((128, 192)));
    assert_eq!(grant(Some(960), 1000), Some((960, 1000)));
    assert_eq!(grant(Some(999), 1000), Some((999, 1000)));
}

#[test]
fn a_turn_beyond_the_frame_is_granted_nothing() {
    assert_eq!(grant(Some(1000), 1000), None);
    assert_eq!(grant(Some(1024), 1000), None);
    assert_eq!(grant(Some(0), 0), None);
    assert_eq!(grant(Some(usize::MAX), usize::MAX), None);
}

#[test]
fn a_grant_is_the_chunk_of_its_turn() {
    for pixels in [0usize, 1, 64, 100, 1000] {
        for start in [0usize, 1, 63, 64, 65, 99, 100, 936, 1000, 5000] {
            assert_eq!(grant(Some(start), pixels), chunk(start, pixels));
        }
    }
}
