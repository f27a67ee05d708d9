//! The frame schedule: the phases that the frame loop goes through, how
//! the pixels of a frame are handed out to workers in chunks, where a pixel
//! lies in the frame, and how its colour is packed.

use std::sync::atomic::{AtomicBool, AtomicUsize, Ordering};
use vstd::prelude::*;

verus! {

/// The number of pixels that a worker claims at a time.
pub const PIXELS_PER_CLAIM: usize = 64;

/// The chunk that starts at `start` in a frame of `pixels` pixels: up to
/// [`PIXELS_PER_CLAIM`] pixels, cut off at the end of the frame; none where
/// `start` lies beyond the frame.
pub open spec fn chunk_at(start: int, pixels: int) -> Option<(int, int)> {
    if start >= pixels {
        None
    } else if start + PIXELS_PER_CLAIM <= pixels {
        Some((start, start + PIXELS_PER_CLAIM))
    } else {
        Some((start, pixels))
    }
}

/// The number of workers for a machine that can run `available` threads at
/// once: all but one, and at least one.
pub fn worker_count(available: usize) -> (workers: usize)
    ensures
        workers == if available >= 2 {
            available - 1
        } else {
            1
        },
{
    if available >= 2 {
        available - 1
    } else {
        1
    }
}

/// The pixels `first..end` of the chunk that starts at `start`.
pub fn chunk(start: usize, pixels: usize) -> (range: Option<(usize, usize)>)
    ensures
        match range {
            Some((first, end)) => chunk_at(start as int, pixels as int) == Some(
                (first as int, end as int),
            ),
            None => chunk_at(start as int, pixels as int) is None,
        },
{
    if start >= pixels {
        None
    } else if pixels - start >= PIXELS_PER_CLAIM {
        Some((start, start + PIXELS_PER_CLAIM))
    } else {
        Some((start, pixels))
    }
}

/// Moves the shared counter on by [`PIXELS_PER_CLAIM`] and gives the value
/// it had: whatever the other workers have left it at.
fn take_turn(next_pixel: &AtomicUsize) -> usize {
    next_pixel.fetch_add(PIXELS_PER_CLAIM, Ordering::SeqCst)
}

/// Whether the stop flag is up, as far as this thread can tell.
fn raised(stop: &AtomicBool) -> bool {
    stop.load(Ordering::Relaxed)
}

/// Claims the next chunk of a frame from the counter that the workers
/// share, unless the stop flag is up: the counter moves on by
/// [`PIXELS_PER_CLAIM`], and the chunk starts where it stood. None once
/// the flag is up or the counter has passed the frame; a chunk that was
/// claimed is the worker's to finish.
pub fn claim(next_pixel: &AtomicUsize, pixels: usize, stop: &AtomicBool) -> (range: Option<
    (usize, usize),
>)
    ensures
        range matches Some((first, end)) ==> first < end <= pixels && end - first
            <= PIXELS_PER_CLAIM && chunk_at(first as int, pixels as int) == Some(
            (first as int, end as int),
        ),
{
    let turn = if raised(stop) {
        None
    } else {
        Some(take_turn(next_pixel))
    };
    grant(turn, pixels)
}

/// What a worker is granted for its turn at the counter: nothing where it
/// took no turn, the stop flag being up; else the chunk that starts where
/// the counter stood at its turn.
pub open spec fn granted(turn: Option<usize>, pixels: int) -> Option<(int, int)> {
    match turn {
        Some(start) => chunk_at(start as int, pixels),
        None => None,
    }
}

/// The pixels `first..end` that a worker is granted. `turn` is the value
/// that the counter had when the worker took its turn, or none where it
/// took none because the stop flag was up.
pub fn grant(turn: Option<usize>, pixels: usize) -> (range: Option<(usize, usize)>)
    ensures
        match range {
            Some((first, end)) => granted(turn, pixels as int) == Some(
                (first as int, end as int),
            ),
            None => granted(turn, pixels as int) is None,
        },
{
    match turn {
        Some(start) => chunk(start, pixels),
        None => None,
    }
}

/// Where the frame loop stands.
#[derive(Clone, Copy, Debug, PartialEq, Eq, Structural)]
pub enum Phase {
    /// Between two frames.
    Idle,
    /// The workers are being set to the frame.
    Dispatch,
    /// The workers are being waited for.
    Collect,
    /// The finished frame is being handed to the display.
    Present,
}

/// The phase that follows, or none where the loop ends. The stop flag
/// counts between frames only, so that a frame that was begun is waited
/// for; and a frame is handed on only if all of it was rendered.
pub open spec fn phase_after(phase: Phase, stop: bool, complete: bool) -> Option<Phase> {
    match phase {
        Phase::Idle => if stop {
            None
        } else {
            Some(Phase::Dispatch)
        },
        Phase::Dispatch => Some(Phase::Collect),
        Phase::Collect => if complete {
            Some(Phase::Present)
        } else {
            Some(Phase::Idle)
        },
        Phase::Present => Some(Phase::Idle),
    }
}

/// Moves the frame loop on. `stop` says whether the stop flag is up, and
/// `complete` whether every pixel of the frame was rendered.
pub fn next_phase(phase: Phase, stop: bool, complete: bool) -> (next: Option<Phase>)
    ensures
        next == phase_after(phase, stop, complete),
{
    match phase {
        Phase::Idle => if stop {
            None
        } else {
            Some(Phase::Dispatch)
        },
        Phase::Dispatch => Some(Phase::Collect),
        Phase::Collect => if complete {
            Some(Phase::Present)
        } else {
            Some(Phase::Idle)
        },
        Phase::Present => Some(Phase::Idle),
    }
}

/// The loop ends between frames and nowhere else, and only with the stop
/// flag up; and nothing but a complete frame is handed to the display.
pub proof fn lemma_frames_end_whole(phase: Phase, stop: bool, complete: bool)
    ensures
        phase_after(phase, stop, complete) is None <==> phase == Phase::Idle && stop,
        phase_after(phase, stop, complete) == Some(Phase::Present) <==> phase == Phase::Collect
            && complete,
{
}

/// A frame that was begun is waited for, whatever the stop flag says
/// meanwhile: from dispatch the loop goes on to collect, from there to
/// present or, with a frame cut short, straight back to idle, and from
/// present to idle.
pub proof fn lemma_begun_frame_is_waited_for(stop: bool, complete: bool)
    ensures
        phase_after(Phase::Dispatch, stop, complete) == Some(Phase::Collect),
        phase_after(Phase::Collect, stop, true) == Some(Phase::Present),
        phase_after(Phase::Collect, stop, false) == Some(Phase::Idle),
        phase_after(Phase::Present, stop, complete) == Some(Phase::Idle),
{
}

/// The column and the row of a pixel in a frame `width` pixels wide.
pub fn pixel_position(index: usize, width: usize) -> (position: (usize, usize))
    requires
        width > 0,
    ensures
        position.0 == index % width,
        position.1 == index / width,
{
    (index % width, index / width)
}

/// The place in the frame buffer of the pixel in column `x` of row `y`;
/// none where column or place cannot be.
pub fn pixel_index(x: usize, y: usize, width: usize) -> (index: Option<usize>)
    ensures
        index is Some <==> x < width && y * width + x <= usize::MAX,
        index matches Some(i) ==> i == y * width + x,
{
    if x >= width {
        return None;
    }
    match y.checked_mul(width) {
        Some(row) => row.checked_add(x),
        None => {
            assert(y * width + x > usize::MAX);
            None
        },
    }
}

/// The red, green and blue of a packed pixel.
pub open spec fn channels_of(pixel: u32) -> (int, int, int) {
    (((pixel / 65536) % 256) as int, ((pixel / 256) % 256) as int, (pixel % 256) as int)
}

/// Packs a colour into a pixel: alpha, at full, in the top byte, then red,
/// green and blue.
pub fn to_u32(red: u8, green: u8, blue: u8) -> (pixel: u32)
    ensures
        pixel == 0xFF00_0000 + red * 65536 + green * 256 + blue,
        pixel / 0x100_0000 == 255,
        channels_of(pixel) == (red as int, green as int, blue as int),
{
    let r: u32 = red as u32;
    let g: u32 = green as u32;
    let b: u32 = blue as u32;
    assert((0xFFu32 << 24) | (r << 16) | (g << 8) | b == 0xFF00_0000u32 + r * 65536 + g * 256 + b)
        by (bit_vector)
        requires
            r < 256,
            g < 256,
            b < 256,
    ;
    let pixel: u32 = (0xFFu32 << 24) | (r << 16) | (g << 8) | b;
    assert(pixel / 0x100_0000 == 255 && (pixel / 65536) % 256 == r && (pixel / 256) % 256 == g
        && pixel % 256 == b) by (bit_vector)
        requires
            pixel == (0xFFu32 << 24) | (r << 16) | (g << 8) | b,
            r < 256,
            g < 256,
            b < 256,
    ;
    pixel
}

/// A pixel lies in the chunk that starts at the last multiple of
/// [`PIXELS_PER_CLAIM`] that is not above it, and in no other chunk that
/// starts at such a multiple: the chunks part the frame.
pub proof fn lemma_chunks_part_the_frame(index: int, pixels: int, claim: int)
    requires
        0 <= index < pixels,
        0 <= claim,
    ensures
        (chunk_at(claim * PIXELS_PER_CLAIM, pixels) matches Some((first, end)) && first <= index
            < end) <==> claim == index / (PIXELS_PER_CLAIM as int),
{
    let start = claim * PIXELS_PER_CLAIM;
    let own = index / (PIXELS_PER_CLAIM as int);
    assert(own * 64 <= index < own * 64 + 64) by (nonlinear_arith)
        requires
            own == index / 64,
            0 <= index,
    ;
    if claim == own {
    } else if claim < own {
        assert(start + 64 <= own * 64) by (nonlinear_arith)
            requires
                start == claim * 64,
                claim < own,
        ;
    } else {
        assert(start >= own * 64 + 64) by (nonlinear_arith)
            requires
                start == claim * 64,
                claim > own,
        ;
    }
}

/// The place of a pixel gives back its column and row, and these its place.
pub proof fn lemma_position_and_index_agree(index: int, width: int)
    requires
        0 <= index,
        0 < width,
    ensures
        0 <= index % width < width,
        (index / width) * width + index % width == index,
{
    vstd::arithmetic::div_mod::lemma_fundamental_div_mod(index, width);
    vstd::arithmetic::div_mod::lemma_mod_bound(index, width);
    assert((index / width) * width == width * (index / width)) by (nonlinear_arith);
}

} // verus!
