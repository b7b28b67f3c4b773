//! Counters of a run.
use vstd::prelude::*;

use crate::recording::Recording;
use crate::style::FrameStyle;

verus! {

/// Pipeline-health counters of a run. None of them affects the recording.
#[derive(Debug, Clone, Copy)]
pub struct RunStats {
    /// Frames that were to be captured, one per frame deadline.
    pub expected_frames: u64,
    /// Frames that were captured.
    pub captured_frames: u64,
    /// Consumers attached to the run.
    pub raw_frame_consumer_count: usize,
    /// The longest queue of a consumer that was seen.
    pub max_raw_frame_consumer_queue_len: usize,
    /// Frames that a consumer did not get because its queue was full.
    pub raw_frame_consumer_dropped_frames: u64,
}

/// Output of a run that keeps all frames.
#[derive(Debug, Clone)]
pub struct RunOutput {
    pub recording: Recording,
    pub stats: RunStats,
}

/// The grid of a run.
#[derive(Debug, Clone, Copy)]
pub struct RunOptions {
    pub cols: u16,
    pub rows: u16,
    pub cell_w_px: u32,
    pub cell_h_px: u32,
    pub frame_style: FrameStyle,
}

impl Default for RunStats {
    fn default() -> (r: RunStats)
        ensures
            r == (RunStats {
                expected_frames: 0,
                captured_frames: 0,
                raw_frame_consumer_count: 0,
                max_raw_frame_consumer_queue_len: 0,
                raw_frame_consumer_dropped_frames: 0,
            }),
    {
        RunStats {
            expected_frames: 0,
            captured_frames: 0,
            raw_frame_consumer_count: 0,
            max_raw_frame_consumer_queue_len: 0,
            raw_frame_consumer_dropped_frames: 0,
        }
    }
}

impl RunStats {
    /// Fraction of expected frames that were not captured, as numerator and
    /// denominator; nothing of one if none were expected.
    pub fn missed_capture_fraction(&self) -> (r: (u64, u64))
        ensures
            r == (if self.expected_frames == 0 {
                (0u64, 1u64)
            } else if self.expected_frames > self.captured_frames {
                ((self.expected_frames - self.captured_frames) as u64, self.expected_frames)
            } else {
                (0u64, self.expected_frames)
            }),
            r.0 <= r.1,
            r.1 > 0,
            0 < self.expected_frames && self.captured_frames <= self.expected_frames ==> r.0
                + self.captured_frames == r.1,
            self.captured_frames >= self.expected_frames <==> r.0 == 0,
    {
        if self.expected_frames == 0 {
            (0, 1)
        } else if self.expected_frames > self.captured_frames {
            (self.expected_frames - self.captured_frames, self.expected_frames)
        } else {
            (0, self.expected_frames)
        }
    }

    /// Fraction of frames for consumers that were dropped, as numerator and
    /// denominator; nothing of one if none were expected.
    pub fn dropped_consumer_fraction(&self) -> (r: (u64, u64))
        requires
            self.expected_frames * self.raw_frame_consumer_count <= u64::MAX,
        ensures
            r == (if self.expected_frames * self.raw_frame_consumer_count == 0 {
                (0u64, 1u64)
            } else {
                (
                    self.raw_frame_consumer_dropped_frames,
                    (self.expected_frames * self.raw_frame_consumer_count) as u64,
                )
            }),
            r.1 > 0,
    {
        let expected: u64 = self.expected_frames * self.raw_frame_consumer_count as u64;
        if expected == 0 {
            (0, 1)
        } else {
            (self.raw_frame_consumer_dropped_frames, expected)
        }
    }
}

} // verus!
