//! The per-tick streaming step: translate the sampled framebuffer, encode
//! deltas against the last broadcast frame, decide between the delta frame
//! and the full-image fallback, and advance the baseline.

use vstd::prelude::*;
use crate::devices::{lemma_translate_frame_len, spec_translate_frame, translate_image_data, Device};
use crate::delta::{
    encode_deltas, lemma_no_runs_iff_identical, spec_delta_overflow, spec_mismatch_runs,
    spec_serialize_runs,
};
use crate::packets::{
    build_delta_packet, get_current_screen_as_png, spec_delta_packet, spec_png_packet,
};

verus! {

/// What one sampling tick decides to broadcast.
pub enum FrameOutcome {
    /// The new frame equals the baseline: broadcast nothing.
    NoChange,
    /// A compressed delta frame to broadcast.
    Delta(Vec<u8>),
    /// The accumulated runs crossed the threshold: broadcast this full-image
    /// fallback, then pause sampling for the cooldown.
    PngFallback(Vec<u8>),
}

/// Streaming state: the device profile and the last broadcast RGBA frame,
/// the baseline every connected client has reconstructed.
pub struct FrameStreamer {
    pub device: Device,
    pub last_broadcast_rgba: Vec<u8>,
}

/// A byte vector of `n` zeros.
pub fn zero_frame(n: usize) -> (r: Vec<u8>)
    ensures
        r@.len() == n,
        forall|i: int| 0 <= i < n ==> r@[i] == 0u8,
{
    let mut out: Vec<u8> = Vec::new();
    let mut k: usize = 0;
    while k < n
        invariant
            k <= n,
            out@.len() == k,
            forall|i: int| 0 <= i < k ==> out@[i] == 0u8,
        decreases n - k,
    {
        out.push(0);
        k = k + 1;
    }
    out
}

impl FrameStreamer {
    /// The baseline always holds exactly `width * height * 4` bytes.
    pub open spec fn wf(self) -> bool {
        &&& self.device.wf()
        &&& self.last_broadcast_rgba@.len() == self.device.rgba_len()
    }

    /// A fresh streamer whose baseline is all zeros.
    pub fn new(device: Device) -> (r: FrameStreamer)
        requires
            device.wf(),
        ensures
            r.wf(),
            r.device == device,
            forall|i: int| 0 <= i < r.last_broadcast_rgba@.len() ==> r.last_broadcast_rgba@[i]
                == 0u8,
    {
        proof {
            assert(device.width * device.height * 4 < 0x4000_0001) by (nonlinear_arith)
                requires
                    0 < device.width <= 16384,
                    0 < device.height <= 16384,
            ;
        }
        let n: usize = (device.width as usize) * (device.height as usize) * 4;
        FrameStreamer { device, last_broadcast_rgba: zero_frame(n) }
    }

    /// One sampling tick.
    ///
    /// Translates the raw frame, encodes the byte runs where it differs from
    /// the baseline, and returns what to broadcast: nothing when the frames
    /// are identical, the framed compressed deltas when their serialization
    /// stayed within the threshold, and the full-image fallback when it
    /// crossed it.  The baseline always advances to the translated frame, so
    /// after every broadcast the baseline equals the frame the clients have
    /// just reconstructed.
    pub fn process_frame(&mut self, raw: &Vec<u8>) -> (r: FrameOutcome)
        requires
            old(self).wf(),
            raw@.len() == old(self).device.fb_size,
        ensures
            final(self).wf(),
            final(self).device == old(self).device,
            final(self).last_broadcast_rgba@ == spec_translate_frame(old(self).device, raw@),
            ({
                let dev = old(self).device;
                let prev = old(self).last_broadcast_rgba@;
                let cur = spec_translate_frame(dev, raw@);
                match r {
                    FrameOutcome::NoChange => cur == prev,
                    FrameOutcome::Delta(p) => {
                        &&& cur != prev
                        &&& !spec_delta_overflow(prev, cur)
                        &&& p@ == spec_delta_packet(
                            spec_serialize_runs(spec_mismatch_runs(prev, cur)),
                        )
                    },
                    FrameOutcome::PngFallback(p) => {
                        &&& cur != prev
                        &&& spec_delta_overflow(prev, cur)
                        &&& p@ == spec_png_packet(dev.width, dev.height, cur)
                    },
                }
            }),
    {
        let ghost dev = self.device;
        let ghost prev = self.last_broadcast_rgba@;
        proof {
            assert(dev.width * dev.height * 4 < 0x4000_0001) by (nonlinear_arith)
                requires
                    0 < dev.width <= 16384,
                    0 < dev.height <= 16384,
            ;
            lemma_translate_frame_len(dev, raw@);
        }
        let n: usize = (self.device.width as usize) * (self.device.height as usize) * 4;
        let mut current = zero_frame(n);
        translate_image_data(&self.device, raw, &mut current);
        let ghost cur = current@;
        let encoded = encode_deltas(&self.last_broadcast_rgba, &current);
        match encoded {
            None => {
                proof {
                    let rs = spec_mismatch_runs(prev, cur);
                    if rs.len() == 0 {
                        assert(false);
                    }
                    lemma_no_runs_iff_identical(prev, cur);
                }
                let packet = get_current_screen_as_png(&self.device, &current);
                self.last_broadcast_rgba = current;
                FrameOutcome::PngFallback(packet)
            },
            Some(deltas) => {
                if deltas.len() == 0 {
                    proof {
                        let rs = spec_mismatch_runs(prev, cur);
                        if rs.len() > 0 {
                            assert(spec_serialize_runs(rs) == spec_serialize_runs(rs.drop_last())
                                + crate::delta::spec_serialize_run(rs.last()));
                        }
                        lemma_no_runs_iff_identical(prev, cur);
                    }
                    self.last_broadcast_rgba = current;
                    FrameOutcome::NoChange
                } else {
                    proof {
                        let rs = spec_mismatch_runs(prev, cur);
                        assert(rs.len() > 0);
                        lemma_no_runs_iff_identical(prev, cur);
                    }
                    let packet = build_delta_packet(&deltas);
                    self.last_broadcast_rgba = current;
                    FrameOutcome::Delta(packet)
                }
            },
        }
    }
}

} // verus!
