//! Timestamped PCM as callers hand it in.
use std::sync::Arc;
use vstd::prelude::*;

verus! {

/// How the samples were coded on the wire.
#[derive(Clone, Copy, Debug, PartialEq, Eq, Structural)]
pub enum Codec {
    Pcm,
    Opus,
    Flac,
}

/// What the samples of a buffer mean.
#[derive(Clone, Debug, PartialEq, Eq)]
pub struct AudioFormat {
    pub codec: Codec,
    pub sample_rate: u32,
    pub channels: u8,
    pub bit_depth: u8,
    pub codec_header: Option<Vec<u8>>,
}

/// Interleaved samples, with the zone time of the first frame.
#[derive(Clone, Debug)]
pub struct AudioBuffer {
    pub timestamp: i64,
    pub samples: Arc<[i32]>,
    pub format: AudioFormat,
}

impl AudioBuffer {
    /// The number of whole frames.
    pub open spec fn frame_count(&self) -> nat {
        if self.format.channels == 0 {
            0
        } else {
            self.samples@.len() / (self.format.channels as nat)
        }
    }

    /// The same buffer; the samples stay shared.
    pub fn share(&self) -> (copy: AudioBuffer)
        ensures
            copy.timestamp == self.timestamp,
            copy.samples == self.samples,
            copy.format.codec == self.format.codec,
            copy.format.sample_rate == self.format.sample_rate,
            copy.format.channels == self.format.channels,
            copy.format.bit_depth == self.format.bit_depth,
            match (self.format.codec_header, copy.format.codec_header) {
                (Some(header), Some(copied)) => copied@ == header@,
                (None, None) => true,
                _ => false,
            },
    {
        let codec_header: Option<Vec<u8>> = match &self.format.codec_header {
            Some(header) => {
                let copied: Vec<u8> = header.clone();
                assert(copied@ =~= header@);
                Some(copied)
            },
            None => None,
        };
        AudioBuffer {
            timestamp: self.timestamp,
            samples: Arc::clone(&self.samples),
            format: AudioFormat {
                codec: self.format.codec,
                sample_rate: self.format.sample_rate,
                channels: self.format.channels,
                bit_depth: self.format.bit_depth,
                codec_header,
            },
        }
    }

    pub fn frames(&self) -> (frames: usize)
        ensures
            frames == self.frame_count(),
    {
        let samples: &[i32] = &self.samples;
        if self.format.channels == 0 {
            0
        } else {
            samples.len() / (self.format.channels as usize)
        }
    }
}

} // verus!
