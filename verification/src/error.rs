//! Errors of the playback pipeline.

use vstd::prelude::*;

verus! {

/// What can go wrong while opening or streaming a track.
///
/// Opening fails fast when the container reports no usable track, sample
/// rate, channel count or total frame count.  While streaming, unrecoverable
/// stream or decoder errors end the track, a lookup below the buffer window
/// is an internal contract violation, and a seek failure leaves playback
/// running from wherever the position counter already is.
#[derive(Clone, Debug, PartialEq, Eq)]
pub enum Error {
    /// The container has no track with a supported codec.
    NoTrack,
    /// The selected track reports no usable sample rate.
    NoSampleRate,
    /// The selected track reports no usable channel count.
    NoChannels,
    /// The selected track reports no usable total frame count.
    NoFrames,
    /// The container could not be probed.
    Probe(String),
    /// The decoder could not be built, or failed unrecoverably.
    Decoder(String),
    /// The demuxer could not produce another packet.
    Stream(String),
    /// A coarse seek failed.
    Seek(String),
    /// A sample index below the buffer window was requested.
    Internal,
    /// The stream kept yielding packets without making progress.
    Stalled,
    /// Position or window arithmetic exceeded the machine's index range.
    Overflow,
}

impl Error {
    /// The message an error renders to.
    pub closed spec fn message_spec(&self) -> Seq<char> {
        match self {
            Error::NoTrack => "no supported audio tracks"@,
            Error::NoSampleRate => "no sample rate"@,
            Error::NoChannels => "no channels"@,
            Error::NoFrames => "no frames"@,
            Error::Probe(m) => m@,
            Error::Decoder(m) => m@,
            Error::Stream(m) => m@,
            Error::Seek(m) => m@,
            Error::Internal => "index < offset"@,
            Error::Stalled => "stream stalled"@,
            Error::Overflow => "position out of range"@,
        }
    }

    /// Render the error to its message.
    pub fn message(self) -> (r: String)
        ensures
            r@ == self.message_spec(),
    {
        match self {
            Error::NoTrack => "no supported audio tracks".to_string(),
            Error::NoSampleRate => "no sample rate".to_string(),
            Error::NoChannels => "no channels".to_string(),
            Error::NoFrames => "no frames".to_string(),
            Error::Probe(m) => m,
            Error::Decoder(m) => m,
            Error::Stream(m) => m,
            Error::Seek(m) => m,
            Error::Internal => "index < offset".to_string(),
            Error::Stalled => "stream stalled".to_string(),
            Error::Overflow => "position out of range".to_string(),
        }
    }
}

} // verus!
