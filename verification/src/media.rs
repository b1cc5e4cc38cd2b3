//! The trusted boundary to the symphonia demuxer and decoders.
//!
//! Everything the pipeline learns from the compressed stream comes through
//! the items here.  Their bodies only call symphonia and convert its values
//! to and from plain ones; what each call is relied on for is stated above
//! it.  What a packet decodes to depends on the bytes on disk, so these
//! items promise nothing about contents: the verified pipeline is proved
//! for every outcome they may hand back.

use vstd::prelude::*;

verus! {

#[verifier::external_type_specification]
#[verifier::external_body]
pub struct ExMediaSourceStream(symphonia::core::io::MediaSourceStream);

#[verifier::external_type_specification]
#[verifier::external_body]
pub struct ExPacket(symphonia::core::formats::Packet);

/// Plain description of one track of a probed container: its id, whether
/// its codec is a supported (non-placeholder) one, and the metadata the
/// pipeline needs, each absent when the container does not report it.
#[derive(Clone, Copy, Debug, PartialEq, Eq)]
pub struct TrackMeta {
    pub id: u32,
    pub has_codec: bool,
    pub sample_rate: Option<u32>,
    pub channels: Option<usize>,
    pub n_frames: Option<u64>,
}

/// The demuxer of an opened container.  It holds a boxed `FormatReader`
/// trait object, which the verifier cannot describe, so the struct is
/// opaque and is only handled through the trusted functions below.
#[verifier::external_body]
pub struct Reader {
    format: Box<dyn symphonia::core::formats::FormatReader>,
}

/// The decoder of the selected track, opaque for the same reason.
#[verifier::external_body]
pub struct Codec {
    decoder: Box<dyn symphonia::core::codecs::Decoder>,
}

/// Outcome of feeding one packet to the decoder.
pub enum Decoded {
    /// Decoded audio, interleaved across channels and requantized to `i16`.
    Block(Vec<i16>),
    /// An I/O hiccup; the packet should be skipped.
    TransientIo(String),
    /// A malformed packet; it should be skipped.
    TransientDecode(String),
    /// An unrecoverable decoder error.
    Fatal(String),
}

/// Relies on `symphonia::default::get_probe().format`: probes the stream
/// for a container format and returns its demuxer.
#[verifier::external_body]
pub fn probe(mss: symphonia::core::io::MediaSourceStream) -> (r: Result<Reader, String>) {
    let probed = symphonia::default::get_probe()
        .format(
            &symphonia::core::probe::Hint::new(),
            mss,
            &symphonia::core::formats::FormatOptions::default(),
            &symphonia::core::meta::MetadataOptions::default(),
        )
        .map_err(|e| e.to_string())?;
    Ok(Reader { format: probed.format })
}

/// Relies on `FormatReader::tracks`: one `TrackMeta` per track, in the
/// container's order.  `has_codec` mirrors symphonia's convention that
/// `CODEC_TYPE_NULL` marks an unsupported track.
#[verifier::external_body]
pub fn track_list(r: &Reader) -> (tracks: Vec<TrackMeta>) {
    let metas = r.format.tracks().iter().map(|t| TrackMeta {
        id: t.id,
        has_codec: t.codec_params.codec != symphonia::core::codecs::CODEC_TYPE_NULL,
        sample_rate: t.codec_params.sample_rate,
        channels: t.codec_params.channels.map(|c| c.count()),
        n_frames: t.codec_params.n_frames,
    });
    metas.collect()
}

/// Relies on `symphonia::default::get_codecs().make`: builds a decoder for
/// the track at `index` of the probed container.
#[verifier::external_body]
pub fn make_decoder(r: &Reader, index: usize) -> (res: Result<Codec, String>) {
    let track = match r.format.tracks().get(index) {
        Some(t) => t,
        None => return Err("no such track".to_string()),
    };
    let opts = symphonia::core::codecs::DecoderOptions::default();
    match symphonia::default::get_codecs().make(&track.codec_params, &opts) {
        Ok(d) => Ok(Codec { decoder: d }),
        Err(e) => Err(e.to_string()),
    }
}

/// Relies on `FormatReader::next_packet`: yields the container's next
/// packet, or an error once the stream ends or fails.
#[verifier::external_body]
pub fn next_packet(
    r: &mut Reader,
) -> (res: Result<symphonia::core::formats::Packet, String>) {
    r.format.next_packet().map_err(|e| e.to_string())
}

/// Relies on `Packet::track_id`: which track the packet belongs to.
pub assume_specification[ symphonia::core::formats::Packet::track_id ](
    p: &symphonia::core::formats::Packet,
) -> u32;

/// Relies on `FormatReader::metadata` and `Metadata::pop`: discards
/// metadata revisions that are older than the latest one.
#[verifier::external_body]
pub fn drain_stale_metadata(r: &mut Reader) {
    while !r.format.metadata().is_latest() {
        r.format.metadata().pop();
    }
}

/// Relies on `Decoder::decode` and `SampleBuffer::copy_interleaved_ref`:
/// decodes one packet and hands the block back as interleaved `i16`
/// samples (symphonia requantizes whatever sample format the codec
/// produced).  The error arms mirror symphonia's error enum: I/O and
/// malformed-packet errors are the transient, skippable ones.
#[verifier::external_body]
pub fn decode_packet(c: &mut Codec, p: &symphonia::core::formats::Packet) -> (r: Decoded) {
    match c.decoder.decode(p) {
        Ok(decoded) => {
            let spec = *decoded.spec();
            let duration = decoded.capacity() as u64;
            let mut buf = symphonia::core::audio::SampleBuffer::<i16>::new(duration, spec);
            buf.copy_interleaved_ref(decoded);
            Decoded::Block(buf.samples().to_vec())
        }
        Err(symphonia::core::errors::Error::IoError(e)) => Decoded::TransientIo(e.to_string()),
        Err(symphonia::core::errors::Error::DecodeError(e)) => {
            Decoded::TransientDecode(e.to_string())
        }
        Err(e) => Decoded::Fatal(e.to_string()),
    }
}

/// Relies on `FormatReader::seek` in coarse mode: repositions the stream
/// near the given whole-second time, scoped to the given track.
#[verifier::external_body]
pub fn seek_stream(r: &mut Reader, track_id: u32, seconds: u64) -> (res: Result<(), String>) {
    let to = symphonia::core::formats::SeekTo::Time {
        time: symphonia::core::units::Time::from(seconds),
        track_id: Some(track_id),
    };
    match r.format.seek(symphonia::core::formats::SeekMode::Coarse, to) {
        Ok(_) => Ok(()),
        Err(e) => Err(e.to_string()),
    }
}

/// Relies on `Decoder::reset`: discards decoder state after a seek, so the
/// next refill starts cleanly.
#[verifier::external_body]
pub fn reset_decoder(c: &mut Codec) {
    c.decoder.reset();
}

} // verus!
