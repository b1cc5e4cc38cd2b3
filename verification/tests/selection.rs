use mp3_player::{select_track, Error, SelectedTrack, Strerr, TrackMeta};

fn meta(
    id: u32,
    has_codec: bool,
    sample_rate: Option<u32>,
    channels: Option<usize>,
    n_frames: Option<u64>,
) -> TrackMeta {
    TrackMeta { id, has_codec, sample_rate, channels, n_frames }
}

#[test]
fn no_tracks_at_all() {
    assert_eq!(select_track(&vec![]), Err(Error::NoTrack));
}

#[test]
fn only_placeholder_codecs() {
    let tracks = vec![meta(1, false, Some(44100), Some(2), Some(1000))];
    assert_eq!(select_track(&tracks), Err(Error::NoTrack));
}

#[test]
fn missing_sample_rate() {
    let tracks = vec![meta(1, true, None, Some(2), Some(1000))];
    assert_eq!(select_track(&tracks), Err(Error::NoSampleRate));
}

#[test]
fn zero_sample_rate() {
    let tracks = vec![meta(1, true, Some(0), Some(2), Some(1000))];
    assert_eq!(select_track(&tracks), Err(Error::NoSampleRate));
}

#[test]
fn missing_channels() {
    let tracks = vec![meta(1, true, Some(44100), None, Some(1000))];
    assert_eq!(select_track(&tracks), Err(Error::NoChannels));
}

#[test]
fn missing_frame_count() {
    let tracks = vec![meta(1, true, Some(44100), Some(2), None)];
    assert_eq!(select_track(&tracks), Err(Error::NoFrames));
}

#[test]
fn zero_frame_count() {
    let tracks = vec![meta(1, true, Some(44100), Some(2), Some(0))];
    assert_eq!(select_track(&tracks), Err(Error::NoFrames));
}

#[test]
fn zero_channels() {
    let tracks = vec![meta(1, true, Some(44100), Some(0), Some(10))];
    assert_eq!(select_track(&tracks), Err(Error::NoChannels));
}

#[test]
fn first_supported_track_wins() {
    let tracks = vec![
        meta(7, false, Some(8000), Some(1), Some(10)),
        meta(9, true, Some(44100), Some(2), Some(441000)),
        meta(11, true, Some(22050), Some(1), Some(5)),
    ];
    assert_eq!(
        select_track(&tracks),
        Ok(SelectedTrack {
            index: 1,
            id: 9,
            sample_rate: 44100,
            channels: 2,
            total_frames: 441000,
        })
    );
}

#[test]
fn error_messages() {
    let r: Result<(), Error> = Err(Error::NoTrack);
    assert_eq!(r.strerr(), Err(String::from("no supported audio tracks")));
    let r: Result<(), Error> = Err(Error::Internal);
    assert_eq!(r.strerr(), Err(String::from("index < offset")));
    let r: Result<u32, Error> = Ok(3);
    assert_eq!(r.strerr(), Ok(3));
}
