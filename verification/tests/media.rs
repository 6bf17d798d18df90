use havi::media_control::{MediaController, MediaEvent, PlaybackCommand};
use std::sync::{Arc, Mutex};

use havi::hppr_media::{HpprResolvedMediaKind, InMemoryByteSource};
use havi::media_asset::{clamp_byte_range, MediaAssetMetadata, MediaByteSource, MediaOrigin, ResolvedMediaAsset};
use havi::media_mime::{can_play_type, can_play_video_type, parse_mime_codecs};

struct RecordingSource {
    calls: Mutex<Vec<(u64, usize)>>,
}

impl RecordingSource {
    fn new() -> Self {
        Self { calls: Mutex::new(Vec::new()) }
    }
}

impl MediaByteSource for RecordingSource {
    fn read_range(&self, start: u64, len: usize) -> Result<Vec<u8>, String> {
        self.calls.lock().unwrap().push((start, len));
        Ok(vec![b'x'; len])
    }
}

#[test]
fn clamp_range_truncates_to_end() {
    assert_eq!(clamp_byte_range(10, 3, 20), Some((3, 10)));
    assert_eq!(clamp_byte_range(10, 10, 1), None);
    assert_eq!(clamp_byte_range(10, 0, 0), None);
}

#[test]
fn resolved_asset_delegates_reads() {
    let source = Arc::new(RecordingSource::new());
    let asset = ResolvedMediaAsset::new(MediaAssetMetadata::new(12, Some("video/mp4".into())), source.clone());

    assert_eq!(asset.content_length(), 12);
    assert_eq!(asset.content_type(), Some("video/mp4"));
    assert_eq!(asset.read_range(2, 4).unwrap(), b"xxxx");
    assert_eq!(source.calls.lock().unwrap().as_slice(), &[(2, 4)]);
}

#[test]
fn clamp_range_inside_and_at_limits() {
    assert_eq!(clamp_byte_range(10, 2, 3), Some((2, 5)));
    assert_eq!(clamp_byte_range(10, 7, 3), Some((7, 10)));
    assert_eq!(clamp_byte_range(0, 0, 5), None);
    assert_eq!(clamp_byte_range(u64::MAX, u64::MAX - 1, usize::MAX), Some((u64::MAX - 1, u64::MAX)));
}

#[test]
fn in_memory_source_reads_clamped_ranges() {
    let source = InMemoryByteSource::new(b"abcdefghij".to_vec());
    assert_eq!(source.read_range(2, 4).unwrap(), b"cdef");
    assert_eq!(source.read_range(8, 10).unwrap(), b"ij");
    assert!(source.read_range(10, 4).unwrap().is_empty());
    assert!(source.read_range(3, 0).unwrap().is_empty());
}

#[test]
fn resolved_asset_over_in_memory_bytes() {
    let source: Arc<InMemoryByteSource> = Arc::new(InMemoryByteSource::new(b"0123456789".to_vec()));
    let asset = ResolvedMediaAsset::new(MediaAssetMetadata::new(10, None), source);
    assert_eq!(asset.content_type(), None);
    assert_eq!(asset.metadata(), &MediaAssetMetadata::new(10, None));
    assert_eq!(asset.read_range(5, 100).unwrap(), b"56789");
    let copy = asset.clone();
    assert_eq!(copy.content_length(), 10);
    assert_eq!(copy.byte_source().read_range(0, 2).unwrap(), b"01");
}

#[test]
fn media_kinds_and_origins() {
    assert_eq!(HpprResolvedMediaKind::Blob, HpprResolvedMediaKind::Blob.clone());
    assert_ne!(HpprResolvedMediaKind::Blob, HpprResolvedMediaKind::ChunkManifest);
    let origin = MediaOrigin::InMemory(Arc::new(vec![1, 2, 3]));
    match origin.clone() {
        MediaOrigin::InMemory(bytes) => assert_eq!(bytes.as_slice(), &[1, 2, 3]),
        _ => panic!("origin changed kind"),
    }
    assert!(matches!(MediaOrigin::Network("hppr://x".into()), MediaOrigin::Network(_)));
}

#[test]
fn av1_mp4_probably() {
    assert_eq!(can_play_video_type("video/mp4", Some("av01.0.04M.08")), "probably");
}

#[test]
fn av1_mp4_with_opus() {
    assert_eq!(can_play_video_type("video/mp4", Some("av01.0.04M.08, opus")), "probably");
}

#[test]
fn av1_mp4_with_mp4a() {
    assert_eq!(can_play_video_type("video/mp4", Some("av01.0.04M.08, mp4a.40.2")), "probably");
}

#[test]
fn bare_mp4_maybe() {
    assert_eq!(can_play_video_type("video/mp4", None), "maybe");
}

#[test]
fn h264_mp4_probably() {
    assert_eq!(can_play_video_type("video/mp4", Some("avc1.42E01E")), "probably");
}

#[test]
fn h264_avc3_mp4_probably() {
    assert_eq!(can_play_video_type("video/mp4", Some("avc3.42E01E")), "probably");
}

#[test]
fn h264_with_aac_probably() {
    assert_eq!(can_play_video_type("video/mp4", Some("avc1.42E01E, mp4a.40.2")), "probably");
}

#[test]
fn av1_and_h264_mixed() {
    assert_eq!(can_play_video_type("video/mp4", Some("av01.0.04M.08, avc1.42E01E")), "probably");
}

#[test]
fn h265_mp4_rejected() {
    assert_eq!(can_play_video_type("video/mp4", Some("hev1.1.6.L93.B0")), "");
}

#[test]
fn vp9_mp4_rejected() {
    assert_eq!(can_play_video_type("video/mp4", Some("vp09.00.10.08")), "");
}

#[test]
fn webm_rejected() {
    assert_eq!(can_play_video_type("video/webm", None), "");
    assert_eq!(can_play_video_type("video/webm", Some("vp8")), "");
    assert_eq!(can_play_video_type("video/webm", Some("vp9")), "");
    assert_eq!(can_play_video_type("video/webm", Some("av01.0.04M.08")), "");
}

#[test]
fn ogg_rejected() {
    assert_eq!(can_play_video_type("video/ogg", None), "");
}

#[test]
fn matroska_rejected() {
    assert_eq!(can_play_video_type("video/x-matroska", None), "");
}

#[test]
fn parse_codecs_basic() {
    let (base, codecs) = parse_mime_codecs("video/mp4; codecs=\"av01.0.04M.08\"");
    assert_eq!(base, "video/mp4");
    assert_eq!(codecs, Some("av01.0.04M.08"));
}

#[test]
fn parse_codecs_unquoted() {
    let (base, codecs) = parse_mime_codecs("video/mp4; codecs=av01.0.04M.08");
    assert_eq!(base, "video/mp4");
    assert_eq!(codecs, Some("av01.0.04M.08"));
}

#[test]
fn parse_codecs_absent() {
    let (base, codecs) = parse_mime_codecs("video/webm");
    assert_eq!(base, "video/webm");
    assert_eq!(codecs, None);
}

#[test]
fn m4v_and_audio_only_codecs_maybe() {
    assert_eq!(can_play_video_type("video/x-m4v", Some("avc1.4d401e")), "probably");
    assert_eq!(can_play_video_type("video/mp4", Some("mp4a.40.2, Opus, flac")), "maybe");
    assert_eq!(can_play_video_type("video/mp4", Some(" , ")), "maybe");
}

#[test]
fn parse_codecs_single_quoted_and_later_parameter() {
    let (base, codecs) = parse_mime_codecs("  video/mp4 ; profiles=x; codecs='avc1.42E01E, mp4a.40.2' ");
    assert_eq!(base, "video/mp4");
    assert_eq!(codecs, Some("avc1.42E01E, mp4a.40.2"));
}

#[test]
fn can_play_type_routes_video_and_audio() {
    fn platform(mime: &str) -> &'static str {
        if mime.starts_with("audio/ogg") {
            "probably"
        } else {
            "maybe"
        }
    }
    assert_eq!(can_play_type("video/mp4; codecs=\"av01.0.04M.08\"", Some(&platform)), "probably");
    assert_eq!(can_play_type("video/webm", Some(&platform)), "");
    assert_eq!(can_play_type("audio/ogg; codecs=opus", Some(&platform)), "probably");
    assert_eq!(can_play_type("audio/mpeg", Some(&platform)), "maybe");
    assert_eq!(can_play_type::<fn(&str) -> &'static str>("audio/mpeg", None), "");
}

fn chunked_fetch(chunks: &'static [(u64, &'static [u8])]) -> impl Fn(u64) -> Result<(Vec<u8>, usize), String> {
    move |cursor: u64| {
        for (start, bytes) in chunks {
            if *start <= cursor && cursor < start + bytes.len() as u64 {
                return Ok((bytes.to_vec(), (cursor - start) as usize));
            }
        }
        Err(format!("no chunk at {cursor}"))
    }
}

const CHUNKS: &[(u64, &[u8])] = &[(0, b"abcd"), (4, b"efgh"), (8, b"ij")];

#[test]
fn chunked_reads_span_chunk_boundaries() {
    let fetch = chunked_fetch(CHUNKS);
    assert_eq!(havi::hppr_media::read_chunked_range(10, 2, 4, &fetch).unwrap(), b"cdef");
    assert_eq!(havi::hppr_media::read_chunked_range(10, 0, 10, &fetch).unwrap(), b"abcdefghij");
    assert_eq!(havi::hppr_media::read_chunked_range(10, 8, 10, &fetch).unwrap(), b"ij");
    assert!(havi::hppr_media::read_chunked_range(10, 10, 4, &fetch).unwrap().is_empty());
    assert!(havi::hppr_media::read_chunked_range(10, 3, 0, &fetch).unwrap().is_empty());
}

#[test]
fn chunked_read_errors_are_reported() {
    let failing = |_: u64| -> Result<(Vec<u8>, usize), String> { Err("boom".to_string()) };
    assert_eq!(havi::hppr_media::read_chunked_range(10, 0, 4, &failing), Err("boom".to_string()));
    let empty = |_: u64| -> Result<(Vec<u8>, usize), String> { Ok((b"ab".to_vec(), 2)) };
    assert_eq!(
        havi::hppr_media::read_chunked_range(10, 0, 4, &empty),
        Err("chunk loader returned an empty readable range".to_string())
    );
    let fetch = chunked_fetch(CHUNKS);
    assert_eq!(havi::hppr_media::read_chunked_range(12, 9, 3, &fetch), Err("no chunk at 10".to_string()));
}

#[test]
fn controller_records_prepared_metadata_and_ranges() {
    let mut c: MediaController<(f64, f64)> = MediaController::new_common(7, (1, 2), false, true);
    assert!(!c.prepared && c.paused && c.video_tracks.is_empty());
    c.apply_event(&MediaEvent::Prepared {
        width: 640,
        height: 480,
        duration_ms: 12_000,
        is_seekable: true,
        video_tracks: vec!["v1".to_string()],
        audio_tracks: vec!["a1".to_string(), "a2".to_string()],
    });
    assert!(c.prepared && c.is_seekable);
    assert_eq!((c.width, c.height, c.duration_ms), (640, 480, 12_000));
    assert_eq!(c.audio_tracks, vec!["a1".to_string(), "a2".to_string()]);
    c.apply_event(&MediaEvent::BufferedRanges(vec![(0.0, 1.5)]));
    c.apply_event(&MediaEvent::SeekableRanges(vec![(0.0, 12.0)]));
    assert_eq!(c.buffered_ranges, vec![(0.0, 1.5)]);
    assert_eq!(c.seekable_ranges, vec![(0.0, 12.0)]);
    c.apply_event(&MediaEvent::MseAppendDone { buffered_ranges: vec![(0.0, 3.0), (4.0, 5.0)] });
    assert_eq!(c.buffered_ranges, vec![(0.0, 3.0), (4.0, 5.0)]);
    c.apply_event(&MediaEvent::PositionChanged(900));
    assert_eq!(c.position_ms, 900);
    c.apply_event(&MediaEvent::Error("decode".to_string()));
    assert_eq!(c.position_ms, 900);
    assert!(!c.completed);
}

#[test]
fn controller_completion_pauses_and_commands_name_the_player() {
    let mut c: MediaController<(f64, f64)> = MediaController::new_playback(9, None, true);
    assert!(c.is_audio_only && !c.paused);
    assert_eq!(c.image_key, (0, 0));
    assert_eq!(c.pause(), PlaybackCommand::Pause(9));
    assert!(c.paused);
    assert_eq!(c.play(), PlaybackCommand::Play(9));
    assert!(!c.paused);
    c.apply_event(&MediaEvent::PlaybackCompleted);
    assert!(c.completed && c.paused);
    assert_eq!(c.resume(), PlaybackCommand::Resume(9));
    assert_eq!(c.seek(250), PlaybackCommand::Seek { video_id: 9, position_ms: 250 });
    assert_eq!(c.mute(), PlaybackCommand::Mute(9));
    assert_eq!(c.unmute(), PlaybackCommand::Unmute(9));
    assert_eq!(c.cleanup(), PlaybackCommand::Cleanup(9));
    c.apply_event(&MediaEvent::MseInitSegmentParsed { width: 3, height: 4, duration_ms: 5 });
    assert!(c.prepared);
    assert_eq!((c.width, c.height, c.duration_ms), (3, 4, 5));
    let v: MediaController<(f64, f64)> = MediaController::new_playback(10, Some((5, 6)), false);
    assert!(!v.is_audio_only && v.paused);
    assert_eq!(v.image_key, (5, 6));
}

const MANIFEST_CHUNKS: &[(u64, &[u8])] = &[(0, b"abcd"), (4, b"efgh"), (8, b"ijkl")];

#[test]
fn chunk_manifest_asset_reads_random_ranges() {
    let chunks = MANIFEST_CHUNKS;
    let fetches = std::cell::Cell::new(0usize);
    let fetch = |cursor: u64| -> Result<(Vec<u8>, usize), String> {
        fetches.set(fetches.get() + 1);
        chunked_fetch(chunks)(cursor)
    };
    assert_eq!(havi::hppr_media::read_chunked_range(12, 1, 7, &fetch).unwrap(), b"bcdefgh");
    assert_eq!(havi::hppr_media::read_chunked_range(12, 6, 4, &fetch).unwrap(), b"ghij");
    assert_eq!(havi::hppr_media::read_chunked_range(12, 0, 12, &fetch).unwrap(), b"abcdefghijkl");
    assert!(fetches.get() >= 3);
}

#[test]
fn one_lookup_gives_what_is_left_of_its_chunk() {
    let take = havi::hppr_media::chunk_take;
    assert_eq!(take(5, 20, Ok((b"abcdefgh".to_vec(), 3))), Ok(b"defgh".to_vec()));
    assert_eq!(take(5, 7, Ok((b"abcdefgh".to_vec(), 3))), Ok(b"de".to_vec()));
    assert_eq!(take(5, 7, Ok((b"abc".to_vec(), 3))), Err("chunk loader returned an empty readable range".to_string()));
    assert_eq!(take(5, 7, Ok((b"abc".to_vec(), 9))), Err("chunk loader returned an empty readable range".to_string()));
    assert_eq!(take(5, 7, Err("gone".to_string())), Err("gone".to_string()));
}
