//! The script-side state of a media element's playback, and the commands it
//! sends to the platform player.
//!
//! Time ranges travel as the platform reports them; `R` is their
//! representation, which the controller stores and hands back unread.
use vstd::prelude::*;

verus! {

/// What the platform player reports about a playback.
#[derive(Clone, Debug)]
pub enum MediaEvent<R> {
    /// Metadata is ready; playback can begin.
    Prepared {
        width: u32,
        height: u32,
        duration_ms: u128,
        is_seekable: bool,
        video_tracks: Vec<String>,
        audio_tracks: Vec<String>,
    },
    /// Current position (milliseconds).
    PositionChanged(u128),
    /// Playback reached the end of the stream.
    PlaybackCompleted,
    /// Decoding or platform error.
    Error(String),
    /// Seekable time ranges.
    SeekableRanges(Vec<R>),
    /// Buffered time ranges.
    BufferedRanges(Vec<R>),
    /// A media source append completed.
    MseAppendDone { buffered_ranges: Vec<R> },
    /// A media source init segment was parsed.
    MseInitSegmentParsed { width: u32, height: u32, duration_ms: u128 },
    /// A media source append or decode error.
    MseError(String),
}

/// A command for the platform player, naming the playback it is for.
#[derive(Clone, Copy, Debug, PartialEq, Eq)]
pub enum PlaybackCommand {
    Play(u64),
    Pause(u64),
    Resume(u64),
    Mute(u64),
    Unmute(u64),
    Seek { video_id: u64, position_ms: u64 },
    Cleanup(u64),
}

/// The state that the script thread keeps of one playback.
#[derive(Debug)]
pub struct MediaController<R> {
    pub video_id: u64,
    /// Raw (namespace, index) of the video texture; zero for audio only.
    pub image_key: (u32, u32),
    pub is_audio_only: bool,
    pub prepared: bool,
    pub width: u32,
    pub height: u32,
    pub duration_ms: u128,
    pub is_seekable: bool,
    pub video_tracks: Vec<String>,
    pub audio_tracks: Vec<String>,
    pub position_ms: u128,
    pub seekable_ranges: Vec<R>,
    pub buffered_ranges: Vec<R>,
    pub paused: bool,
    pub completed: bool,
}

/// The model of a controller: its fields, lists taken as sequences.
pub struct MediaControllerView<R> {
    pub video_id: u64,
    pub image_key: (u32, u32),
    pub is_audio_only: bool,
    pub prepared: bool,
    pub width: u32,
    pub height: u32,
    pub duration_ms: u128,
    pub is_seekable: bool,
    pub video_tracks: Seq<String>,
    pub audio_tracks: Seq<String>,
    pub position_ms: u128,
    pub seekable_ranges: Seq<R>,
    pub buffered_ranges: Seq<R>,
    pub paused: bool,
    pub completed: bool,
}

impl<R> View for MediaController<R> {
    type V = MediaControllerView<R>;

    open spec fn view(&self) -> MediaControllerView<R> {
        MediaControllerView {
            video_id: self.video_id,
            image_key: self.image_key,
            is_audio_only: self.is_audio_only,
            prepared: self.prepared,
            width: self.width,
            height: self.height,
            duration_ms: self.duration_ms,
            is_seekable: self.is_seekable,
            video_tracks: self.video_tracks@,
            audio_tracks: self.audio_tracks@,
            position_ms: self.position_ms,
            seekable_ranges: self.seekable_ranges@,
            buffered_ranges: self.buffered_ranges@,
            paused: self.paused,
            completed: self.completed,
        }
    }
}

/// A fresh controller: nothing known of the media yet.
pub open spec fn fresh_controller<R>(
    video_id: u64,
    image_key: (u32, u32),
    is_audio_only: bool,
    paused: bool,
) -> MediaControllerView<R> {
    MediaControllerView {
        video_id,
        image_key,
        is_audio_only,
        prepared: false,
        width: 0,
        height: 0,
        duration_ms: 0,
        is_seekable: false,
        video_tracks: Seq::empty(),
        audio_tracks: Seq::empty(),
        position_ms: 0,
        seekable_ranges: Seq::empty(),
        buffered_ranges: Seq::empty(),
        paused,
        completed: false,
    }
}

/// What an event does to the state: metadata, position, completion and
/// ranges are recorded; errors change nothing.
pub open spec fn after_event<R>(s: MediaControllerView<R>, event: MediaEvent<R>) -> MediaControllerView<R> {
    match event {
        MediaEvent::Prepared { width, height, duration_ms, is_seekable, video_tracks, audio_tracks } => {
            MediaControllerView {
                prepared: true,
                width,
                height,
                duration_ms,
                is_seekable,
                video_tracks: video_tracks@,
                audio_tracks: audio_tracks@,
                ..s
            }
        },
        MediaEvent::PositionChanged(pos) => MediaControllerView { position_ms: pos, ..s },
        MediaEvent::PlaybackCompleted => MediaControllerView { completed: true, paused: true, ..s },
        MediaEvent::Error(_) => s,
        MediaEvent::SeekableRanges(ranges) => MediaControllerView { seekable_ranges: ranges@, ..s },
        MediaEvent::BufferedRanges(ranges) => MediaControllerView { buffered_ranges: ranges@, ..s },
        MediaEvent::MseAppendDone { buffered_ranges } => MediaControllerView {
            buffered_ranges: buffered_ranges@,
            ..s
        },
        MediaEvent::MseInitSegmentParsed { width, height, duration_ms } => MediaControllerView {
            prepared: true,
            width,
            height,
            duration_ms,
            ..s
        },
        MediaEvent::MseError(_) => s,
    }
}

/// A copy of a list of strings.
fn copy_strings(v: &Vec<String>) -> (r: Vec<String>)
    ensures
        r@ == v@,
{
    let r = v.clone();
    proof {
        assert(r@ =~= v@);
    }
    r
}

/// A copy of a list of ranges.
fn copy_ranges<R: Copy>(v: &Vec<R>) -> (r: Vec<R>)
    ensures
        r@ == v@,
{
    let mut r: Vec<R> = Vec::new();
    let mut i: usize = 0;
    while i < v.len()
        invariant
            i <= v.len(),
            r@ == v@.subrange(0, i as int),
        decreases v.len() - i,
    {
        r.push(v[i]);
        i = i + 1;
        proof {
            assert(r@ =~= v@.subrange(0, i as int));
        }
    }
    proof {
        assert(v@.subrange(0, v.len() as int) =~= v@);
    }
    r
}

impl<R: Copy> MediaController<R> {
    /// A controller for a playback that was just asked for.
    pub fn new_common(video_id: u64, image_key: (u32, u32), is_audio_only: bool, paused: bool) -> (r: Self)
        ensures
            r@ == fresh_controller::<R>(video_id, image_key, is_audio_only, paused),
    {
        let r = MediaController {
            video_id,
            image_key,
            is_audio_only,
            prepared: false,
            width: 0,
            height: 0,
            duration_ms: 0,
            is_seekable: false,
            video_tracks: Vec::new(),
            audio_tracks: Vec::new(),
            position_ms: 0,
            seekable_ranges: Vec::new(),
            buffered_ranges: Vec::new(),
            paused,
            completed: false,
        };
        proof {
            assert(r@.video_tracks =~= Seq::<String>::empty());
            assert(r@.audio_tracks =~= Seq::<String>::empty());
            assert(r@.seekable_ranges =~= Seq::<R>::empty());
            assert(r@.buffered_ranges =~= Seq::<R>::empty());
        }
        r
    }

    /// A controller for a playback with an optional video texture: without
    /// one it is audio only and its key is zero; it starts paused unless it
    /// plays on its own.
    pub fn new_playback(video_id: u64, image_key: Option<(u32, u32)>, autoplay: bool) -> (r: Self)
        ensures
            r@ == fresh_controller::<R>(
                video_id,
                match image_key {
                    Some(k) => k,
                    None => (0u32, 0u32),
                },
                image_key is None,
                !autoplay,
            ),
    {
        let key = match image_key {
            Some(k) => k,
            None => (0, 0),
        };
        Self::new_common(video_id, key, image_key.is_none(), !autoplay)
    }

    /// Starts playback: the state is no longer paused.
    pub fn play(&mut self) -> (c: PlaybackCommand)
        ensures
            final(self)@ == (MediaControllerView { paused: false, ..old(self)@ }),
            c == PlaybackCommand::Play(old(self).video_id),
    {
        self.paused = false;
        PlaybackCommand::Play(self.video_id)
    }

    /// Pauses playback.
    pub fn pause(&mut self) -> (c: PlaybackCommand)
        ensures
            final(self)@ == (MediaControllerView { paused: true, ..old(self)@ }),
            c == PlaybackCommand::Pause(old(self).video_id),
    {
        self.paused = true;
        PlaybackCommand::Pause(self.video_id)
    }

    /// Resumes playback.
    pub fn resume(&mut self) -> (c: PlaybackCommand)
        ensures
            final(self)@ == (MediaControllerView { paused: false, ..old(self)@ }),
            c == PlaybackCommand::Resume(old(self).video_id),
    {
        self.paused = false;
        PlaybackCommand::Resume(self.video_id)
    }

    /// Mutes this playback.
    pub fn mute(&self) -> (c: PlaybackCommand)
        ensures
            c == PlaybackCommand::Mute(self.video_id),
    {
        PlaybackCommand::Mute(self.video_id)
    }

    /// Unmutes this playback.
    pub fn unmute(&self) -> (c: PlaybackCommand)
        ensures
            c == PlaybackCommand::Unmute(self.video_id),
    {
        PlaybackCommand::Unmute(self.video_id)
    }

    /// Seeks this playback.
    pub fn seek(&self, position_ms: u64) -> (c: PlaybackCommand)
        ensures
            c == (PlaybackCommand::Seek { video_id: self.video_id, position_ms }),
    {
        PlaybackCommand::Seek { video_id: self.video_id, position_ms }
    }

    /// Ends this playback.
    pub fn cleanup(&self) -> (c: PlaybackCommand)
        ensures
            c == PlaybackCommand::Cleanup(self.video_id),
    {
        PlaybackCommand::Cleanup(self.video_id)
    }

    /// Records what the platform reported (see `after_event`).
    pub fn apply_event(&mut self, event: &MediaEvent<R>)
        ensures
            final(self)@ == after_event(old(self)@, *event),
    {
        match event {
            MediaEvent::Prepared { width, height, duration_ms, is_seekable, video_tracks, audio_tracks } => {
                self.prepared = true;
                self.width = *width;
                self.height = *height;
                self.duration_ms = *duration_ms;
                self.is_seekable = *is_seekable;
                self.video_tracks = copy_strings(video_tracks);
                self.audio_tracks = copy_strings(audio_tracks);
            },
            MediaEvent::PositionChanged(pos) => {
                self.position_ms = *pos;
            },
            MediaEvent::PlaybackCompleted => {
                self.completed = true;
                self.paused = true;
            },
            MediaEvent::Error(_) => {},
            MediaEvent::SeekableRanges(ranges) => {
                self.seekable_ranges = copy_ranges(ranges);
            },
            MediaEvent::BufferedRanges(ranges) => {
                self.buffered_ranges = copy_ranges(ranges);
            },
            MediaEvent::MseAppendDone { buffered_ranges } => {
                self.buffered_ranges = copy_ranges(buffered_ranges);
            },
            MediaEvent::MseInitSegmentParsed { width, height, duration_ms } => {
                self.prepared = true;
                self.width = *width;
                self.height = *height;
                self.duration_ms = *duration_ms;
            },
            MediaEvent::MseError(_) => {},
        }
    }
}

} // verus!
