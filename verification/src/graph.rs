//! The editing graph: a project lowered to video and audio tracks of clip
//! nodes, independent of any encoder syntax, and its validation.
use vstd::prelude::*;
use crate::schema::{CropRect, FitMode, ImageTemplate, Transform};
use crate::time::TimeRational;

verus! {

/// A video or still-image slice on the timeline.
#[derive(Debug, PartialEq)]
pub struct EditorVideoClipNode {
    pub clip_id: String,
    pub asset_id: String,
    pub file_path: String,
    pub timeline_start: TimeRational,
    pub timeline_duration: TimeRational,
    pub source_in: TimeRational,
    pub source_out: TimeRational,
    /// Playback speed in thousandths.
    pub speed_milli: u32,
    pub crop: Option<CropRect>,
    pub transform: Option<Transform>,
    pub template: Option<ImageTemplate>,
    pub is_still_image: bool,
}

/// An audio slice with volume, mute and fade envelope.
#[derive(Debug, PartialEq)]
pub struct EditorAudioClipNode {
    pub clip_id: String,
    pub asset_id: String,
    pub file_path: String,
    pub timeline_start: TimeRational,
    pub timeline_duration: TimeRational,
    pub source_in: TimeRational,
    pub source_out: TimeRational,
    /// Clip volume in thousandths.
    pub clip_volume_milli: u32,
    pub clip_muted: bool,
    pub fade_in: Option<TimeRational>,
    pub fade_out: Option<TimeRational>,
}

/// A video track of the graph.
#[derive(Debug, PartialEq)]
pub struct EditorVideoTrack {
    pub id: String,
    pub clips: Vec<EditorVideoClipNode>,
}

/// An audio track of the graph.
#[derive(Debug, PartialEq)]
pub struct EditorAudioTrack {
    pub id: String,
    /// Track volume in thousandths.
    pub track_volume_milli: u32,
    pub track_muted: bool,
    pub clips: Vec<EditorAudioClipNode>,
}

/// The complete editing graph of a project.
#[derive(Debug, PartialEq)]
pub struct EditorGraph {
    pub canvas_width: u32,
    pub canvas_height: u32,
    pub fps_num: u32,
    pub fps_den: u32,
    pub fit_mode: FitMode,
    pub total_duration: TimeRational,
    pub video_tracks: Vec<EditorVideoTrack>,
    pub audio_tracks: Vec<EditorAudioTrack>,
}

pub struct VideoTrackModel {
    pub id: Seq<char>,
    pub clips: Seq<EditorVideoClipNode>,
}

pub struct AudioTrackModel {
    pub id: Seq<char>,
    pub track_volume_milli: u32,
    pub track_muted: bool,
    pub clips: Seq<EditorAudioClipNode>,
}

pub struct GraphModel {
    pub canvas_width: u32,
    pub canvas_height: u32,
    pub fps_num: u32,
    pub fps_den: u32,
    pub fit_mode: FitMode,
    pub total_duration: TimeRational,
    pub video_tracks: Seq<VideoTrackModel>,
    pub audio_tracks: Seq<AudioTrackModel>,
}

impl View for EditorVideoTrack {
    type V = VideoTrackModel;

    open spec fn view(&self) -> VideoTrackModel {
        VideoTrackModel { id: self.id@, clips: self.clips@ }
    }
}

impl View for EditorAudioTrack {
    type V = AudioTrackModel;

    open spec fn view(&self) -> AudioTrackModel {
        AudioTrackModel {
            id: self.id@,
            track_volume_milli: self.track_volume_milli,
            track_muted: self.track_muted,
            clips: self.clips@,
        }
    }
}

impl View for EditorGraph {
    type V = GraphModel;

    open spec fn view(&self) -> GraphModel {
        GraphModel {
            canvas_width: self.canvas_width,
            canvas_height: self.canvas_height,
            fps_num: self.fps_num,
            fps_den: self.fps_den,
            fit_mode: self.fit_mode,
            total_duration: self.total_duration,
            video_tracks: self.video_tracks@.map_values(|t: EditorVideoTrack| t@),
            audio_tracks: self.audio_tracks@.map_values(|t: EditorAudioTrack| t@),
        }
    }
}

/// Why a graph cannot be rendered.
#[derive(Debug, PartialEq)]
pub enum GraphValidationError {
    /// The canvas has a zero dimension (width, height).
    ZeroCanvasDimensions(u32, u32),
    /// The timeline has no positive duration.
    EmptyTimelineDuration,
    /// A clip's source range is empty or reversed.
    InvalidSourceBounds { clip_id: String, source_in: TimeRational, source_out: TimeRational },
    /// A clip refers to a media file that does not exist.
    MissingSourceFile { clip_id: String, path: String },
}

/// The source range `[source_in, source_out)` is empty or reversed.
pub open spec fn bad_bounds(source_in: TimeRational, source_out: TimeRational) -> bool {
    source_out.value_le(source_in)
}

/// The first video clip (in order) with bad source bounds, as an error.
pub open spec fn video_clip_error(clips: Seq<EditorVideoClipNode>) -> Option<GraphValidationError>
    decreases clips.len(),
{
    if clips.len() == 0 {
        None
    } else {
        match video_clip_error(clips.drop_last()) {
            Some(e) => Some(e),
            None => {
                let c = clips.last();
                if bad_bounds(c.source_in, c.source_out) {
                    Some(
                        GraphValidationError::InvalidSourceBounds {
                            clip_id: c.clip_id,
                            source_in: c.source_in,
                            source_out: c.source_out,
                        },
                    )
                } else {
                    None
                }
            },
        }
    }
}

/// The first audio clip (in order) with bad source bounds, as an error.
pub open spec fn audio_clip_error(clips: Seq<EditorAudioClipNode>) -> Option<GraphValidationError>
    decreases clips.len(),
{
    if clips.len() == 0 {
        None
    } else {
        match audio_clip_error(clips.drop_last()) {
            Some(e) => Some(e),
            None => {
                let c = clips.last();
                if bad_bounds(c.source_in, c.source_out) {
                    Some(
                        GraphValidationError::InvalidSourceBounds {
                            clip_id: c.clip_id,
                            source_in: c.source_in,
                            source_out: c.source_out,
                        },
                    )
                } else {
                    None
                }
            },
        }
    }
}

pub open spec fn video_tracks_error(ts: Seq<VideoTrackModel>) -> Option<GraphValidationError>
    decreases ts.len(),
{
    if ts.len() == 0 {
        None
    } else {
        match video_tracks_error(ts.drop_last()) {
            Some(e) => Some(e),
            None => video_clip_error(ts.last().clips),
        }
    }
}

pub open spec fn audio_tracks_error(ts: Seq<AudioTrackModel>) -> Option<GraphValidationError>
    decreases ts.len(),
{
    if ts.len() == 0 {
        None
    } else {
        match audio_tracks_error(ts.drop_last()) {
            Some(e) => Some(e),
            None => audio_clip_error(ts.last().clips),
        }
    }
}

/// The outcome of validating a graph: the first failed check, in the order
/// canvas, duration, video clips, audio clips.
pub open spec fn graph_validation(g: GraphModel) -> Result<(), GraphValidationError> {
    if g.canvas_width == 0 || g.canvas_height == 0 {
        Err(GraphValidationError::ZeroCanvasDimensions(g.canvas_width, g.canvas_height))
    } else if g.total_duration.value_le(TimeRational { num: 0, den: 1 }) {
        Err(GraphValidationError::EmptyTimelineDuration)
    } else {
        match video_tracks_error(g.video_tracks) {
            Some(e) => Err(e),
            None => match audio_tracks_error(g.audio_tracks) {
                Some(e) => Err(e),
                None => Ok(()),
            },
        }
    }
}

fn check_video_tracks(tracks: &Vec<EditorVideoTrack>) -> (r: Option<GraphValidationError>)
    ensures
        r == video_tracks_error(tracks@.map_values(|t: EditorVideoTrack| t@)),
{
    let ghost models = tracks@.map_values(|t: EditorVideoTrack| t@);
    let mut t: usize = 0;
    assert(models.take(0) =~= Seq::<VideoTrackModel>::empty());
    while t < tracks.len()
        invariant
            t <= tracks@.len(),
            models == tracks@.map_values(|t: EditorVideoTrack| t@),
            video_tracks_error(models.take(t as int)) is None,
        decreases tracks@.len() - t,
    {
        let clips = &tracks[t].clips;
        let mut i: usize = 0;
        assert(clips@.take(0) =~= Seq::<EditorVideoClipNode>::empty());
        while i < clips.len()
            invariant
                i <= clips@.len(),
                t < tracks@.len(),
                models == tracks@.map_values(|t: EditorVideoTrack| t@),
                clips@ == models[t as int].clips,
                video_tracks_error(models.take(t as int)) is None,
                video_clip_error(clips@.take(i as int)) is None,
            decreases clips@.len() - i,
        {
            let c = &clips[i];
            assert(clips@.take(i + 1).drop_last() =~= clips@.take(i as int));
            if c.source_out.at_most(&c.source_in) {
                let e = GraphValidationError::InvalidSourceBounds {
                    clip_id: c.clip_id.clone(),
                    source_in: c.source_in,
                    source_out: c.source_out,
                };
                proof {
                    assert(video_clip_error(clips@.take(i + 1)) == Some(e));
                    lemma_video_clip_error_prefix(clips@, i as int + 1);
                    assert(models.take(t + 1).drop_last() =~= models.take(t as int));
                    lemma_video_tracks_error_prefix(models, t as int + 1);
                }
                return Some(e);
            }
            i = i + 1;
        }
        assert(clips@.take(i as int) =~= clips@);
        assert(models.take(t + 1).drop_last() =~= models.take(t as int));
        t = t + 1;
    }
    assert(models.take(t as int) =~= models);
    None
}

fn check_audio_tracks(tracks: &Vec<EditorAudioTrack>) -> (r: Option<GraphValidationError>)
    ensures
        r == audio_tracks_error(tracks@.map_values(|t: EditorAudioTrack| t@)),
{
    let ghost models = tracks@.map_values(|t: EditorAudioTrack| t@);
    let mut t: usize = 0;
    assert(models.take(0) =~= Seq::<AudioTrackModel>::empty());
    while t < tracks.len()
        invariant
            t <= tracks@.len(),
            models == tracks@.map_values(|t: EditorAudioTrack| t@),
            audio_tracks_error(models.take(t as int)) is None,
        decreases tracks@.len() - t,
    {
        let clips = &tracks[t].clips;
        let mut i: usize = 0;
        assert(clips@.take(0) =~= Seq::<EditorAudioClipNode>::empty());
        while i < clips.len()
            invariant
                i <= clips@.len(),
                t < tracks@.len(),
                models == tracks@.map_values(|t: EditorAudioTrack| t@),
                clips@ == models[t as int].clips,
                audio_tracks_error(models.take(t as int)) is None,
                audio_clip_error(clips@.take(i as int)) is None,
            decreases clips@.len() - i,
        {
            let c = &clips[i];
            assert(clips@.take(i + 1).drop_last() =~= clips@.take(i as int));
            if c.source_out.at_most(&c.source_in) {
                let e = GraphValidationError::InvalidSourceBounds {
                    clip_id: c.clip_id.clone(),
                    source_in: c.source_in,
                    source_out: c.source_out,
                };
                proof {
                    assert(audio_clip_error(clips@.take(i + 1)) == Some(e));
                    lemma_audio_clip_error_prefix(clips@, i as int + 1);
                    assert(models.take(t + 1).drop_last() =~= models.take(t as int));
                    lemma_audio_tracks_error_prefix(models, t as int + 1);
                }
                return Some(e);
            }
            i = i + 1;
        }
        assert(clips@.take(i as int) =~= clips@);
        assert(models.take(t + 1).drop_last() =~= models.take(t as int));
        t = t + 1;
    }
    assert(models.take(t as int) =~= models);
    None
}

/// An error found in a prefix is the error of the whole sequence.
proof fn lemma_video_clip_error_prefix(s: Seq<EditorVideoClipNode>, n: int)
    requires
        0 <= n <= s.len(),
        video_clip_error(s.take(n)) is Some,
    ensures
        video_clip_error(s) == video_clip_error(s.take(n)),
    decreases s.len() - n,
{
    if n < s.len() {
        assert(s.take(n + 1).drop_last() =~= s.take(n));
        lemma_video_clip_error_prefix(s, n + 1);
    } else {
        assert(s.take(n) =~= s);
    }
}

proof fn lemma_audio_clip_error_prefix(s: Seq<EditorAudioClipNode>, n: int)
    requires
        0 <= n <= s.len(),
        audio_clip_error(s.take(n)) is Some,
    ensures
        audio_clip_error(s) == audio_clip_error(s.take(n)),
    decreases s.len() - n,
{
    if n < s.len() {
        assert(s.take(n + 1).drop_last() =~= s.take(n));
        lemma_audio_clip_error_prefix(s, n + 1);
    } else {
        assert(s.take(n) =~= s);
    }
}

proof fn lemma_video_tracks_error_prefix(s: Seq<VideoTrackModel>, n: int)
    requires
        0 <= n <= s.len(),
        video_tracks_error(s.take(n)) is Some,
    ensures
        video_tracks_error(s) == video_tracks_error(s.take(n)),
    decreases s.len() - n,
{
    if n < s.len() {
        assert(s.take(n + 1).drop_last() =~= s.take(n));
        lemma_video_tracks_error_prefix(s, n + 1);
    } else {
        assert(s.take(n) =~= s);
    }
}

proof fn lemma_audio_tracks_error_prefix(s: Seq<AudioTrackModel>, n: int)
    requires
        0 <= n <= s.len(),
        audio_tracks_error(s.take(n)) is Some,
    ensures
        audio_tracks_error(s) == audio_tracks_error(s.take(n)),
    decreases s.len() - n,
{
    if n < s.len() {
        assert(s.take(n + 1).drop_last() =~= s.take(n));
        lemma_audio_tracks_error_prefix(s, n + 1);
    } else {
        assert(s.take(n) =~= s);
    }
}

/// Check the graph's invariants: positive canvas dimensions, a positive
/// timeline duration, and non-empty source ranges for every clip.
pub fn validate_graph(graph: &EditorGraph) -> (r: Result<(), GraphValidationError>)
    ensures
        r == graph_validation(graph@),
{
    if graph.canvas_width == 0 || graph.canvas_height == 0 {
        return Err(GraphValidationError::ZeroCanvasDimensions(graph.canvas_width, graph.canvas_height));
    }
    if graph.total_duration.at_most(&TimeRational::zero()) {
        return Err(GraphValidationError::EmptyTimelineDuration);
    }
    match check_video_tracks(&graph.video_tracks) {
        Some(e) => {
            return Err(e);
        },
        None => {},
    }
    match check_audio_tracks(&graph.audio_tracks) {
        Some(e) => {
            return Err(e);
        },
        None => {},
    }
    Ok(())
}

} // verus!
