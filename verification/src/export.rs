//! Export decisions: the export modes, their errors, whether a project can
//! be exported by lossless stream copy, and whether it carries audio.
use vstd::prelude::*;
use crate::compiler::speed_altered;
use crate::operations::{clips_of, latest_end};
use crate::schema::{AssetReference, ClipDefinition, Project, ProjectModel, TrackDefinition, TrackKind, TrackModel};
use crate::text::str_eq;
use crate::time::TimeRational;

verus! {

/// How a project is exported.
#[derive(Debug, Clone, Copy, PartialEq, Eq, Structural)]
pub enum ExportMode {
    FastPathRemux,
    Transcode,
}

impl ExportMode {
    /// Human-readable name of the mode.
    pub fn label(self) -> (r: &'static str)
        ensures
            r@ == (match self {
                ExportMode::FastPathRemux => "Fast-Path Stream Copy (Lossless Remux)"@,
                ExportMode::Transcode => "H.264 Video Transcode"@,
            }),
    {
        match self {
            ExportMode::FastPathRemux => "Fast-Path Stream Copy (Lossless Remux)",
            ExportMode::Transcode => "H.264 Video Transcode",
        }
    }
}

/// Errors of the export pipeline.
#[derive(Debug, PartialEq)]
pub enum ExportError {
    /// Reading or writing `path` failed with the given system message.
    Io { path: String, message: String },
    /// The media library reported a failure.
    Ffmpeg(String),
    /// The project has no clips to export.
    EmptyProject,
    /// The exported file does not meet expectations.
    Validation(String),
    /// The user cancelled the export.
    Cancelled,
}

/// The video tracks of a project, in order.
pub open spec fn video_track_list(ts: Seq<TrackModel>) -> Seq<TrackModel>
    decreases ts.len(),
{
    if ts.len() == 0 {
        Seq::empty()
    } else if ts.last().kind == TrackKind::Video {
        video_track_list(ts.drop_last()).push(ts.last())
    } else {
        video_track_list(ts.drop_last())
    }
}

/// Some audio track holds a clip.
pub open spec fn has_audio_clips(ts: Seq<TrackModel>) -> bool {
    exists|i: int| 0 <= i < ts.len() && (#[trigger] ts[i]).kind == TrackKind::Audio && ts[i].clips.len() > 0
}

/// Index of the first asset at or after `i` with id `id`.
pub open spec fn first_asset_from(assets: Seq<AssetReference>, id: Seq<char>, i: int) -> Option<int>
    decreases assets.len() - i,
{
    if i < 0 || i >= assets.len() {
        None
    } else if assets[i].id@ == id {
        Some(i)
    } else {
        first_asset_from(assets, id, i + 1)
    }
}

/// The source of a lossless stream-copy export, if the project allows one:
/// a single video track holding a single clip at normal speed, unmuted,
/// without crop, transform or template, no audio track with clips, and a
/// registered asset whose known dimensions match the canvas. The result is
/// the asset's path and the clip's in- and out-point.
pub open spec fn remux_source(p: ProjectModel) -> Option<(String, TimeRational, TimeRational)> {
    let v = video_track_list(p.tracks);
    if v.len() != 1 || v[0].clips.len() != 1 {
        None
    } else {
        let c = v[0].clips[0];
        if speed_altered(c.speed_milli) || c.muted || c.crop is Some || c.transform is Some
            || c.template is Some || has_audio_clips(p.tracks) {
            None
        } else {
            match first_asset_from(p.assets, c.asset_id@, 0) {
                None => None,
                Some(i) => {
                    let a = p.assets[i];
                    if a.width matches Some(w) && a.height matches Some(h) && (w
                        != p.settings.width || h != p.settings.height) {
                        None
                    } else {
                        Some((a.file_path, c.in_point, c.out_point))
                    }
                },
            }
        }
    }
}

/// Some track could sound: an unmuted audio track with clips, or an
/// unmuted video track with an unmuted clip.
pub open spec fn has_audible_content(ts: Seq<TrackModel>) -> bool {
    exists|i: int|
        0 <= i < ts.len() && {
            let t = #[trigger] ts[i];
            ||| t.kind == TrackKind::Audio && !t.muted && t.clips.len() > 0
            ||| t.kind == TrackKind::Video && !t.muted && exists|j: int|
                0 <= j < t.clips.len() && !(#[trigger] t.clips[j]).muted
        }
}

/// Whether the export needs an audio stream (see `has_audible_content`).
pub fn project_has_audible_content(project: &Project) -> (r: bool)
    ensures
        r == has_audible_content(project@.tracks),
{
    let ghost models = project@.tracks;
    let mut t: usize = 0;
    while t < project.tracks.len()
        invariant
            t <= project.tracks@.len(),
            models == project@.tracks,
            forall|k: int|
                0 <= k < t ==> {
                    let tr = #[trigger] models[k];
                    &&& !(tr.kind == TrackKind::Audio && !tr.muted && tr.clips.len() > 0)
                    &&& !(tr.kind == TrackKind::Video && !tr.muted && exists|j: int|
                        0 <= j < tr.clips.len() && !(#[trigger] tr.clips[j]).muted)
                },
        decreases project.tracks@.len() - t,
    {
        let track = &project.tracks[t];
        assert(models[t as int] == track@);
        if !track.muted {
            match track.kind {
                TrackKind::Audio => {
                    if track.clips.len() > 0 {
                        return true;
                    }
                },
                TrackKind::Video => {
                    let mut i: usize = 0;
                    while i < track.clips.len()
                        invariant
                            i <= track.clips@.len(),
                            t < project.tracks@.len(),
                            models == project@.tracks,
                            track == project.tracks@[t as int],
                            track.kind == TrackKind::Video,
                            !track.muted,
                            forall|j: int| 0 <= j < i ==> (#[trigger] track.clips@[j]).muted,
                        decreases track.clips@.len() - i,
                    {
                        if !track.clips[i].muted {
                            assert(!track@.clips[i as int].muted);
                            assert(models[t as int].kind == TrackKind::Video && !models[t as int].muted
                                && exists|j: int|
                                0 <= j < models[t as int].clips.len()
                                    && !(#[trigger] models[t as int].clips[j]).muted);
                            return true;
                        }
                        i = i + 1;
                    }
                },
            }
        }
        t = t + 1;
    }
    false
}

/// Position of the first asset with id `id`.
fn find_first_asset(assets: &Vec<AssetReference>, id: &str) -> (r: Option<usize>)
    ensures
        r matches Some(i) ==> first_asset_from(assets@, id@, 0) == Some(i as int) && i
            < assets@.len(),
        r is None ==> first_asset_from(assets@, id@, 0) is None,
{
    let mut i: usize = 0;
    while i < assets.len()
        invariant
            i <= assets@.len(),
            first_asset_from(assets@, id@, 0) == first_asset_from(assets@, id@, i as int),
        decreases assets@.len() - i,
    {
        if str_eq(assets[i].id.as_str(), id) {
            return Some(i);
        }
        i = i + 1;
    }
    None
}

/// Decide whether `project` can be exported by lossless stream copy, and
/// from which source range (see `remux_source`).
pub fn can_fast_path_remux(project: &Project) -> (r: Option<(String, TimeRational, TimeRational)>)
    ensures
        r == remux_source(project@),
{
    let ghost models = project@.tracks;
    // Count video tracks (up to two) and remember the first.
    let mut count: usize = 0;
    let mut first: usize = 0;
    let mut audio_busy = false;
    let mut t: usize = 0;
    assert(models.take(0) =~= Seq::<TrackModel>::empty());
    while t < project.tracks.len()
        invariant
            t <= project.tracks@.len(),
            models == project@.tracks,
            count == (if video_track_list(models.take(t as int)).len() >= 2 {
                2
            } else {
                video_track_list(models.take(t as int)).len()
            }),
            count >= 1 ==> first < project.tracks@.len() && video_track_list(
                models.take(t as int),
            )[0] == models[first as int],
            audio_busy == has_audio_clips(models.take(t as int)),
        decreases project.tracks@.len() - t,
    {
        let track = &project.tracks[t];
        assert(models[t as int] == track@);
        assert(models.take(t + 1).drop_last() =~= models.take(t as int));
        assert(models.take(t + 1).last() == track@);
        match track.kind {
            TrackKind::Video => {
                if count == 0 {
                    first = t;
                }
                if count < 2 {
                    count = count + 1;
                }
            },
            TrackKind::Audio => {
                if track.clips.len() > 0 {
                    audio_busy = true;
                    assert(models.take(t + 1)[t as int] == track@);
                }
            },
        }
        proof {
            let p0 = models.take(t as int);
            let p1 = models.take(t + 1);
            if has_audio_clips(p0) {
                let k = choose|k: int| 0 <= k < p0.len() && (#[trigger] p0[k]).kind == TrackKind::Audio && p0[k].clips.len() > 0;
                assert(p1[k] == p0[k]);
            }
            if has_audio_clips(p1) {
                let k = choose|k: int| 0 <= k < p1.len() && (#[trigger] p1[k]).kind == TrackKind::Audio && p1[k].clips.len() > 0;
                if k < t {
                    assert(p0[k] == p1[k]);
                }
            }
        }
        t = t + 1;
    }
    assert(models.take(t as int) =~= models);
    if count != 1 {
        return None;
    }
    let v_track = &project.tracks[first];
    if v_track.clips.len() != 1 {
        return None;
    }
    let clip = &v_track.clips[0];
    if clip.speed_milli > 1001 || clip.speed_milli < 999 {
        return None;
    }
    if clip.muted || clip.crop.is_some() || clip.transform.is_some() || clip.template.is_some() {
        return None;
    }
    if audio_busy {
        return None;
    }
    match find_first_asset(&project.assets, clip.asset_id.as_str()) {
        None => None,
        Some(i) => {
            let asset = &project.assets[i];
            match (asset.width, asset.height) {
                (Some(w), Some(h)) => {
                    if w != project.settings.width || h != project.settings.height {
                        return None;
                    }
                },
                _ => {},
            }
            Some((asset.file_path.clone(), clip.in_point, clip.out_point))
        },
    }
}

/// The export mode for `project` and, for a stream copy, its source (see
/// `remux_source`): stream copy when the project allows it, otherwise a
/// transcode.
pub fn choose_export_mode(project: &Project) -> (r: (ExportMode, Option<(String, TimeRational, TimeRational)>))
    ensures
        r.1 == remux_source(project@),
        r.0 == (if remux_source(project@) is Some {
            ExportMode::FastPathRemux
        } else {
            ExportMode::Transcode
        }),
{
    let source = can_fast_path_remux(project);
    match source {
        Some(src) => (ExportMode::FastPathRemux, Some(src)),
        None => (ExportMode::Transcode, None),
    }
}

/// One millisecond, the shortest timeline worth exporting.
pub open spec fn one_millisecond() -> TimeRational {
    TimeRational { num: 1, den: 1000 }
}

/// Refuse to export a timeline no longer than one millisecond.
pub fn check_exportable(project: &Project) -> (r: Result<(), ExportError>)
    requires
        project.clips_fit(),
    ensures
        latest_end(clips_of(project@.tracks)).value_le(one_millisecond()) ==> r == Err::<
            (),
            ExportError,
        >(ExportError::EmptyProject),
        !latest_end(clips_of(project@.tracks)).value_le(one_millisecond()) ==> r is Ok,
{
    let total = project.total_duration();
    if total.at_most(&TimeRational { num: 1, den: 1000 }) {
        Err(ExportError::EmptyProject)
    } else {
        Ok(())
    }
}

/// Some video track has a clip playing at timeline instant `t`.
pub open spec fn video_covers_at(tracks: Seq<TrackModel>, t: TimeRational) -> bool {
    exists|i: int, j: int|
        0 <= i < tracks.len() && (#[trigger] tracks[i]).kind == TrackKind::Video && 0 <= j
            < tracks[i].clips.len() && {
            let c = #[trigger] tracks[i].clips[j];
            c.timeline_start.value_le(t) && t.value_lt(c.spec_end())
        }
}

/// Whether a video clip plays at timeline instant `t` (the transcoder then
/// renders picture content, and black otherwise).
pub fn video_covers(project: &Project, t: TimeRational) -> (r: bool)
    requires
        project.clips_fit(),
    ensures
        r == video_covers_at(project@.tracks, t),
{
    let ghost models = project@.tracks;
    let mut i: usize = 0;
    while i < project.tracks.len()
        invariant
            i <= project.tracks@.len(),
            models == project@.tracks,
            project.clips_fit(),
            forall|a: int, b: int|
                0 <= a < i && models[a].kind == TrackKind::Video && 0 <= b
                    < models[a].clips.len() ==> !({
                    let c = #[trigger] models[a].clips[b];
                    c.timeline_start.value_le(t) && t.value_lt(c.spec_end())
                }),
        decreases project.tracks@.len() - i,
    {
        let track: &TrackDefinition = &project.tracks[i];
        assert(models[i as int] == track@);
        match track.kind {
            TrackKind::Video => {
                let mut j: usize = 0;
                while j < track.clips.len()
                    invariant
                        j <= track.clips@.len(),
                        i < project.tracks@.len(),
                        track == project.tracks@[i as int],
                        models == project@.tracks,
                        models[i as int] == track@,
                        track.kind == TrackKind::Video,
                        project.clips_fit(),
                        forall|b: int|
                            0 <= b < j ==> !({
                                let c = #[trigger] track.clips@[b];
                                c.timeline_start.value_le(t) && t.value_lt(c.spec_end())
                            }),
                    decreases track.clips@.len() - j,
                {
                    let c = &track.clips[j];
                    assert(c.times_fit());
                    if c.timeline_start.at_most(&t) && t.less_than(&c.timeline_end()) {
                        assert(models[i as int].clips[j as int] == *c);
                        assert(models[i as int].kind == TrackKind::Video);
                        assert(video_covers_at(models, t));
                        return true;
                    }
                    j = j + 1;
                }
                assert forall|b: int| 0 <= b < models[i as int].clips.len() implies !({
                    let c = #[trigger] models[i as int].clips[b];
                    c.timeline_start.value_le(t) && t.value_lt(c.spec_end())
                }) by {
                    assert(models[i as int].clips[b] == track.clips@[b]);
                }
            },
            TrackKind::Audio => {},
        }
        i = i + 1;
    }
    false
}

/// The YUV fill of a transcoded frame: a light test picture where a video
/// clip plays, black elsewhere.
pub fn frame_fill(covered: bool) -> (r: (u8, u8, u8))
    ensures
        r == (if covered {
            (180u8, 140u8, 120u8)
        } else {
            (16u8, 128u8, 128u8)
        }),
{
    if covered {
        (180, 140, 120)
    } else {
        (16, 128, 128)
    }
}

/// Selects the video tracks of a project.
pub open spec fn video_track_pred() -> spec_fn(TrackModel) -> bool {
    |t: TrackModel| t.kind == TrackKind::Video
}

proof fn lemma_video_track_list_filter(ts: Seq<TrackModel>)
    ensures
        video_track_list(ts) == ts.filter(video_track_pred()),
    decreases ts.len(),
{
    reveal(Seq::filter);
    if ts.len() > 0 {
        lemma_video_track_list_filter(ts.drop_last());
    }
}

proof fn lemma_first_asset_from(assets: Seq<AssetReference>, id: Seq<char>, i: int)
    requires
        0 <= i,
    ensures
        first_asset_from(assets, id, i) matches Some(k) ==> i <= k < assets.len() && assets[k].id@
            == id,
        first_asset_from(assets, id, i) is None ==> forall|k: int|
            i <= k < assets.len() ==> (#[trigger] assets[k]).id@ != id,
    decreases assets.len() - i,
{
    if i < assets.len() && assets[i].id@ != id {
        lemma_first_asset_from(assets, id, i + 1);
    }
}

/// A project is exported by stream copy only from a plain single clip: the
/// project has exactly one video track, holding exactly one clip, which is
/// not muted, has no crop, transform or template and plays at normal speed;
/// no audio track holds a clip; and the source is a registered asset of
/// that clip, copied from the clip's in-point to its out-point. Conversely,
/// such a project whose registered assets for the clip all match the canvas
/// (where their size is known) is exported by stream copy.
pub proof fn lemma_stream_copy_needs_plain_clip(p: ProjectModel)
    ensures
        remux_source(p) matches Some((path, from, to)) ==> {
            let v = p.tracks.filter(video_track_pred());
            &&& v.len() == 1
            &&& v[0].clips.len() == 1
            &&& !v[0].clips[0].muted
            &&& v[0].clips[0].crop is None
            &&& v[0].clips[0].transform is None
            &&& v[0].clips[0].template is None
            &&& 999 <= v[0].clips[0].speed_milli <= 1001
            &&& forall|t: int|
                0 <= t < p.tracks.len() && (#[trigger] p.tracks[t]).kind == TrackKind::Audio
                    ==> p.tracks[t].clips.len() == 0
            &&& from == v[0].clips[0].in_point
            &&& to == v[0].clips[0].out_point
            &&& exists|a: int|
                0 <= a < p.assets.len() && (#[trigger] p.assets[a]).id@ == v[0].clips[0].asset_id@
                    && p.assets[a].file_path == path
        },
        ({
            let v = p.tracks.filter(video_track_pred());
            &&& v.len() == 1
            &&& v[0].clips.len() == 1
            &&& !v[0].clips[0].muted
            &&& v[0].clips[0].crop is None
            &&& v[0].clips[0].transform is None
            &&& v[0].clips[0].template is None
            &&& 999 <= v[0].clips[0].speed_milli <= 1001
            &&& forall|t: int|
                0 <= t < p.tracks.len() && (#[trigger] p.tracks[t]).kind == TrackKind::Audio
                    ==> p.tracks[t].clips.len() == 0
            &&& exists|a: int|
                0 <= a < p.assets.len() && (#[trigger] p.assets[a]).id@ == v[0].clips[0].asset_id@
            &&& forall|a: int|
                0 <= a < p.assets.len() && (#[trigger] p.assets[a]).id@ == v[0].clips[0].asset_id@
                    ==> (p.assets[a].width matches Some(w) ==> w == p.settings.width) && (
                    p.assets[a].height matches Some(h) ==> h == p.settings.height)
        }) ==> remux_source(p) is Some,
{
    lemma_video_track_list_filter(p.tracks);
    let v = video_track_list(p.tracks);
    if v.len() == 1 && v[0].clips.len() == 1 {
        let c = v[0].clips[0];
        lemma_first_asset_from(p.assets, c.asset_id@, 0);
        if has_audio_clips(p.tracks) {
            let i = choose|i: int|
                0 <= i < p.tracks.len() && (#[trigger] p.tracks[i]).kind == TrackKind::Audio
                    && p.tracks[i].clips.len() > 0;
            assert(p.tracks[i].kind == TrackKind::Audio);
        }
    }
}

} // verus!
