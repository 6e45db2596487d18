//! Bringing analysed media into a project: the asset record, and where its
//! clips are placed on the timeline.
use vstd::prelude::*;
use vstd::string::*;
use crate::error::ProjectError;
use crate::history::{spec_commit, ProjectHistory};
use crate::media::MediaMetadata;
use crate::operations::{clips_of, latest_end, sort_by_start, starts_wf, track_index, with_clips, with_track};
use crate::schema::{AssetReference, ClipDefinition, Project, ProjectModel, ProjectSettings, TrackModel};
use crate::text::{push_signed_decimal, signed_decimal, str_eq};
use crate::time::TimeRational;

verus! {

/// The asset record of the analysed media file at `file_path`.
pub open spec fn asset_record_of(
    r: AssetReference,
    asset_id: Seq<char>,
    file_path: Seq<char>,
    display_name: Seq<char>,
    metadata: MediaMetadata,
) -> bool {
    &&& r.id@ == asset_id
    &&& r.file_path@ == file_path
    &&& r.display_name@ == display_name
    &&& r.duration == metadata.duration
    &&& r.width == (match metadata.video {
        Some(v) => Some(v.width),
        None => None,
    })
    &&& r.height == (match metadata.video {
        Some(v) => Some(v.height),
        None => None,
    })
    &&& r.has_audio == metadata.audio is Some
    &&& r.has_video == metadata.video is Some
}

/// The asset record of an analysed media file.
pub fn asset_reference(
    asset_id: &str,
    file_path: &str,
    display_name: &str,
    metadata: &MediaMetadata,
) -> (r: AssetReference)
    ensures
        asset_record_of(r, asset_id@, file_path@, display_name@, *metadata),
{
    let (width, height) = match &metadata.video {
        Some(v) => (Some(v.width), Some(v.height)),
        None => (None, None),
    };
    AssetReference {
        id: String::from_str(asset_id),
        file_path: String::from_str(file_path),
        display_name: String::from_str(display_name),
        duration: metadata.duration,
        width,
        height,
        has_audio: metadata.audio.is_some(),
        has_video: metadata.video.is_some(),
    }
}

/// The track that receives clips of an asset: the first video track for
/// media with video, the first audio track otherwise.
pub open spec fn target_track(has_video: bool) -> Seq<char> {
    if has_video {
        "track-v1"@
    } else {
        "track-a1"@
    }
}

/// The latest end among `s` (the last of equal ends), or `None` when `s` is
/// empty, as `Iterator::max` picks it.
pub open spec fn max_end(s: Seq<ClipDefinition>) -> Option<TimeRational>
    decreases s.len(),
{
    if s.len() == 0 {
        None
    } else {
        let e = s.last().spec_end();
        match max_end(s.drop_last()) {
            None => Some(e),
            Some(m) => if e.value_lt(m) {
                Some(m)
            } else {
                Some(e)
            },
        }
    }
}

/// Where a clip appended to the track with id `track_id` starts: after its
/// latest clip, or at zero when the track is missing or empty.
pub open spec fn append_position(tracks: Seq<TrackModel>, track_id: Seq<char>) -> TimeRational {
    match track_index(tracks, track_id) {
        Some(t) => match max_end(tracks[t].clips) {
            Some(e) => e,
            None => TimeRational { num: 0, den: 1 },
        },
        None => TimeRational { num: 0, den: 1 },
    }
}

/// A clip of the whole asset `asset_id` (`duration` long) starting at `start`,
/// with id `id`, at full volume and normal speed.
pub open spec fn whole_asset_clip(
    c: ClipDefinition,
    id: Seq<char>,
    asset_id: Seq<char>,
    start: TimeRational,
    duration: TimeRational,
) -> bool {
    &&& c.id@ == id
    &&& c.asset_id@ == asset_id
    &&& c.timeline_start == start
    &&& c.in_point == (TimeRational { num: 0, den: 1 })
    &&& c.out_point == duration
    &&& c.volume_milli == 1000
    &&& !c.muted
    &&& c.speed_milli == 1000
    &&& c.fade_in is None
    &&& c.fade_out is None
    &&& c.crop is None
    &&& c.transform is None
    &&& c.template is None
}

/// `after` is `before` with `clip` added to the clips of the track at `t`,
/// the track staying ordered by start.
pub open spec fn clip_added(before: ProjectModel, after: ProjectModel, t: int, clip: ClipDefinition) -> bool {
    after == with_track(
        before,
        t,
        with_clips(before.tracks[t], sort_by_start(before.tracks[t].clips.push(clip))),
    )
}

/// Every clip of every track has computable duration and end.
pub open spec fn all_clips_fit(tracks: Seq<TrackModel>) -> bool {
    forall|t: int, c: int|
        0 <= t < tracks.len() && 0 <= c < tracks[t].clips.len()
            ==> (#[trigger] tracks[t].clips[c]).times_fit()
}

/// Id of an appended clip: `clip_<asset id>_<numerator of the timeline's duration>`.
pub open spec fn appended_clip_id(asset_id: Seq<char>, p: ProjectModel) -> Seq<char> {
    "clip_"@ + asset_id + "_"@ + signed_decimal(latest_end(clips_of(p.tracks)).num as int)
}

/// Settings after placing the first clip: the canvas takes the size of the
/// asset's video, and its frame rate `fps` when that is positive.
pub open spec fn first_clip_settings(s0: ProjectSettings, metadata: MediaMetadata, fps: u32) -> ProjectSettings {
    match metadata.video {
        Some(v) => if fps > 0 {
            ProjectSettings { width: v.width, height: v.height, fps_num: fps, fps_den: 1, ..s0 }
        } else {
            ProjectSettings { width: v.width, height: v.height, ..s0 }
        },
        None => s0,
    }
}

/// Id of the first clip placed on an empty timeline: `clip_<asset id>_0`.
pub open spec fn first_clip_id(asset_id: Seq<char>) -> Seq<char> {
    "clip_"@ + asset_id + "_0"@
}

/// No track holds a clip.
pub open spec fn timeline_empty(p: ProjectModel) -> bool {
    forall|t: int| 0 <= t < p.tracks.len() ==> (#[trigger] p.tracks[t]).clips.len() == 0
}

proof fn lemma_max_end_wf(s: Seq<ClipDefinition>)
    requires
        forall|i: int| 0 <= i < s.len() ==> (#[trigger] s[i]).times_fit(),
    ensures
        max_end(s) matches Some(e) ==> e.wf(),
    decreases s.len(),
{
    if s.len() > 0 {
        let d = s.drop_last();
        assert forall|i: int| 0 <= i < d.len() implies (#[trigger] d[i]).times_fit() by {
            assert(d[i] == s[i]);
        }
        lemma_max_end_wf(d);
        crate::time::lemma_sum_value(s.last().timeline_start, s.last().spec_duration());
    }
}

/// Where a clip appended to the first track with id `id` starts.
fn track_tail(tracks: &Vec<crate::schema::TrackDefinition>, id: &str) -> (r: TimeRational)
    requires
        all_clips_fit(tracks@.map_values(|t: crate::schema::TrackDefinition| t@)),
    ensures
        r == append_position(tracks@.map_values(|t: crate::schema::TrackDefinition| t@), id@),
        r.wf(),
{
    let ghost models = tracks@.map_values(|t: crate::schema::TrackDefinition| t@);
    let mut i: usize = 0;
    while i < tracks.len()
        invariant
            i <= tracks@.len(),
            models == tracks@.map_values(|t: crate::schema::TrackDefinition| t@),
            all_clips_fit(models),
            track_index(models, id@) == crate::operations::track_index_from(models, id@, i as int),
        decreases tracks@.len() - i,
    {
        if str_eq(tracks[i].id.as_str(), id) {
            let clips = &tracks[i].clips;
            assert(models[i as int].clips == clips@);
            assert forall|c: int| 0 <= c < clips@.len() implies (#[trigger] clips@[c]).times_fit() by {
                assert(models[i as int].clips[c] == clips@[c]);
                assert(models[i as int].clips[c].times_fit());
            }
            let mut best: Option<TimeRational> = None;
            let mut k: usize = 0;
            assert(clips@.take(0) =~= Seq::<ClipDefinition>::empty());
            while k < clips.len()
                invariant
                    k <= clips@.len(),
                    forall|c: int| 0 <= c < clips@.len() ==> (#[trigger] clips@[c]).times_fit(),
                    best == max_end(clips@.take(k as int)),
                decreases clips@.len() - k,
            {
                assert(clips@.take(k + 1).drop_last() =~= clips@.take(k as int));
                assert(clips@.take(k + 1).last() == clips@[k as int]);
                assert(clips@[k as int].times_fit());
                let e = clips[k].timeline_end();
                best = match best {
                    None => Some(e),
                    Some(m) => if e.less_than(&m) {
                        Some(m)
                    } else {
                        Some(e)
                    },
                };
                k = k + 1;
            }
            assert(clips@.take(k as int) =~= clips@);
            proof {
                lemma_max_end_wf(clips@);
            }
            return match best {
                Some(e) => e,
                None => TimeRational::zero(),
            };
        }
        i = i + 1;
    }
    TimeRational::zero()
}

proof fn lemma_clips_fit_exec(p: &Project)
    requires
        all_clips_fit(p@.tracks),
    ensures
        p.clips_fit(),
        forall|t: int| 0 <= t < p.tracks@.len() ==> starts_wf(#[trigger] p.tracks@[t].clips@),
{
    assert forall|t: int, c: int|
        0 <= t < p.tracks@.len() && 0 <= c < p.tracks@[t].clips@.len() implies (
        #[trigger] p.tracks@[t].clips@[c]).times_fit() by {
        assert(p@.tracks[t].clips[c] == p.tracks@[t].clips@[c]);
    }
    assert forall|t: int| 0 <= t < p.tracks@.len() implies starts_wf(#[trigger] p.tracks@[t].clips@) by {
        assert forall|c: int| 0 <= c < p.tracks@[t].clips@.len() implies (
        #[trigger] p.tracks@[t].clips@[c]).timeline_start.wf() by {
            assert(p@.tracks[t].clips[c] == p.tracks@[t].clips@[c]);
        }
    }
}

/// A clip of the whole asset `asset_id` with id `id`, starting at `start`.
fn whole_clip(id: String, asset_id: &str, start: TimeRational, duration: TimeRational) -> (r:
    ClipDefinition)
    ensures
        whole_asset_clip(r, id@, asset_id@, start, duration),
{
    ClipDefinition {
        id,
        asset_id: String::from_str(asset_id),
        timeline_start: start,
        in_point: TimeRational::zero(),
        out_point: duration,
        volume_milli: 1000,
        muted: false,
        speed_milli: 1000,
        fade_in: None,
        fade_out: None,
        crop: None,
        transform: None,
        template: None,
    }
}

impl Project {
    /// Record an analysed media file among the project's assets.
    pub fn register_asset(
        &mut self,
        asset_id: &str,
        file_path: &str,
        display_name: &str,
        metadata: &MediaMetadata,
    )
        ensures
            final(self)@.assets.len() == old(self)@.assets.len() + 1,
            final(self)@.assets.drop_last() == old(self)@.assets,
            asset_record_of(final(self)@.assets.last(), asset_id@, file_path@, display_name@, *metadata),
            final(self)@ == (ProjectModel { assets: final(self)@.assets, ..old(self)@ }),
    {
        let a = asset_reference(asset_id, file_path, display_name, metadata);
        self.assets.push(a);
        assert(self@.assets.drop_last() =~= old(self)@.assets);
    }

    /// Add a clip of the whole asset `asset_id` (`duration` long) after the
    /// last clip of the track for its kind (see `target_track`), having
    /// recorded the project in `history` as "Add Clip to Timeline".
    pub fn append_asset_clip(
        &mut self,
        history: &mut ProjectHistory,
        asset_id: &str,
        duration: TimeRational,
        has_video: bool,
    ) -> (r: Result<(), ProjectError>)
        requires
            old(history).wf(),
            all_clips_fit(old(self)@.tracks),
        ensures
            final(history).wf(),
            final(history)@ == spec_commit(old(history)@, old(self)@, "Add Clip to Timeline"@),
            match track_index(old(self)@.tracks, target_track(has_video)) {
                None => {
                    &&& r matches Err(ProjectError::TrackNotFound(s)) && s@ == target_track(has_video)
                    &&& final(self)@ == old(self)@
                },
                Some(t) => {
                    &&& r is Ok
                    &&& exists|c: ClipDefinition|
                        whole_asset_clip(
                            c,
                            appended_clip_id(asset_id@, old(self)@),
                            asset_id@,
                            append_position(old(self)@.tracks, target_track(has_video)),
                            duration,
                        ) && clip_added(old(self)@, final(self)@, t, c)
                },
            },
    {
        history.commit(self, "Add Clip to Timeline");
        proof {
            reveal_strlit("track-v1");
            reveal_strlit("track-a1");
            reveal_strlit("clip_");
            reveal_strlit("_");
            lemma_clips_fit_exec(self);
        }
        let track_id = if has_video {
            "track-v1"
        } else {
            "track-a1"
        };
        let start = track_tail(&self.tracks, track_id);
        let total = self.total_duration();
        let mut id = String::from_str("clip_");
        id.append(asset_id);
        id.append("_");
        push_signed_decimal(&mut id, total.num);
        let clip = whole_clip(id, asset_id, start, duration);
        let ghost c = clip;
        let ghost before = self@;
        assert(before == old(self)@);
        let r = self.add_clip(track_id, clip);
        proof {
            if let Some(t) = track_index(before.tracks, track_id@) {
                assert(whole_asset_clip(
                    c,
                    appended_clip_id(asset_id@, old(self)@),
                    asset_id@,
                    append_position(old(self)@.tracks, target_track(has_video)),
                    duration,
                ));
                assert(clip_added(old(self)@, self@, t, c));
            }
        }
        r
    }

    /// On an empty timeline, place the whole analysed asset at the start of
    /// the track for its kind, taking the canvas size from its video and the
    /// frame rate `fps` (when positive), having recorded the project in
    /// `history` as "Add First Clip". Returns whether the timeline was empty.
    pub fn place_first_clip(
        &mut self,
        history: &mut ProjectHistory,
        asset_id: &str,
        metadata: &MediaMetadata,
        fps: u32,
    ) -> (r: bool)
        requires
            old(history).wf(),
            all_clips_fit(old(self)@.tracks),
        ensures
            final(history).wf(),
            r == timeline_empty(old(self)@),
            !r ==> final(self)@ == old(self)@ && final(history)@ == old(history)@,
            r ==> final(history)@ == spec_commit(old(history)@, old(self)@, "Add First Clip"@),
            r ==> ({
                let p1 = ProjectModel {
                    settings: first_clip_settings(old(self)@.settings, *metadata, fps),
                    ..old(self)@
                };
                match track_index(p1.tracks, target_track(metadata.video is Some)) {
                    None => final(self)@ == p1,
                    Some(t) => exists|c: ClipDefinition|
                        whole_asset_clip(
                            c,
                            first_clip_id(asset_id@),
                            asset_id@,
                            TimeRational { num: 0, den: 1 },
                            metadata.duration,
                        ) && clip_added(p1, final(self)@, t, c),
                }
            }),
    {
        let ghost models = self@.tracks;
        let mut t: usize = 0;
        while t < self.tracks.len()
            invariant
                t <= self.tracks@.len(),
                models == self@.tracks,
                self@ == old(self)@,
                history@ == old(history)@,
                history.wf(),
                forall|j: int| 0 <= j < t ==> (#[trigger] models[j]).clips.len() == 0,
            decreases self.tracks@.len() - t,
        {
            assert(models[t as int].clips == self.tracks@[t as int].clips@);
            if self.tracks[t].clips.len() > 0 {
                assert(!timeline_empty(old(self)@));
                return false;
            }
            t = t + 1;
        }
        history.commit(self, "Add First Clip");
        proof {
            reveal_strlit("track-v1");
            reveal_strlit("track-a1");
            reveal_strlit("clip_");
            reveal_strlit("_0");
            lemma_clips_fit_exec(self);
        }
        match &metadata.video {
            Some(v) => {
                self.settings.width = v.width;
                self.settings.height = v.height;
                if fps > 0 {
                    self.settings.fps_num = fps;
                    self.settings.fps_den = 1;
                }
            },
            None => {},
        }
        proof {
            lemma_clips_fit_exec(self);
        }
        let track_id = if metadata.video.is_some() {
            "track-v1"
        } else {
            "track-a1"
        };
        let mut id = String::from_str("clip_");
        id.append(asset_id);
        id.append("_0");
        let clip = whole_clip(id, asset_id, TimeRational::zero(), metadata.duration);
        let ghost c = clip;
        let ghost p1 = self@;
        let _ = self.add_clip(track_id, clip);
        proof {
            assert(p1 == ProjectModel {
                settings: first_clip_settings(old(self)@.settings, *metadata, fps),
                ..old(self)@
            });
            if let Some(t) = track_index(p1.tracks, track_id@) {
                assert(whole_asset_clip(
                    c,
                    first_clip_id(asset_id@),
                    asset_id@,
                    TimeRational { num: 0, den: 1 },
                    metadata.duration,
                ));
                assert(clip_added(p1, self@, t, c));
            }
        }
        true
    }
}

/// The latest end of a sequence of clips is the end of one of them and no
/// clip ends later (compared by value); there is none only for no clips.
pub proof fn lemma_max_end_is_latest(s: Seq<ClipDefinition>)
    requires
        forall|i: int| 0 <= i < s.len() ==> (#[trigger] s[i]).times_fit(),
    ensures
        max_end(s) is None <==> s.len() == 0,
        max_end(s) matches Some(m) ==> {
            &&& exists|i: int| 0 <= i < s.len() && m == (#[trigger] s[i]).spec_end()
            &&& forall|i: int| 0 <= i < s.len() ==> (#[trigger] s[i]).spec_end().value_le(m)
        },
    decreases s.len(),
{
    if s.len() > 0 {
        let d = s.drop_last();
        assert forall|i: int| 0 <= i < d.len() implies (#[trigger] d[i]).times_fit() by {
            assert(d[i] == s[i]);
        }
        lemma_max_end_is_latest(d);
        lemma_max_end_wf(d);
        let n = s.len() - 1;
        let e = s[n].spec_end();
        crate::time::lemma_sum_value(s[n].timeline_start, s[n].spec_duration());
        assert(s.last() == s[n]);
        match max_end(d) {
            None => {
                assert(e.value_le(e));
                assert forall|i: int| 0 <= i < s.len() implies (#[trigger] s[i]).spec_end().value_le(
                    e,
                ) by {
                    assert(i == n);
                }
            },
            Some(m) => {
                let j = choose|j: int| 0 <= j < d.len() && m == (#[trigger] d[j]).spec_end();
                assert(s[j] == d[j]);
                if e.value_lt(m) {
                    assert forall|i: int| 0 <= i < s.len() implies (#[trigger] s[i]).spec_end().value_le(
                        m,
                    ) by {
                        if i < n {
                            assert(s[i] == d[i]);
                        }
                    }
                } else {
                    assert(m.value_le(e));
                    assert forall|i: int| 0 <= i < s.len() implies (#[trigger] s[i]).spec_end().value_le(
                        e,
                    ) by {
                        if i < n {
                            assert(s[i] == d[i]);
                            assert(d[i].spec_end().value_le(m));
                            crate::time::lemma_sum_value(s[i].timeline_start, s[i].spec_duration());
                            crate::time::lemma_value_le_transitive(s[i].spec_end(), m, e);
                        } else {
                            assert(e.value_le(e));
                        }
                    }
                }
            },
        }
    }
}

/// A clip appended to a track starts no earlier than the end of every clip
/// already on that track, at the end of one of them, or at zero when the
/// track is empty or missing.
pub proof fn lemma_append_after_every_clip(tracks: Seq<TrackModel>, track_id: Seq<char>)
    requires
        all_clips_fit(tracks),
    ensures
        track_index(tracks, track_id) matches Some(t) ==> {
            let clips = tracks[t].clips;
            let pos = append_position(tracks, track_id);
            &&& forall|c: int| 0 <= c < clips.len() ==> (#[trigger] clips[c]).spec_end().value_le(pos)
            &&& clips.len() > 0 ==> exists|c: int| 0 <= c < clips.len() && pos == (#[trigger] clips[c]).spec_end()
            &&& clips.len() == 0 ==> pos == (TimeRational { num: 0, den: 1 })
        },
        track_index(tracks, track_id) is None ==> append_position(tracks, track_id) == (TimeRational {
            num: 0,
            den: 1,
        }),
{
    if let Some(t) = track_index(tracks, track_id) {
        crate::operations::lemma_track_index_from_range(tracks, track_id, 0);
        let clips = tracks[t].clips;
        assert forall|i: int| 0 <= i < clips.len() implies (#[trigger] clips[i]).times_fit() by {
            assert(tracks[t].clips[i] == clips[i]);
        }
        lemma_max_end_is_latest(clips);
    }
}

} // verus!
