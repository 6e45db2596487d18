//! Editing state of the timeline view: the edited project, its undo
//! history, the playhead and the selected clip, and the editing commands
//! that act on the selection or on the clip under the playhead.
use vstd::prelude::*;
use vstd::string::*;
use crate::history::{history_wf, spec_commit, spec_redo, spec_undo, HistoryModel, ProjectHistory};
use crate::operations::{
    best_candidate, find_clip_location, is_excluded, is_split_tail, locate_clip, ripple_fits,
    rippled_clips, snap_candidates, snap_fits, snap_margin, spec_move, spec_trim_end,
    spec_trim_start, split_fits, split_source_point, split_tail_id, starts_wf, strictly_inside,
    trim_end_fits, trim_start_fits, with_clips, with_track,
};
use crate::schema::{ClipDefinition, Project, ProjectModel, TrackDefinition, TrackModel};
use crate::time::TimeRational;

verus! {

/// Largest clip volume the timeline lets the user set, in thousandths.
pub const MAX_CLIP_VOLUME_MILLI: u32 = 2000;

/// What lies under the pointer on the timeline.
#[derive(Debug, Clone, PartialEq)]
pub enum HitTarget {
    /// Empty space.
    Empty,
    Ruler,
    ClipBody { track_index: usize, clip_id: String },
    ClipTrimLeft { track_index: usize, clip_id: String },
    ClipTrimRight { track_index: usize, clip_id: String },
}

/// The selection after pressing on `hit`: a clip (its body or a trim
/// handle) becomes selected, empty space clears the selection, and the
/// ruler leaves it as it was.
pub open spec fn selection_after_press(selected: Option<Seq<char>>, hit: HitTarget) -> Option<
    Seq<char>,
> {
    match hit {
        HitTarget::Empty => None,
        HitTarget::Ruler => selected,
        HitTarget::ClipBody { clip_id, .. } => Some(clip_id@),
        HitTarget::ClipTrimLeft { clip_id, .. } => Some(clip_id@),
        HitTarget::ClipTrimRight { clip_id, .. } => Some(clip_id@),
    }
}

/// The timeline's editing state.
#[derive(Debug)]
pub struct TimelineWidget {
    project: Project,
    history: ProjectHistory,
    playhead_time: TimeRational,
    selected_clip_id: Option<String>,
}

/// Model of the timeline's editing state.
pub struct TimelineModel {
    pub project: ProjectModel,
    pub history: HistoryModel,
    pub playhead: TimeRational,
    pub selected: Option<Seq<char>>,
}

/// The text of an optional string.
pub open spec fn opt_view(s: Option<String>) -> Option<Seq<char>> {
    match s {
        Some(x) => Some(x@),
        None => None,
    }
}

impl View for TimelineWidget {
    type V = TimelineModel;

    closed spec fn view(&self) -> TimelineModel {
        TimelineModel {
            project: self.project@,
            history: self.history@,
            playhead: self.playhead_time,
            selected: opt_view(self.selected_clip_id),
        }
    }
}

/// Every clip of the project has computable duration and end.
pub open spec fn model_clips_fit(p: ProjectModel) -> bool {
    forall|t: int, c: int|
        0 <= t < p.tracks.len() && 0 <= c < p.tracks[t].clips.len()
            ==> (#[trigger] p.tracks[t].clips[c]).times_fit()
}

/// Index of the first clip at or after `i` that strictly covers `time`.
pub open spec fn first_cover_from(clips: Seq<ClipDefinition>, time: TimeRational, i: int) -> Option<
    int,
>
    decreases clips.len() - i,
{
    if i < 0 || i >= clips.len() {
        None
    } else if strictly_inside(clips[i], time) {
        Some(i)
    } else {
        first_cover_from(clips, time, i + 1)
    }
}

/// Id of the first clip covering `time` in the last of the first `n`
/// tracks that has such a clip.
pub open spec fn last_track_cover(tracks: Seq<TrackModel>, time: TimeRational, n: int) -> Option<
    Seq<char>,
>
    decreases n,
{
    if n <= 0 {
        None
    } else {
        match first_cover_from(tracks[n - 1].clips, time, 0) {
            Some(c) => Some(tracks[n - 1].clips[c].id@),
            None => last_track_cover(tracks, time, n - 1),
        }
    }
}

/// Id of the clip a split at the playhead acts on: the selected clip when
/// the playhead lies strictly inside it, and without a selection, a clip
/// under the playhead.
pub open spec fn split_target(m: TimelineModel) -> Option<Seq<char>> {
    match m.selected {
        Some(id) => match locate_clip(m.project, id) {
            Some((t, c)) => if strictly_inside(m.project.tracks[t].clips[c], m.playhead) {
                Some(id)
            } else {
                None
            },
            None => None,
        },
        None => last_track_cover(m.project.tracks, m.playhead, m.project.tracks.len() as int),
    }
}

/// `after` is `before` with clip `c` of track `t` split at `time` into a
/// head and the tail `tail`, placed right after the head.
pub open spec fn split_applied(
    before: ProjectModel,
    after: ProjectModel,
    t: int,
    c: int,
    id: Seq<char>,
    time: TimeRational,
    tail: ClipDefinition,
) -> bool {
    let cl = before.tracks[t].clips[c];
    let head = ClipDefinition { out_point: split_source_point(cl, time), ..cl };
    &&& is_split_tail(tail, cl, id, time)
    &&& after == with_track(
        before,
        t,
        with_clips(before.tracks[t], before.tracks[t].clips.update(c, head).insert(c + 1, tail)),
    )
}

/// What splitting at the playhead does, from `old` to `new`, answering `r`:
/// without a target nothing changes; with one, the project is recorded in
/// the history as "Split Clip", and when the target is found and the
/// playhead lies inside it, it is split and the tail becomes the selection.
pub open spec fn split_at_playhead_post(old: TimelineModel, new: TimelineModel, r: bool) -> bool {
    match split_target(old) {
        None => !r && new == old,
        Some(id) => {
            &&& new.history == spec_commit(old.history, old.project, "Split Clip"@)
            &&& new.playhead == old.playhead
            &&& match locate_clip(old.project, id) {
                Some((t, c)) if strictly_inside(old.project.tracks[t].clips[c], old.playhead) => {
                    &&& r
                    &&& new.selected == Some(split_tail_id(id, old.playhead))
                    &&& exists|tail: ClipDefinition|
                        split_applied(old.project, new.project, t, c, id, old.playhead, tail)
                },
                _ => !r && new.project == old.project && new.selected == old.selected,
            }
        },
    }
}

/// Deleting the selected clip: the project is recorded as `description`,
/// then the clip is removed (its track's clips become `edited`) and the
/// selection cleared. Without a selection nothing changes.
pub open spec fn spec_delete_with(
    m: TimelineModel,
    description: Seq<char>,
    ripple: bool,
) -> (TimelineModel, bool) {
    match m.selected {
        None => (m, false),
        Some(id) => {
            let h = spec_commit(m.history, m.project, description);
            match locate_clip(m.project, id) {
                None => (TimelineModel { history: h, ..m }, false),
                Some((t, c)) => {
                    let clips = m.project.tracks[t].clips;
                    let edited = if ripple {
                        rippled_clips(clips, c)
                    } else {
                        clips.remove(c)
                    };
                    (
                        TimelineModel {
                            project: with_track(m.project, t, with_clips(m.project.tracks[t], edited)),
                            history: h,
                            playhead: m.playhead,
                            selected: None,
                        },
                        true,
                    )
                },
            }
        },
    }
}

/// Deleting the selected clip, leaving a gap.
pub open spec fn spec_delete_selected(m: TimelineModel) -> (TimelineModel, bool) {
    spec_delete_with(m, "Delete Clip"@, false)
}

/// Deleting the selected clip and closing the gap it leaves.
pub open spec fn spec_ripple_delete_selected(m: TimelineModel) -> (TimelineModel, bool) {
    spec_delete_with(m, "Ripple Delete Clip"@, true)
}

/// `p` with clip `c` of track `t` replaced by `clip`.
pub open spec fn with_clip(p: ProjectModel, t: int, c: int, clip: ClipDefinition) -> ProjectModel {
    with_track(p, t, with_clips(p.tracks[t], p.tracks[t].clips.update(c, clip)))
}

/// Toggling the mute flag of the selected clip; the project as it was
/// before the change is recorded in the history, so that undo restores it.
pub open spec fn spec_toggle_mute_selected(m: TimelineModel) -> (TimelineModel, Option<bool>) {
    match m.selected {
        None => (m, None),
        Some(id) => match locate_clip(m.project, id) {
            None => (m, None),
            Some((t, c)) => {
                let cl = m.project.tracks[t].clips[c];
                let p = with_clip(m.project, t, c, ClipDefinition { muted: !cl.muted, ..cl });
                let d = if !cl.muted {
                    "Mute Clip Audio"@
                } else {
                    "Unmute Clip Audio"@
                };
                (
                    TimelineModel { project: p, history: spec_commit(m.history, m.project, d), ..m },
                    Some(!cl.muted),
                )
            },
        },
    }
}

/// `v` limited to the largest volume a clip may have.
pub open spec fn clamp_volume(v: u32) -> u32 {
    if v > MAX_CLIP_VOLUME_MILLI {
        MAX_CLIP_VOLUME_MILLI
    } else {
        v
    }
}

/// Setting the volume of the selected clip (not recorded in the history).
pub open spec fn spec_set_selected_clip_volume(m: TimelineModel, volume_milli: u32) -> (
    TimelineModel,
    bool,
) {
    match m.selected {
        None => (m, false),
        Some(id) => match locate_clip(m.project, id) {
            None => (m, false),
            Some((t, c)) => {
                let cl = m.project.tracks[t].clips[c];
                (
                    TimelineModel {
                        project: with_clip(
                            m.project,
                            t,
                            c,
                            ClipDefinition { volume_milli: clamp_volume(volume_milli), ..cl },
                        ),
                        ..m
                    },
                    true,
                )
            },
        },
    }
}

/// Undo on the timeline: the history's undo, clearing the selection when
/// something was undone.
pub open spec fn spec_timeline_undo(m: TimelineModel) -> (TimelineModel, bool) {
    let (h, p, done) = spec_undo(m.history, m.project);
    (
        TimelineModel {
            project: p,
            history: h,
            playhead: m.playhead,
            selected: if done {
                None
            } else {
                m.selected
            },
        },
        done,
    )
}

/// Redo on the timeline: the history's redo, clearing the selection when
/// something was redone.
pub open spec fn spec_timeline_redo(m: TimelineModel) -> (TimelineModel, bool) {
    let (h, p, done) = spec_redo(m.history, m.project);
    (
        TimelineModel {
            project: p,
            history: h,
            playhead: m.playhead,
            selected: if done {
                None
            } else {
                m.selected
            },
        },
        done,
    )
}

/// The instant `target` snaps to on project `p`, not snapping to clips with
/// id `ex` (see `snap_time`).
pub open spec fn snapped_time(
    p: ProjectModel,
    target: TimeRational,
    threshold: TimeRational,
    ex: Option<Seq<char>>,
) -> TimeRational {
    let cands = snap_candidates(p, target, ex);
    match best_candidate(cands, threshold) {
        Some(k) => cands[k].0,
        None => target,
    }
}

/// Snapping `target` on project `p` (skipping clips with id `ex`) can be
/// computed.
pub open spec fn snap_ready(
    p: ProjectModel,
    target: TimeRational,
    threshold: TimeRational,
    ex: Option<Seq<char>>,
) -> bool {
    &&& model_clips_fit(p)
    &&& target.wf()
    &&& target.num != i64::MIN
    &&& threshold.add_fits(snap_margin())
    &&& forall|t: int, c: int|
        0 <= t < p.tracks.len() && 0 <= c < p.tracks[t].clips.len() && !is_excluded(
            #[trigger] p.tracks[t].clips[c],
            ex,
        ) ==> snap_fits(p.tracks[t].clips[c], target)
}

/// Where a clip dragged from `initial_start` by `delta` is aimed:
/// `initial_start + delta`, or zero when that is not positive.
pub open spec fn drag_target(initial_start: TimeRational, delta: TimeRational) -> TimeRational {
    let s = initial_start.spec_sum(delta);
    if (TimeRational { num: 0, den: 1 }).value_lt(s) {
        s
    } else {
        TimeRational { num: 0, den: 1 }
    }
}

/// The text of an optional string slice.
pub open spec fn opt_str_view(s: Option<&str>) -> Option<Seq<char>> {
    match s {
        Some(x) => Some(x@),
        None => None,
    }
}

proof fn lemma_snap_ready(
    p: &Project,
    target: TimeRational,
    threshold: TimeRational,
    ex: Option<&str>,
)
    requires
        snap_ready(p@, target, threshold, opt_str_view(ex)),
    ensures
        p.clips_fit(),
        forall|t: int| 0 <= t < p.tracks@.len() ==> starts_wf(#[trigger] p.tracks@[t].clips@),
        forall|t: int, c: int|
            0 <= t < p.tracks@.len() && 0 <= c < p.tracks@[t].clips@.len() && !is_excluded(
                #[trigger] p.tracks@[t].clips@[c],
                match ex {
                    Some(x) => Some(x@),
                    None => None,
                },
            ) ==> snap_fits(p.tracks@[t].clips@[c], target),
{
    lemma_model_clips_fit(p);
    assert forall|t: int, c: int|
        0 <= t < p.tracks@.len() && 0 <= c < p.tracks@[t].clips@.len() && !is_excluded(
            #[trigger] p.tracks@[t].clips@[c],
            match ex {
                Some(x) => Some(x@),
                None => None,
            },
        ) implies snap_fits(p.tracks@[t].clips@[c], target) by {
        assert(p@.tracks[t].clips[c] == p.tracks@[t].clips@[c]);
    }
    assert forall|t: int| 0 <= t < p.tracks@.len() implies starts_wf(#[trigger] p.tracks@[t].clips@) by {
        assert forall|c: int| 0 <= c < p.tracks@[t].clips@.len() implies (
        #[trigger] p.tracks@[t].clips@[c]).timeline_start.wf() by {
            assert(p@.tracks[t].clips[c] == p.tracks@[t].clips@[c]);
            assert(p.tracks@[t].clips@[c].times_fit());
        }
    }
}

proof fn lemma_model_clips_fit(p: &Project)
    requires
        model_clips_fit(p@),
    ensures
        p.clips_fit(),
{
    assert forall|t: int, c: int|
        0 <= t < p.tracks@.len() && 0 <= c < p.tracks@[t].clips@.len() implies (
        #[trigger] p.tracks@[t].clips@[c]).times_fit() by {
        assert(p@.tracks[t].clips == p.tracks@[t].clips@);
        assert(p@.tracks[t].clips[c] == p.tracks@[t].clips@[c]);
    }
}

/// Position of the first clip of `clips` that strictly covers `time`.
fn find_cover(clips: &Vec<ClipDefinition>, time: TimeRational) -> (r: Option<usize>)
    requires
        forall|c: int| 0 <= c < clips@.len() ==> (#[trigger] clips@[c]).times_fit(),
    ensures
        r matches Some(i) ==> first_cover_from(clips@, time, 0) == Some(i as int) && i
            < clips@.len(),
        r is None ==> first_cover_from(clips@, time, 0) is None,
{
    let mut i: usize = 0;
    while i < clips.len()
        invariant
            i <= clips@.len(),
            forall|c: int| 0 <= c < clips@.len() ==> (#[trigger] clips@[c]).times_fit(),
            first_cover_from(clips@, time, 0) == first_cover_from(clips@, time, i as int),
        decreases clips@.len() - i,
    {
        let clip = &clips[i];
        if clip.timeline_start.less_than(&time) && time.less_than(&clip.timeline_end()) {
            return Some(i);
        }
        i = i + 1;
    }
    None
}

/// Id of the first clip under `time` in the last track that has one.
fn last_cover_id(tracks: &Vec<TrackDefinition>, time: TimeRational) -> (r: Option<String>)
    requires
        forall|t: int, c: int|
            0 <= t < tracks@.len() && 0 <= c < tracks@[t].clips@.len()
                ==> (#[trigger] tracks@[t].clips@[c]).times_fit(),
    ensures
        opt_view(r) == last_track_cover(
            tracks@.map_values(|t: TrackDefinition| t@),
            time,
            tracks@.len() as int,
        ),
{
    let ghost models = tracks@.map_values(|t: TrackDefinition| t@);
    let mut found: Option<String> = None;
    let mut t: usize = 0;
    while t < tracks.len()
        invariant
            t <= tracks@.len(),
            models == tracks@.map_values(|t: TrackDefinition| t@),
            forall|a: int, c: int|
                0 <= a < tracks@.len() && 0 <= c < tracks@[a].clips@.len()
                    ==> (#[trigger] tracks@[a].clips@[c]).times_fit(),
            opt_view(found) == last_track_cover(models, time, t as int),
        decreases tracks@.len() - t,
    {
        let clips = &tracks[t].clips;
        assert(models[t as int].clips == clips@);
        assert forall|c: int| 0 <= c < clips@.len() implies (#[trigger] clips@[c]).times_fit() by {
            assert(clips@[c] == tracks@[t as int].clips@[c]);
        }
        match find_cover(clips, time) {
            Some(c) => {
                found = Some(clips[c].id.clone());
            },
            None => {},
        }
        t = t + 1;
    }
    found
}

impl TimelineWidget {
    /// Everything the editing commands need: a well-formed history.
    pub open spec fn wf(&self) -> bool {
        history_wf(self@.history)
    }

    /// A timeline on an empty default project, with an empty history of
    /// the default size, the playhead at zero and nothing selected.
    pub fn new() -> (r: TimelineWidget)
        ensures
            r.wf(),
            r@.project.tracks.len() == 2,
            r@.project.tracks[0].clips.len() == 0,
            r@.project.tracks[1].clips.len() == 0,
            r@.history.undo.len() == 0,
            r@.history.redo.len() == 0,
            r@.history.max_history == 50,
            r@.playhead == (TimeRational { num: 0, den: 1 }),
            r@.selected is None,
    {
        TimelineWidget {
            project: Project::default(),
            history: ProjectHistory::default(),
            playhead_time: TimeRational::zero(),
            selected_clip_id: None,
        }
    }

    /// A timeline on a copy of `project`.
    pub fn with_project(project: &Project) -> (r: TimelineWidget)
        ensures
            r.wf(),
            r@.project == project@,
            r@.history.undo.len() == 0,
            r@.history.redo.len() == 0,
            r@.history.max_history == 50,
            r@.playhead == (TimeRational { num: 0, den: 1 }),
            r@.selected is None,
    {
        TimelineWidget {
            project: project.clone(),
            history: ProjectHistory::default(),
            playhead_time: TimeRational::zero(),
            selected_clip_id: None,
        }
    }

    /// Work on copies of `project` and `history`.
    pub fn bind_project(&mut self, project: &Project, history: &ProjectHistory)
        ensures
            final(self)@ == (TimelineModel {
                project: project@,
                history: history@,
                ..old(self)@
            }),
    {
        self.project = project.clone();
        self.history = history.clone();
    }

    /// Replace the edited project by a copy of `project`.
    pub fn sync_from_project(&mut self, project: &Project)
        ensures
            final(self)@ == (TimelineModel { project: project@, ..old(self)@ }),
    {
        self.project = project.clone();
    }

    /// The edited project.
    pub fn project(&self) -> (r: &Project)
        ensures
            r@ == self@.project,
    {
        &self.project
    }

    /// The undo history.
    pub fn history(&self) -> (r: &ProjectHistory)
        ensures
            r@ == self@.history,
    {
        &self.history
    }

    pub fn set_playhead_time(&mut self, time: TimeRational)
        ensures
            final(self)@ == (TimelineModel { playhead: time, ..old(self)@ }),
    {
        self.playhead_time = time;
    }

    pub fn playhead_time(&self) -> (r: TimeRational)
        ensures
            r == self@.playhead,
    {
        self.playhead_time
    }

    pub fn selected_clip_id(&self) -> (r: Option<String>)
        ensures
            opt_view(r) == self@.selected,
    {
        match &self.selected_clip_id {
            Some(s) => Some(s.clone()),
            None => None,
        }
    }

    /// Select the clip with id `clip_id`, or nothing.
    pub fn select_clip(&mut self, clip_id: Option<String>)
        ensures
            final(self)@ == (TimelineModel { selected: opt_view(clip_id), ..old(self)@ }),
    {
        self.selected_clip_id = clip_id;
    }

    /// Update the selection for a press on `hit` (see `selection_after_press`).
    pub fn press_on(&mut self, hit: &HitTarget)
        ensures
            final(self)@ == (TimelineModel {
                selected: selection_after_press(old(self)@.selected, *hit),
                ..old(self)@
            }),
    {
        match hit {
            HitTarget::Empty => {
                self.selected_clip_id = None;
            },
            HitTarget::Ruler => {},
            HitTarget::ClipBody { clip_id, .. } => {
                self.selected_clip_id = Some(clip_id.clone());
            },
            HitTarget::ClipTrimLeft { clip_id, .. } => {
                self.selected_clip_id = Some(clip_id.clone());
            },
            HitTarget::ClipTrimRight { clip_id, .. } => {
                self.selected_clip_id = Some(clip_id.clone());
            },
        }
    }

    /// Move the playhead to `target`, snapped to the nearest clip edge or
    /// the origin within `threshold` (a press or a scrub on the ruler).
    pub fn seek_snapped(&mut self, target: TimeRational, threshold: TimeRational)
        requires
            snap_ready(old(self)@.project, target, threshold, None),
        ensures
            final(self)@ == (TimelineModel {
                playhead: snapped_time(old(self)@.project, target, threshold, None),
                ..old(self)@
            }),
    {
        proof {
            lemma_snap_ready(&self.project, target, threshold, None);
        }
        let t = self.project.snap_time(target, threshold, None);
        self.playhead_time = t;
    }

    /// Drag the clip `clip_id`, which started at `initial_start` when the
    /// drag began, by `delta`: it is aimed at `drag_target`, snapped to the
    /// edges of the other clips, and moved there within its track when that
    /// is not where it now starts. Nothing is recorded in the history.
    /// Returns whether the clip moved.
    pub fn drag_clip(
        &mut self,
        clip_id: &str,
        initial_start: TimeRational,
        delta: TimeRational,
        threshold: TimeRational,
    ) -> (r: bool)
        requires
            initial_start.add_fits(delta),
            snap_ready(
                old(self)@.project,
                drag_target(initial_start, delta),
                threshold,
                Some(clip_id@),
            ),
        ensures
            ({
                let snapped = snapped_time(
                    old(self)@.project,
                    drag_target(initial_start, delta),
                    threshold,
                    Some(clip_id@),
                );
                match locate_clip(old(self)@.project, clip_id@) {
                    None => !r && final(self)@ == old(self)@,
                    Some((t, c)) => if old(self)@.project.tracks[t].clips[c].timeline_start.same_value(
                        snapped,
                    ) {
                        !r && final(self)@ == old(self)@
                    } else {
                        &&& r
                        &&& final(self)@ == (TimelineModel {
                            project: spec_move(
                                old(self)@.project,
                                clip_id@,
                                old(self)@.project.tracks[t].id,
                                snapped,
                            ).0,
                            ..old(self)@
                        })
                    },
                }
            }),
    {
        let target = initial_start.plus(delta).later_of(TimeRational::zero());
        proof {
            lemma_snap_ready(&self.project, target, threshold, Some(clip_id));
        }
        let snapped = self.project.snap_time(target, threshold, Some(clip_id));
        let track_id = match self.project.find_clip(clip_id) {
            None => {
                return false;
            },
            Some((track, clip)) => {
                if clip.timeline_start.same_instant(&snapped) {
                    return false;
                }
                track.id.clone()
            },
        };
        let _ = self.project.move_clip(clip_id, track_id.as_str(), snapped);
        true
    }

    /// Drag the start of the clip `clip_id` towards `target`, snapped to the
    /// edges of the other clips (see `trim_clip_start`). Nothing is recorded
    /// in the history. Returns whether the clip was trimmed.
    pub fn drag_trim_start(&mut self, clip_id: &str, target: TimeRational, threshold: TimeRational) -> (r:
        bool)
        requires
            snap_ready(old(self)@.project, target, threshold, Some(clip_id@)),
            locate_clip(old(self)@.project, clip_id@) matches Some((t, c)) ==> trim_start_fits(
                old(self)@.project.tracks[t].clips[c],
                snapped_time(old(self)@.project, target, threshold, Some(clip_id@)),
            ),
        ensures
            ({
                let (p, ok) = spec_trim_start(
                    old(self)@.project,
                    clip_id@,
                    snapped_time(old(self)@.project, target, threshold, Some(clip_id@)),
                );
                r == ok && final(self)@ == (TimelineModel { project: p, ..old(self)@ })
            }),
    {
        proof {
            lemma_snap_ready(&self.project, target, threshold, Some(clip_id));
        }
        let snapped = self.project.snap_time(target, threshold, Some(clip_id));
        self.project.trim_clip_start(clip_id, snapped).is_ok()
    }

    /// Drag the end of the clip `clip_id` towards `target`, snapped to the
    /// edges of the other clips (see `trim_clip_end`). Nothing is recorded
    /// in the history. Returns whether the clip was trimmed.
    pub fn drag_trim_end(&mut self, clip_id: &str, target: TimeRational, threshold: TimeRational) -> (r:
        bool)
        requires
            snap_ready(old(self)@.project, target, threshold, Some(clip_id@)),
            locate_clip(old(self)@.project, clip_id@) matches Some((t, c)) ==> trim_end_fits(
                old(self)@.project.tracks[t].clips[c],
                snapped_time(old(self)@.project, target, threshold, Some(clip_id@)),
            ),
        ensures
            ({
                let (p, ok) = spec_trim_end(
                    old(self)@.project,
                    clip_id@,
                    snapped_time(old(self)@.project, target, threshold, Some(clip_id@)),
                );
                r == ok && final(self)@ == (TimelineModel { project: p, ..old(self)@ })
            }),
    {
        proof {
            lemma_snap_ready(&self.project, target, threshold, Some(clip_id));
        }
        let snapped = self.project.snap_time(target, threshold, Some(clip_id));
        self.project.trim_clip_end(clip_id, snapped).is_ok()
    }

    /// Id of the clip a split at the playhead would act on.
    fn split_candidate(&self) -> (r: Option<String>)
        requires
            model_clips_fit(self@.project),
        ensures
            opt_view(r) == split_target(self@),
    {
        proof {
            lemma_model_clips_fit(&self.project);
        }
        match &self.selected_clip_id {
            Some(sel) => match self.project.find_clip(sel.as_str()) {
                Some((_, c)) => {
                    proof {
                        crate::operations::lemma_locate_clip_in_bounds(self@.project, sel@);
                        let (t, ci) = locate_clip(self@.project, sel@).unwrap();
                        assert(self.project.tracks@[t].clips@[ci] == self@.project.tracks[t].clips[ci]);
                    }
                    if c.timeline_start.less_than(&self.playhead_time)
                        && self.playhead_time.less_than(&c.timeline_end()) {
                        Some(sel.clone())
                    } else {
                        None
                    }
                },
                None => None,
            },
            None => last_cover_id(&self.project.tracks, self.playhead_time),
        }
    }

    /// Split the target clip (see `split_target`) at the playhead, after
    /// recording the project in the history; the tail becomes the
    /// selection. Returns whether a clip was split.
    pub fn split_at_playhead(&mut self) -> (r: bool)
        requires
            old(self).wf(),
            model_clips_fit(old(self)@.project),
            split_target(old(self)@) matches Some(id) ==> (locate_clip(old(self)@.project, id) matches Some(
                (t, c),
            ) ==> split_fits(old(self)@.project.tracks[t].clips[c], old(self)@.playhead)),
        ensures
            final(self).wf(),
            split_at_playhead_post(old(self)@, final(self)@, r),
    {
        match self.split_candidate() {
            None => false,
            Some(clip_id) => {
                self.history.commit(&self.project, "Split Clip");
                proof {
                    reveal_strlit("Split Clip");
                }
                let ghost before = self.project@;
                let ph = self.playhead_time;
                match self.project.split_clip(clip_id.as_str(), ph) {
                    Ok((_head, tail)) => {
                        proof {
                            let (t, c) = locate_clip(before, clip_id@).unwrap();
                            assert(split_applied(before, self.project@, t, c, clip_id@, ph, tail));
                        }
                        self.selected_clip_id = Some(tail.id);
                        true
                    },
                    Err(_) => false,
                }
            },
        }
    }

    /// Delete the selected clip, after recording the project in the
    /// history as "Delete Clip"; clears the selection. Returns whether a
    /// clip was deleted.
    pub fn delete_selected(&mut self) -> (r: bool)
        requires
            old(self).wf(),
        ensures
            final(self).wf(),
            (final(self)@, r) == spec_delete_selected(old(self)@),
    {
        match &self.selected_clip_id {
            None => false,
            Some(sel) => {
                let clip_id = sel.clone();
                self.history.commit(&self.project, "Delete Clip");
                proof {
                    reveal_strlit("Delete Clip");
                }
                match self.project.remove_clip(clip_id.as_str()) {
                    Ok(_) => {
                        self.selected_clip_id = None;
                        true
                    },
                    Err(_) => false,
                }
            },
        }
    }

    /// Delete the selected clip and close the gap it leaves, after
    /// recording the project in the history as "Ripple Delete Clip";
    /// clears the selection. Returns whether a clip was deleted.
    pub fn ripple_delete_selected(&mut self) -> (r: bool)
        requires
            old(self).wf(),
            old(self)@.selected matches Some(id) ==> (locate_clip(old(self)@.project, id) matches Some(
                (t, c),
            ) ==> ripple_fits(old(self)@.project.tracks[t].clips, c)),
        ensures
            final(self).wf(),
            (final(self)@, r) == spec_ripple_delete_selected(old(self)@),
    {
        match &self.selected_clip_id {
            None => false,
            Some(sel) => {
                let clip_id = sel.clone();
                self.history.commit(&self.project, "Ripple Delete Clip");
                proof {
                    reveal_strlit("Ripple Delete Clip");
                }
                match self.project.ripple_delete_clip(clip_id.as_str()) {
                    Ok(_) => {
                        self.selected_clip_id = None;
                        true
                    },
                    Err(_) => false,
                }
            },
        }
    }

    /// Flip the mute flag of the selected clip and record the result in
    /// the history. Returns the new flag, or `None` when no clip is
    /// selected or the selection is not in the project.
    pub fn toggle_mute_selected(&mut self) -> (r: Option<bool>)
        requires
            old(self).wf(),
        ensures
            final(self).wf(),
            (final(self)@, r) == spec_toggle_mute_selected(old(self)@),
    {
        let clip_id = match &self.selected_clip_id {
            None => {
                return None;
            },
            Some(sel) => sel.clone(),
        };
        match find_clip_location(&self.project.tracks, clip_id.as_str()) {
            None => None,
            Some((t, c)) => {
                let ghost before = self.project.tracks@;
                proof {
                    crate::operations::lemma_locate_clip_in_bounds(self@.project, clip_id@);
                }
                let muted = !self.project.tracks[t].clips[c].muted;
                proof {
                    reveal_strlit("Mute Clip Audio");
                    reveal_strlit("Unmute Clip Audio");
                }
                if muted {
                    self.history.commit(&self.project, "Mute Clip Audio");
                } else {
                    self.history.commit(&self.project, "Unmute Clip Audio");
                }
                let track = &mut self.project.tracks[t];
                track.clips[c].muted = muted;
                proof {
                    assert(self.project.tracks@.map_values(|x: TrackDefinition| x@) =~= before.map_values(
                        |x: TrackDefinition| x@,
                    ).update(t as int, self.project.tracks@[t as int]@));
                }
                Some(muted)
            },
        }
    }

    /// Set the volume of the selected clip, limited to
    /// `MAX_CLIP_VOLUME_MILLI`. Returns whether a clip was changed.
    pub fn set_selected_clip_volume(&mut self, volume_milli: u32) -> (r: bool)
        ensures
            (final(self)@, r) == spec_set_selected_clip_volume(old(self)@, volume_milli),
    {
        let clip_id = match &self.selected_clip_id {
            None => {
                return false;
            },
            Some(sel) => sel.clone(),
        };
        match find_clip_location(&self.project.tracks, clip_id.as_str()) {
            None => false,
            Some((t, c)) => {
                let ghost before = self.project.tracks@;
                proof {
                    crate::operations::lemma_locate_clip_in_bounds(self@.project, clip_id@);
                }
                let v = if volume_milli > MAX_CLIP_VOLUME_MILLI {
                    MAX_CLIP_VOLUME_MILLI
                } else {
                    volume_milli
                };
                let track = &mut self.project.tracks[t];
                track.clips[c].volume_milli = v;
                proof {
                    assert(self.project.tracks@.map_values(|x: TrackDefinition| x@) =~= before.map_values(
                        |x: TrackDefinition| x@,
                    ).update(t as int, self.project.tracks@[t as int]@));
                }
                true
            },
        }
    }

    /// Undo the latest recorded step; clears the selection when something
    /// was undone.
    pub fn undo(&mut self) -> (r: bool)
        requires
            old(self).wf(),
        ensures
            final(self).wf(),
            (final(self)@, r) == spec_timeline_undo(old(self)@),
    {
        if self.history.undo(&mut self.project) {
            self.selected_clip_id = None;
            true
        } else {
            false
        }
    }

    /// Redo the latest undone step; clears the selection when something
    /// was redone.
    pub fn redo(&mut self) -> (r: bool)
        requires
            old(self).wf(),
        ensures
            final(self).wf(),
            (final(self)@, r) == spec_timeline_redo(old(self)@),
    {
        if self.history.redo(&mut self.project) {
            self.selected_clip_id = None;
            true
        } else {
            false
        }
    }
}

/// Undo right after a successful delete or ripple delete of the selected
/// clip gives back the project as it was before the delete, and redo then
/// repeats the delete.
pub proof fn lemma_undo_reverts_delete(m: TimelineModel)
    ensures
        spec_delete_selected(m).1 ==> {
            let m1 = spec_delete_selected(m).0;
            let (m2, undone) = spec_timeline_undo(m1);
            &&& undone
            &&& m2.project == m.project
            &&& spec_timeline_redo(m2).0.project == m1.project
        },
        spec_ripple_delete_selected(m).1 ==> {
            let m1 = spec_ripple_delete_selected(m).0;
            let (m2, undone) = spec_timeline_undo(m1);
            &&& undone
            &&& m2.project == m.project
            &&& spec_timeline_redo(m2).0.project == m1.project
        },
{
}

/// Undo right after toggling the mute flag of the selected clip gives back
/// the project with the old flag, and redo then toggles it again.
pub proof fn lemma_undo_reverts_mute(m: TimelineModel)
    ensures
        spec_toggle_mute_selected(m).1 is Some ==> {
            let m1 = spec_toggle_mute_selected(m).0;
            let (m2, undone) = spec_timeline_undo(m1);
            &&& undone
            &&& m2.project == m.project
            &&& spec_timeline_redo(m2).0.project == m1.project
        },
{
}

/// Undo right after a successful split at the playhead gives back the
/// project as it was before the split, and redo then repeats the split.
pub proof fn lemma_undo_reverts_split(m: TimelineModel, m1: TimelineModel)
    requires
        split_at_playhead_post(m, m1, true),
    ensures
        ({
            let (m2, undone) = spec_timeline_undo(m1);
            &&& undone
            &&& m2.project == m.project
            &&& spec_timeline_redo(m2).0.project == m1.project
        }),
{
}

impl Default for TimelineWidget {
    fn default() -> (r: TimelineWidget)
        ensures
            r.wf(),
            r@.project.tracks.len() == 2,
            r@.history.undo.len() == 0,
            r@.history.redo.len() == 0,
            r@.playhead == (TimeRational { num: 0, den: 1 }),
            r@.selected is None,
    {
        TimelineWidget::new()
    }
}

} // verus!
