//! Non-destructive timeline editing: adding, finding, removing, splitting,
//! trimming, moving and ripple-deleting clips, plus timeline queries.
use vstd::prelude::*;
use vstd::string::*;
use crate::error::ProjectError;
use crate::schema::{ClipDefinition, Project, ProjectModel, TrackDefinition, TrackModel};
use crate::text::str_eq;
use crate::time::{lemma_denotes_same_value, lemma_difference_denotes, lemma_sum_denotes, lemma_sum_value, TimeRational};

verus! {

// ---------------------------------------------------------------------------
// Lookup by id
// ---------------------------------------------------------------------------
/// Index of the first clip at or after `i` whose id is `id`.
pub open spec fn clip_index_from(clips: Seq<ClipDefinition>, id: Seq<char>, i: int) -> Option<int>
    decreases clips.len() - i,
{
    if i < 0 || i >= clips.len() {
        None
    } else if clips[i].id@ == id {
        Some(i)
    } else {
        clip_index_from(clips, id, i + 1)
    }
}

/// Index of the first clip whose id is `id`.
pub open spec fn clip_index(clips: Seq<ClipDefinition>, id: Seq<char>) -> Option<int> {
    clip_index_from(clips, id, 0)
}

/// (track, clip) position of the first clip with id `id`, searching the
/// tracks in order from track `t`.
pub open spec fn locate_from(tracks: Seq<TrackModel>, id: Seq<char>, t: int) -> Option<(int, int)>
    decreases tracks.len() - t,
{
    if t < 0 || t >= tracks.len() {
        None
    } else {
        match clip_index(tracks[t].clips, id) {
            Some(i) => Some((t, i)),
            None => locate_from(tracks, id, t + 1),
        }
    }
}

/// (track, clip) position of the first clip with id `id` in the project.
pub open spec fn locate_clip(p: ProjectModel, id: Seq<char>) -> Option<(int, int)> {
    locate_from(p.tracks, id, 0)
}

/// Index of the first track at or after `i` whose id is `id`.
pub open spec fn track_index_from(tracks: Seq<TrackModel>, id: Seq<char>, i: int) -> Option<int>
    decreases tracks.len() - i,
{
    if i < 0 || i >= tracks.len() {
        None
    } else if tracks[i].id == id {
        Some(i)
    } else {
        track_index_from(tracks, id, i + 1)
    }
}

pub open spec fn track_index(tracks: Seq<TrackModel>, id: Seq<char>) -> Option<int> {
    track_index_from(tracks, id, 0)
}

proof fn lemma_clip_index_from_range(clips: Seq<ClipDefinition>, id: Seq<char>, i: int)
    ensures
        clip_index_from(clips, id, i) matches Some(k) ==> i <= k < clips.len() && clips[k].id@
            == id,
    decreases clips.len() - i,
{
    if !(i < 0 || i >= clips.len()) && clips[i].id@ != id {
        lemma_clip_index_from_range(clips, id, i + 1);
    }
}

proof fn lemma_locate_from_range(tracks: Seq<TrackModel>, id: Seq<char>, t: int)
    ensures
        locate_from(tracks, id, t) matches Some((a, b)) ==> t <= a < tracks.len() && 0 <= b
            < tracks[a].clips.len() && tracks[a].clips[b].id@ == id,
    decreases tracks.len() - t,
{
    if !(t < 0 || t >= tracks.len()) {
        lemma_clip_index_from_range(tracks[t].clips, id, 0);
        if clip_index(tracks[t].clips, id) is None {
            lemma_locate_from_range(tracks, id, t + 1);
        }
    }
}

/// A located clip lies inside the project and has the requested id.
pub proof fn lemma_locate_clip_in_bounds(p: ProjectModel, id: Seq<char>)
    ensures
        locate_clip(p, id) matches Some((t, c)) ==> 0 <= t < p.tracks.len() && 0 <= c
            < p.tracks[t].clips.len() && p.tracks[t].clips[c].id@ == id,
{
    lemma_locate_from_range(p.tracks, id, 0);
}

pub(crate) proof fn lemma_track_index_from_range(tracks: Seq<TrackModel>, id: Seq<char>, i: int)
    ensures
        track_index_from(tracks, id, i) matches Some(k) ==> i <= k < tracks.len() && tracks[k].id
            == id,
    decreases tracks.len() - i,
{
    if !(i < 0 || i >= tracks.len()) && tracks[i].id != id {
        lemma_track_index_from_range(tracks, id, i + 1);
    }
}

/// Position of the first clip in `clips` with id `id`.
fn find_clip_position(clips: &Vec<ClipDefinition>, id: &str) -> (r: Option<usize>)
    ensures
        r matches Some(i) ==> clip_index(clips@, id@) == Some(i as int),
        r is None ==> clip_index(clips@, id@) is None,
{
    let mut i: usize = 0;
    while i < clips.len()
        invariant
            i <= clips@.len(),
            clip_index(clips@, id@) == clip_index_from(clips@, id@, i as int),
        decreases clips@.len() - i,
    {
        if str_eq(clips[i].id.as_str(), id) {
            return Some(i);
        }
        i = i + 1;
    }
    None
}

/// Position of the first track in `tracks` with id `id`.
fn find_track_position(tracks: &Vec<TrackDefinition>, id: &str) -> (r: Option<usize>)
    ensures
        r matches Some(i) ==> track_index(tracks@.map_values(|t: TrackDefinition| t@), id@)
            == Some(i as int),
        r is None ==> track_index(tracks@.map_values(|t: TrackDefinition| t@), id@) is None,
{
    let ghost models = tracks@.map_values(|t: TrackDefinition| t@);
    let mut i: usize = 0;
    while i < tracks.len()
        invariant
            i <= tracks@.len(),
            models == tracks@.map_values(|t: TrackDefinition| t@),
            track_index(models, id@) == track_index_from(models, id@, i as int),
        decreases tracks@.len() - i,
    {
        if str_eq(tracks[i].id.as_str(), id) {
            return Some(i);
        }
        i = i + 1;
    }
    None
}

/// Position (track, clip) of the first clip with id `id` in the project.
pub(crate) fn find_clip_location(tracks: &Vec<TrackDefinition>, id: &str) -> (r: Option<(usize, usize)>)
    ensures
        r matches Some((t, c)) ==> locate_from(tracks@.map_values(|t: TrackDefinition| t@), id@, 0)
            == Some((t as int, c as int)),
        r is None ==> locate_from(tracks@.map_values(|t: TrackDefinition| t@), id@, 0) is None,
{
    let ghost models = tracks@.map_values(|t: TrackDefinition| t@);
    let mut t: usize = 0;
    while t < tracks.len()
        invariant
            t <= tracks@.len(),
            models == tracks@.map_values(|t: TrackDefinition| t@),
            locate_from(models, id@, 0) == locate_from(models, id@, t as int),
        decreases tracks@.len() - t,
    {
        match find_clip_position(&tracks[t].clips, id) {
            Some(c) => {
                return Some((t, c));
            },
            None => {},
        }
        t = t + 1;
    }
    None
}

// ---------------------------------------------------------------------------
// Ordering clips by timeline position
// ---------------------------------------------------------------------------
/// `a` starts no later than `b`.
pub open spec fn starts_no_later(a: ClipDefinition, b: ClipDefinition) -> bool {
    a.timeline_start.value_le(b.timeline_start)
}

/// Insert `x` into `s` after every trailing element that starts no later
/// than `x` (the insertion step of a stable sort).
pub open spec fn insert_by_start(s: Seq<ClipDefinition>, x: ClipDefinition) -> Seq<ClipDefinition>
    decreases s.len(),
{
    if s.len() == 0 {
        seq![x]
    } else if starts_no_later(s.last(), x) {
        s.push(x)
    } else {
        insert_by_start(s.drop_last(), x).push(s.last())
    }
}

/// Stable sort of clips by timeline start: clips that start at the same
/// instant keep their relative order.
pub open spec fn sort_by_start(s: Seq<ClipDefinition>) -> Seq<ClipDefinition>
    decreases s.len(),
{
    if s.len() == 0 {
        s
    } else {
        insert_by_start(sort_by_start(s.drop_last()), s.last())
    }
}

/// Every clip's start has a positive denominator.
pub open spec fn starts_wf(s: Seq<ClipDefinition>) -> bool {
    forall|i: int| 0 <= i < s.len() ==> (#[trigger] s[i]).timeline_start.wf()
}

proof fn lemma_insert_at_scan_point(s: Seq<ClipDefinition>, x: ClipDefinition, p: int)
    requires
        0 <= p <= s.len(),
        forall|j: int| p <= j < s.len() ==> !starts_no_later(#[trigger] s[j], x),
        p == 0 || starts_no_later(s[p - 1], x),
    ensures
        insert_by_start(s, x) == s.insert(p, x),
    decreases s.len(),
{
    if s.len() == 0 {
        assert(s.insert(p, x) =~= seq![x]);
    } else if starts_no_later(s.last(), x) {
        assert(p == s.len());
        assert(s.insert(p, x) =~= s.push(x));
    } else {
        let d = s.drop_last();
        assert(p < s.len());
        lemma_insert_at_scan_point(d, x, p);
        assert(s.insert(p, x) =~= d.insert(p, x).push(s.last()));
    }
}

/// Clips ordered by start: each clip starts no later than every clip after it.
pub open spec fn sorted_by_start(s: Seq<ClipDefinition>) -> bool {
    forall|i: int, j: int| 0 <= i < j < s.len() ==> starts_no_later(#[trigger] s[i], #[trigger] s[j])
}

proof fn lemma_insert_by_start_bounded(t: Seq<ClipDefinition>, x: ClipDefinition, y: TimeRational)
    requires
        forall|i: int| 0 <= i < t.len() ==> (#[trigger] t[i]).timeline_start.value_le(y),
        x.timeline_start.value_le(y),
    ensures
        insert_by_start(t, x).len() == t.len() + 1,
        forall|k: int|
            0 <= k < insert_by_start(t, x).len() ==> (#[trigger] insert_by_start(
                t,
                x,
            )[k]).timeline_start.value_le(y),
    decreases t.len(),
{
    if t.len() > 0 && !starts_no_later(t.last(), x) {
        let d = t.drop_last();
        lemma_insert_by_start_bounded(d, x, y);
        assert(forall|k: int| 0 <= k < d.len() ==> d[k] == t[k]);
    }
}

proof fn lemma_insert_by_start(t: Seq<ClipDefinition>, x: ClipDefinition)
    requires
        sorted_by_start(t),
        starts_wf(t),
        x.timeline_start.wf(),
    ensures
        sorted_by_start(insert_by_start(t, x)),
        starts_wf(insert_by_start(t, x)),
        insert_by_start(t, x).to_multiset() == t.to_multiset().insert(x),
    decreases t.len(),
{
    broadcast use vstd::seq_lib::group_to_multiset_ensures;
    broadcast use vstd::multiset::group_multiset_axioms;

    if t.len() == 0 {
        assert(seq![x] =~= Seq::<ClipDefinition>::empty().push(x));
        assert(Seq::<ClipDefinition>::empty().to_multiset() =~= t.to_multiset());
    } else if starts_no_later(t.last(), x) {
        let r = t.push(x);
        assert forall|i: int, j: int| 0 <= i < j < r.len() implies starts_no_later(
            #[trigger] r[i],
            #[trigger] r[j],
        ) by {
            if j == t.len() {
                if i < t.len() - 1 {
                    assert(starts_no_later(t[i], t[t.len() - 1]));
                    crate::time::lemma_value_le_transitive(
                        t[i].timeline_start,
                        t.last().timeline_start,
                        x.timeline_start,
                    );
                }
            } else {
                assert(r[i] == t[i] && r[j] == t[j]);
            }
        }
    } else {
        let d = t.drop_last();
        let l = t.last();
        assert(sorted_by_start(d)) by {
            assert forall|i: int, j: int| 0 <= i < j < d.len() implies starts_no_later(
                #[trigger] d[i],
                #[trigger] d[j],
            ) by {
                assert(d[i] == t[i] && d[j] == t[j]);
            }
        }
        assert(starts_wf(d)) by {
            assert forall|i: int| 0 <= i < d.len() implies (#[trigger] d[i]).timeline_start.wf() by {
                assert(d[i] == t[i]);
            }
        }
        lemma_insert_by_start(d, x);
        assert forall|i: int| 0 <= i < d.len() implies (#[trigger] d[i]).timeline_start.value_le(
            l.timeline_start,
        ) by {
            assert(d[i] == t[i]);
            assert(starts_no_later(t[i], t[t.len() - 1]));
        }
        lemma_insert_by_start_bounded(d, x, l.timeline_start);
        let m = insert_by_start(d, x);
        let r = m.push(l);
        assert forall|i: int, j: int| 0 <= i < j < r.len() implies starts_no_later(
            #[trigger] r[i],
            #[trigger] r[j],
        ) by {
            if j < m.len() {
                assert(r[i] == m[i] && r[j] == m[j]);
            } else {
                assert(r[i] == m[i]);
            }
        }
        assert(t =~= d.push(l));
        assert(r.to_multiset() =~= t.to_multiset().insert(x));
    }
}

/// Sorting by start orders the clips and keeps exactly the same clips: the
/// clips of a track stay ordered, and none is lost or duplicated, whatever
/// clip is added to it.
pub proof fn lemma_sort_by_start(s: Seq<ClipDefinition>)
    requires
        starts_wf(s),
    ensures
        sorted_by_start(sort_by_start(s)),
        starts_wf(sort_by_start(s)),
        sort_by_start(s).to_multiset() == s.to_multiset(),
    decreases s.len(),
{
    broadcast use vstd::seq_lib::group_to_multiset_ensures;
    broadcast use vstd::multiset::group_multiset_axioms;

    if s.len() > 0 {
        let d = s.drop_last();
        assert(starts_wf(d)) by {
            assert forall|i: int| 0 <= i < d.len() implies (#[trigger] d[i]).timeline_start.wf() by {
                assert(d[i] == s[i]);
            }
        }
        lemma_sort_by_start(d);
        lemma_insert_by_start(sort_by_start(d), s.last());
        assert(s =~= d.push(s.last()));
    }
}

/// Stable in-place sort of clips by timeline start.
fn sort_clips_by_start(clips: &mut Vec<ClipDefinition>)
    requires
        starts_wf(old(clips)@),
    ensures
        final(clips)@ == sort_by_start(old(clips)@),
{
    let ghost orig = clips@;
    let n = clips.len();
    let mut out: Vec<ClipDefinition> = Vec::new();
    let mut i: usize = 0;
    assert(orig.take(0) =~= Seq::<ClipDefinition>::empty());
    assert(orig.skip(0) =~= orig);
    while i < n
        invariant
            n == orig.len(),
            i <= n,
            starts_wf(orig),
            out@ == sort_by_start(orig.take(i as int)),
            clips@ == orig.skip(i as int),
        decreases n - i,
    {
        let x = clips.remove(0);
        assert(x == orig[i as int]);
        assert(clips@ =~= orig.skip(i + 1));
        let mut p: usize = out.len();
        while p > 0 && !out[p - 1].timeline_start.at_most(&x.timeline_start)
            invariant
                p <= out@.len(),
                forall|j: int| p <= j < out@.len() ==> !starts_no_later(#[trigger] out@[j], x),
            decreases p,
        {
            p = p - 1;
        }
        proof {
            lemma_insert_at_scan_point(out@, x, p as int);
            assert(orig.take(i + 1).drop_last() =~= orig.take(i as int));
            assert(orig.take(i + 1).last() == x);
        }
        out.insert(p, x);
        i = i + 1;
    }
    assert(orig.take(n as int) =~= orig);
    *clips = out;
}

// ---------------------------------------------------------------------------
// Frame conditions
// ---------------------------------------------------------------------------
/// `p` with track `t` replaced by `tr`.
pub open spec fn with_track(p: ProjectModel, t: int, tr: TrackModel) -> ProjectModel {
    ProjectModel { tracks: p.tracks.update(t, tr), ..p }
}

/// `tr` with its clips replaced by `clips`.
pub open spec fn with_clips(tr: TrackModel, clips: Seq<ClipDefinition>) -> TrackModel {
    TrackModel { clips, ..tr }
}

proof fn lemma_views_after_track_update(
    before: Seq<TrackDefinition>,
    after: Seq<TrackDefinition>,
    t: int,
)
    requires
        0 <= t < before.len(),
        after.len() == before.len(),
        forall|j: int| 0 <= j < before.len() && j != t ==> after[j] == before[j],
    ensures
        after.map_values(|x: TrackDefinition| x@) =~= before.map_values(
            |x: TrackDefinition| x@,
        ).update(t, after[t]@),
{
}

impl Project {
    /// Every clip's timestamps have positive denominators and its duration
    /// and end can be computed without overflow.
    pub open spec fn clips_fit(self) -> bool {
        forall|t: int, c: int|
            0 <= t < self.tracks@.len() && 0 <= c < self.tracks@[t].clips@.len()
                ==> (#[trigger] self.tracks@[t].clips@[c]).times_fit()
    }

    /// Add `clip` to the track with id `track_id`, keeping the track's clips
    /// stably ordered by timeline start.
    pub fn add_clip(&mut self, track_id: &str, clip: ClipDefinition) -> (r: Result<(), ProjectError>)
        requires
            clip.timeline_start.wf(),
            forall|t: int|
                0 <= t < old(self).tracks@.len() ==> starts_wf(
                    #[trigger] old(self).tracks@[t].clips@,
                ),
        ensures
            match track_index(old(self)@.tracks, track_id@) {
                None => {
                    &&& r matches Err(ProjectError::TrackNotFound(s)) && s@ == track_id@
                    &&& final(self)@ == old(self)@
                },
                Some(t) => {
                    &&& r is Ok
                    &&& final(self)@ == with_track(
                        old(self)@,
                        t,
                        with_clips(
                            old(self)@.tracks[t],
                            sort_by_start(old(self)@.tracks[t].clips.push(clip)),
                        ),
                    )
                },
            },
    {
        match find_track_position(&self.tracks, track_id) {
            None => Err(ProjectError::TrackNotFound(String::from_str(track_id))),
            Some(t) => {
                let ghost before = self.tracks@;
                proof {
                    lemma_track_index_from_range(old(self)@.tracks, track_id@, 0);
                }
                let track = &mut self.tracks[t];
                track.clips.push(clip);
                proof {
                    assert(starts_wf(before[t as int].clips@.push(clip))) by {
                        assert(starts_wf(before[t as int].clips@));
                    }
                }
                sort_clips_by_start(&mut track.clips);
                proof {
                    lemma_views_after_track_update(before, self.tracks@, t as int);
                }
                Ok(())
            },
        }
    }

    /// The first clip with id `clip_id` (searching tracks in order) and its track.
    pub fn find_clip(&self, clip_id: &str) -> (r: Option<(&TrackDefinition, &ClipDefinition)>)
        ensures
            match locate_clip(self@, clip_id@) {
                None => r is None,
                Some((t, c)) => r matches Some((tr, cl)) && tr@ == self@.tracks[t] && *cl
                    == self@.tracks[t].clips[c],
            },
    {
        match find_clip_location(&self.tracks, clip_id) {
            None => None,
            Some((t, c)) => {
                proof {
                    lemma_locate_from_range(self@.tracks, clip_id@, 0);
                }
                let tr = &self.tracks[t];
                Some((tr, &tr.clips[c]))
            },
        }
    }

    /// Remove the first clip with id `clip_id`; returns the id of the track
    /// it was on and the clip itself.
    pub fn remove_clip(&mut self, clip_id: &str) -> (r: Result<(String, ClipDefinition), ProjectError>)
        ensures
            match locate_clip(old(self)@, clip_id@) {
                None => {
                    &&& r matches Err(ProjectError::ClipNotFound(s)) && s@ == clip_id@
                    &&& final(self)@ == old(self)@
                },
                Some((t, c)) => {
                    &&& r matches Ok((tid, clip)) && tid@ == old(self)@.tracks[t].id && clip
                        == old(self)@.tracks[t].clips[c]
                    &&& final(self)@ == with_track(
                        old(self)@,
                        t,
                        with_clips(old(self)@.tracks[t], old(self)@.tracks[t].clips.remove(c)),
                    )
                },
            },
    {
        match find_clip_location(&self.tracks, clip_id) {
            None => Err(ProjectError::ClipNotFound(String::from_str(clip_id))),
            Some((t, c)) => {
                let ghost before = self.tracks@;
                proof {
                    lemma_locate_from_range(old(self)@.tracks, clip_id@, 0);
                }
                let track = &mut self.tracks[t];
                let clip = track.clips.remove(c);
                let tid = track.id.clone();
                proof {
                    lemma_views_after_track_update(before, self.tracks@, t as int);
                }
                Ok((tid, clip))
            },
        }
    }
}


// ---------------------------------------------------------------------------
// Splitting, trimming, moving and ripple deletion
// ---------------------------------------------------------------------------
/// `split` lies strictly inside the clip's span on the timeline.
pub open spec fn strictly_inside(c: ClipDefinition, split: TimeRational) -> bool {
    c.timeline_start.value_lt(split) && split.value_lt(c.spec_end())
}

/// The arithmetic of splitting `c` at `split` can be carried out.
pub open spec fn split_fits(c: ClipDefinition, split: TimeRational) -> bool {
    &&& c.times_fit()
    &&& split.wf()
    &&& strictly_inside(c, split) ==> {
        &&& split.sub_fits(c.timeline_start)
        &&& c.in_point.add_fits(split.spec_difference(c.timeline_start))
    }
}

/// Source position at which a split at `split` cuts clip `c`.
pub open spec fn split_source_point(c: ClipDefinition, split: TimeRational) -> TimeRational {
    c.in_point.spec_sum(split.spec_difference(c.timeline_start))
}

/// Text form `num/den` of a timestamp.
pub open spec fn rational_text(t: TimeRational) -> Seq<char> {
    crate::text::signed_decimal(t.num as int) + seq!['/'] + crate::text::decimal(t.den as nat)
}

/// Message of a rejected split.
pub open spec fn split_error_message(split: TimeRational, c: ClipDefinition) -> Seq<char> {
    "Split time "@ + rational_text(split) + " is outside clip boundary ["@ + rational_text(
        c.timeline_start,
    ) + " .. "@ + rational_text(c.spec_end()) + "]"@
}

/// Id given to the tail half of a split: the clip's id followed by the
/// split time in whole milliseconds.
pub open spec fn split_tail_id(clip_id: Seq<char>, split: TimeRational) -> Seq<char> {
    clip_id + "_split_"@ + crate::text::signed_decimal(split.spec_millis())
}

/// The tail `tl` of splitting `c` (looked up as `clip_id`) at `split`: a copy
/// of the head with a new id, starting at `split` and playing the rest of
/// the source.
pub open spec fn is_split_tail(
    tl: ClipDefinition,
    c: ClipDefinition,
    clip_id: Seq<char>,
    split: TimeRational,
) -> bool {
    &&& tl.id@ == split_tail_id(clip_id, split)
    &&& tl.asset_id == c.asset_id
    &&& tl.timeline_start == split
    &&& tl.in_point == split_source_point(c, split)
    &&& tl.out_point == c.out_point
    &&& tl.volume_milli == c.volume_milli
    &&& tl.muted == c.muted
    &&& tl.speed_milli == c.speed_milli
    &&& tl.fade_in == c.fade_in
    &&& tl.fade_out == c.fade_out
    &&& tl.crop == c.crop
    &&& tl.transform == c.transform
    &&& tl.template == c.template
}

/// The head that splitting `c` at `split` leaves in place of `c`.
pub open spec fn split_head(c: ClipDefinition, split: TimeRational) -> ClipDefinition {
    ClipDefinition { out_point: split_source_point(c, split), ..c }
}

proof fn lemma_denotes_self(t: TimeRational)
    ensures
        crate::time::denotes(t, t.num as int, t.den as int),
{
}

/// Splitting leaves the timeline covering the same span: the head starts
/// where the clip started and ends at the split point, and the tail starts
/// at the split point and ends where the clip ended (compared by value).
pub proof fn lemma_split_covers_same_span(
    c: ClipDefinition,
    split: TimeRational,
    tail: ClipDefinition,
    clip_id: Seq<char>,
)
    requires
        split_fits(c, split),
        strictly_inside(c, split),
        is_split_tail(tail, c, clip_id, split),
        split_head(c, split).times_fit(),
        tail.times_fit(),
    ensures
        split_head(c, split).timeline_start == c.timeline_start,
        split_head(c, split).spec_end().same_value(split),
        tail.timeline_start == split,
        tail.spec_end().same_value(c.spec_end()),
{
    let (s, i, o, p) = (c.timeline_start, c.in_point, c.out_point, split);
    let (sn, sd, inn, id, on, od, pn, pd) = (s.num as int, s.den as int, i.num as int, i.den as int, o.num as int, o.den as int, p.num as int, p.den as int);
    lemma_denotes_self(s);
    lemma_denotes_self(i);
    lemma_denotes_self(o);
    lemma_denotes_self(p);
    // The head's out-point h = i + (p - s).
    let d1 = p.spec_difference(s);
    let d1n = pn * sd - sn * pd;
    let d1d = lemma_positive_product(pd, sd);
    lemma_difference_denotes(p, s, pn, pd, sn, sd);
    let h = i.spec_sum(d1);
    let hn = inn * d1d + d1n * id;
    let hd = lemma_positive_product(id, d1d);
    lemma_sum_denotes(i, d1, inn, id, d1n, d1d);
    // The head's end s + (h - i).
    let head = split_head(c, split);
    assert(head.out_point == h);
    let hdur = h.spec_difference(i);
    let hdn = hn * id - inn * hd;
    let hdd = lemma_positive_product(hd, id);
    lemma_difference_denotes(h, i, hn, hd, inn, id);
    let he = s.spec_sum(hdur);
    let hen = sn * hdd + hdn * sd;
    let hed = lemma_positive_product(sd, hdd);
    lemma_sum_denotes(s, hdur, sn, sd, hdn, hdd);
    let ii = id * id;
    let ss = sd * sd;
    assert(hn * id == inn * (d1d * id) + d1n * ii) by (nonlinear_arith)
        requires
            hn == inn * d1d + d1n * id,
            ii == id * id,
    ;
    assert(inn * hd == inn * (d1d * id)) by (nonlinear_arith)
        requires
            hd == id * d1d,
    ;
    assert(hdn == d1n * ii);
    assert(hdd == ii * d1d) by (nonlinear_arith)
        requires
            hdd == hd * id,
            hd == id * d1d,
            ii == id * id,
    ;
    assert(sn * hdd == ii * (sn * d1d)) by (nonlinear_arith)
        requires
            hdd == ii * d1d,
    ;
    assert(hdn * sd == ii * (d1n * sd)) by (nonlinear_arith)
        requires
            hdn == d1n * ii,
    ;
    assert(ii * (sn * d1d) + ii * (d1n * sd) == ii * (sn * d1d + d1n * sd)) by (nonlinear_arith);
    assert(sn * d1d + d1n * sd == pn * ss) by (nonlinear_arith)
        requires
            d1d == pd * sd,
            d1n == pn * sd - sn * pd,
            ss == sd * sd,
    ;
    assert(hen == ii * (pn * ss));
    assert(hed == ii * (pd * ss)) by (nonlinear_arith)
        requires
            hed == sd * hdd,
            hdd == ii * d1d,
            d1d == pd * sd,
            ss == sd * sd,
    ;
    assert(hen * pd == pn * hed) by (nonlinear_arith)
        requires
            hen == ii * (pn * ss),
            hed == ii * (pd * ss),
    ;
    lemma_sum_value(s, hdur);
    lemma_denotes_same_value(he, p, hen, hed, pn, pd);
    // The tail's end p + (o - h).
    let tdur = o.spec_difference(h);
    let tdn = on * hd - hn * od;
    let tdd = lemma_positive_product(od, hd);
    lemma_difference_denotes(o, h, on, od, hn, hd);
    let te = p.spec_sum(tdur);
    let ten = pn * tdd + tdn * pd;
    let ted = lemma_positive_product(pd, tdd);
    lemma_sum_denotes(p, tdur, pn, pd, tdn, tdd);
    // The clip's end s + (o - i).
    let cdur = o.spec_difference(i);
    let dn = on * id - inn * od;
    let dd = lemma_positive_product(od, id);
    lemma_difference_denotes(o, i, on, od, inn, id);
    let ce = s.spec_sum(cdur);
    let en = sn * dd + dn * sd;
    let ed = lemma_positive_product(sd, dd);
    lemma_sum_denotes(s, cdur, sn, sd, dn, dd);
    assert(on * hd == d1d * (on * id)) by (nonlinear_arith)
        requires
            hd == id * d1d,
    ;
    assert(hn * od == d1d * (inn * od) + d1n * (id * od)) by (nonlinear_arith)
        requires
            hn == inn * d1d + d1n * id,
    ;
    assert(d1d * dn == d1d * (on * id) - d1d * (inn * od)) by (nonlinear_arith)
        requires
            dn == on * id - inn * od,
    ;
    assert(d1n * dd == d1n * (id * od)) by (nonlinear_arith)
        requires
            dd == od * id,
    ;
    assert(tdn == d1d * dn - d1n * dd);
    assert(tdd == dd * d1d) by (nonlinear_arith)
        requires
            tdd == od * hd,
            hd == id * d1d,
            dd == od * id,
    ;
    let pp = pd * pd;
    let x = pd * (pn * sd);
    assert(pn * tdd == dd * x) by (nonlinear_arith)
        requires
            tdd == dd * d1d,
            d1d == pd * sd,
            x == pd * (pn * sd),
    ;
    assert(tdn * pd == (d1d * pd) * dn - (d1n * pd) * dd) by (nonlinear_arith)
        requires
            tdn == d1d * dn - d1n * dd,
    ;
    assert(d1d * pd == pp * sd) by (nonlinear_arith)
        requires
            d1d == pd * sd,
            pp == pd * pd,
    ;
    assert(d1n * pd == x - pp * sn) by (nonlinear_arith)
        requires
            d1n == pn * sd - sn * pd,
            pp == pd * pd,
            x == pd * (pn * sd),
    ;
    assert((pp * sd) * dn - (x - pp * sn) * dd == pp * (sd * dn) - x * dd + pp * (sn * dd))
        by (nonlinear_arith);
    assert(ten == pp * (sd * dn) + pp * (sn * dd));
    assert(ten == pp * en) by (nonlinear_arith)
        requires
            ten == pp * (sd * dn) + pp * (sn * dd),
            en == sn * dd + dn * sd,
    ;
    assert(ted == pp * ed) by (nonlinear_arith)
        requires
            ted == pd * tdd,
            tdd == dd * d1d,
            d1d == pd * sd,
            ed == sd * dd,
            pp == pd * pd,
    ;
    assert(ten * ed == en * ted) by (nonlinear_arith)
        requires
            ten == pp * en,
            ted == pp * ed,
    ;
    lemma_sum_value(p, tdur);
    lemma_sum_value(s, cdur);
    assert(tail.spec_end() == te);
    assert(c.spec_end() == ce);
    lemma_denotes_same_value(te, ce, ten, ted, en, ed);
}

/// The product of two positive numbers, which is positive.
proof fn lemma_positive_product(a: int, b: int) -> (r: int)
    requires
        a > 0,
        b > 0,
    ensures
        r == a * b,
        r > 0,
{
    assert(a * b > 0) by (nonlinear_arith)
        requires
            a > 0,
            b > 0,
    ;
    a * b
}

/// Append `num/den` to `s`.
fn push_rational(s: &mut String, t: TimeRational)
    ensures
        final(s)@ == old(s)@ + rational_text(t),
{
    proof {
        reveal_strlit("/");
    }
    crate::text::push_signed_decimal(s, t.num);
    s.append("/");
    crate::text::push_decimal(s, t.den as u64);
    assert(s@ =~= old(s)@ + rational_text(t));
}

/// New in-point and start of a clip whose start is trimmed to `new_start`.
pub open spec fn trimmed_in_point(c: ClipDefinition, new_start: TimeRational) -> TimeRational {
    c.in_point.spec_sum(new_start.spec_difference(c.timeline_start))
}

/// The arithmetic of trimming the start of `c` to `new_start` can be carried out.
pub open spec fn trim_start_fits(c: ClipDefinition, new_start: TimeRational) -> bool {
    &&& c.times_fit()
    &&& new_start.wf()
    &&& new_start.value_lt(c.spec_end()) ==> {
        &&& new_start.sub_fits(c.timeline_start)
        &&& c.in_point.add_fits(new_start.spec_difference(c.timeline_start))
    }
}

/// The arithmetic of trimming the end of `c` to `new_end` can be carried out.
pub open spec fn trim_end_fits(c: ClipDefinition, new_end: TimeRational) -> bool {
    &&& c.timeline_start.wf()
    &&& new_end.wf()
    &&& c.timeline_start.value_lt(new_end) ==> {
        &&& new_end.sub_fits(c.timeline_start)
        &&& c.in_point.add_fits(new_end.spec_difference(c.timeline_start))
    }
}

/// Start given to a moved clip: `new_start`, or zero when it is not positive.
pub open spec fn clamped_start(new_start: TimeRational) -> TimeRational {
    if (TimeRational { num: 0, den: 1 }).value_lt(new_start) {
        new_start
    } else {
        TimeRational { num: 0, den: 1 }
    }
}

/// A clip after the gap closed by a ripple delete: moved left by `dur` when
/// it starts at or after `gap_end`.
pub open spec fn ripple_shift(f: ClipDefinition, gap_end: TimeRational, dur: TimeRational) -> ClipDefinition {
    if gap_end.value_le(f.timeline_start) {
        ClipDefinition { timeline_start: f.timeline_start.spec_difference(dur), ..f }
    } else {
        f
    }
}

/// Clips of a track after ripple-deleting clip `c`.
pub open spec fn rippled_clips(clips: Seq<ClipDefinition>, c: int) -> Seq<ClipDefinition> {
    Seq::new(
        (clips.len() - 1) as nat,
        |k: int|
            if k < c {
                clips[k]
            } else {
                ripple_shift(clips[k + 1], clips[c].spec_end(), clips[c].spec_duration())
            },
    )
}

/// Ripple-deleting clip `c` removes it and leaves the clips before it as
/// they were; every later clip that started at or after the removed clip's
/// end starts exactly the removed clip's duration earlier (by value), and
/// every other later clip stays as it was. Apart from the start, no clip
/// changes.
pub proof fn lemma_ripple_closes_gap(clips: Seq<ClipDefinition>, c: int)
    requires
        0 <= c < clips.len(),
        ripple_fits(clips, c),
    ensures
        rippled_clips(clips, c).len() == clips.len() - 1,
        forall|k: int| 0 <= k < c ==> #[trigger] rippled_clips(clips, c)[k] == clips[k],
        forall|k: int|
            c < k < clips.len() ==> {
                let before = clips[k];
                let after = #[trigger] rippled_clips(clips, c)[k - 1];
                let d = clips[c].spec_duration();
                &&& ClipDefinition { timeline_start: before.timeline_start, ..after } == before
                &&& clips[c].spec_end().value_le(before.timeline_start) ==> after.timeline_start.num * (
                before.timeline_start.den * d.den) == (before.timeline_start.num * d.den - d.num
                * before.timeline_start.den) * after.timeline_start.den
                &&& !clips[c].spec_end().value_le(before.timeline_start) ==> after == before
            },
{
    assert forall|k: int| c < k < clips.len() implies {
        let before = clips[k];
        let after = #[trigger] rippled_clips(clips, c)[k - 1];
        let d = clips[c].spec_duration();
        &&& ClipDefinition { timeline_start: before.timeline_start, ..after } == before
        &&& clips[c].spec_end().value_le(before.timeline_start) ==> after.timeline_start.num * (
        before.timeline_start.den * d.den) == (before.timeline_start.num * d.den - d.num
        * before.timeline_start.den) * after.timeline_start.den
        &&& !clips[c].spec_end().value_le(before.timeline_start) ==> after == before
    } by {
        let before = clips[k];
        let d = clips[c].spec_duration();
        if clips[c].spec_end().value_le(before.timeline_start) {
            crate::time::lemma_difference_value(before.timeline_start, d);
        }
    }
}

/// The arithmetic of ripple-deleting clip `c` can be carried out.
pub open spec fn ripple_fits(clips: Seq<ClipDefinition>, c: int) -> bool {
    &&& clips[c].times_fit()
    &&& forall|k: int|
        c < k < clips.len() && clips[c].spec_end().value_le((#[trigger] clips[k]).timeline_start)
            ==> clips[k].timeline_start.sub_fits(clips[c].spec_duration())
}

/// The project after moving the first clip with id `clip_id` to the track
/// with id `track_id` at `new_start`, and whether the move succeeded (see
/// `move_clip`).
pub open spec fn spec_move(p: ProjectModel, clip_id: Seq<char>, track_id: Seq<char>, new_start: TimeRational) -> (
    ProjectModel,
    bool,
) {
    match locate_clip(p, clip_id) {
        None => (p, false),
        Some((t, c)) => match track_index(p.tracks, track_id) {
            None => (p, false),
            Some(u) => (moved_project(p, t, c, u, new_start), true),
        },
    }
}

/// `p` with clip `c` of track `t` taken out and placed, starting at
/// `new_start` (at least zero), on track `u` in start order.
pub open spec fn moved_project(p: ProjectModel, t: int, c: int, u: int, new_start: TimeRational) -> ProjectModel {
    let cl = p.tracks[t].clips[c];
    let mid = with_track(p, t, with_clips(p.tracks[t], p.tracks[t].clips.remove(c)));
    let moved = ClipDefinition { timeline_start: clamped_start(new_start), ..cl };
    with_track(mid, u, with_clips(mid.tracks[u], sort_by_start(mid.tracks[u].clips.push(moved))))
}

/// Track lookup only reads the tracks' ids.
proof fn lemma_track_index_same_ids(a: Seq<TrackModel>, b: Seq<TrackModel>, id: Seq<char>, i: int)
    requires
        a.len() == b.len(),
        forall|k: int| 0 <= k < a.len() ==> (#[trigger] a[k]).id == b[k].id,
    ensures
        track_index_from(a, id, i) == track_index_from(b, id, i),
    decreases a.len() - i,
{
    if !(i < 0 || i >= a.len()) && a[i].id != id {
        lemma_track_index_same_ids(a, b, id, i + 1);
    }
}

/// The project after trimming the start of the first clip with id
/// `clip_id` to `new_start`, and whether the trim succeeded (see
/// `trim_clip_start`).
pub open spec fn spec_trim_start(p: ProjectModel, clip_id: Seq<char>, new_start: TimeRational) -> (
    ProjectModel,
    bool,
) {
    match locate_clip(p, clip_id) {
        None => (p, false),
        Some((t, c)) => {
            let cl = p.tracks[t].clips[c];
            if cl.spec_end().value_le(new_start) || trimmed_in_point(cl, new_start).value_lt(
                TimeRational { num: 0, den: 1 },
            ) {
                (p, false)
            } else {
                (
                    with_track(
                        p,
                        t,
                        with_clips(
                            p.tracks[t],
                            sort_by_start(
                                p.tracks[t].clips.update(
                                    c,
                                    ClipDefinition {
                                        timeline_start: new_start,
                                        in_point: trimmed_in_point(cl, new_start),
                                        ..cl
                                    },
                                ),
                            ),
                        ),
                    ),
                    true,
                )
            }
        },
    }
}

/// The project after trimming the end of the first clip with id `clip_id`
/// to `new_end`, and whether the trim succeeded (see `trim_clip_end`).
pub open spec fn spec_trim_end(p: ProjectModel, clip_id: Seq<char>, new_end: TimeRational) -> (
    ProjectModel,
    bool,
) {
    match locate_clip(p, clip_id) {
        None => (p, false),
        Some((t, c)) => {
            let cl = p.tracks[t].clips[c];
            if new_end.value_le(cl.timeline_start) {
                (p, false)
            } else {
                (
                    with_track(
                        p,
                        t,
                        with_clips(
                            p.tracks[t],
                            p.tracks[t].clips.update(
                                c,
                                ClipDefinition {
                                    out_point: cl.in_point.spec_sum(
                                        new_end.spec_difference(cl.timeline_start),
                                    ),
                                    ..cl
                                },
                            ),
                        ),
                    ),
                    true,
                )
            }
        },
    }
}

impl Project {
    /// Split the first clip with id `clip_id` at timeline instant
    /// `split_time`. The clip keeps the head; a tail clip is inserted right
    /// after it. Returns (head, tail).
    pub fn split_clip(&mut self, clip_id: &str, split_time: TimeRational) -> (r: Result<
        (ClipDefinition, ClipDefinition),
        ProjectError,
    >)
        requires
            locate_clip(old(self)@, clip_id@) matches Some((t, c)) ==> split_fits(
                old(self)@.tracks[t].clips[c],
                split_time,
            ),
        ensures
            match locate_clip(old(self)@, clip_id@) {
                None => {
                    &&& r matches Err(ProjectError::ClipNotFound(s)) && s@ == clip_id@
                    &&& final(self)@ == old(self)@
                },
                Some((t, c)) => {
                    let cl = old(self)@.tracks[t].clips[c];
                    if !strictly_inside(cl, split_time) {
                        &&& r matches Err(ProjectError::InvalidOperation(m)) && m@
                            == split_error_message(split_time, cl)
                        &&& final(self)@ == old(self)@
                    } else {
                        &&& r matches Ok((h, tl)) && {
                            &&& h == ClipDefinition {
                                out_point: split_source_point(cl, split_time),
                                ..cl
                            }
                            &&& is_split_tail(tl, cl, clip_id@, split_time)
                            &&& final(self)@ == with_track(
                                old(self)@,
                                t,
                                with_clips(
                                    old(self)@.tracks[t],
                                    old(self)@.tracks[t].clips.update(c, h).insert(c + 1, tl),
                                ),
                            )
                        }
                    }
                },
            },
    {
        match find_clip_location(&self.tracks, clip_id) {
            None => Err(ProjectError::ClipNotFound(String::from_str(clip_id))),
            Some((t, c)) => {
                let ghost before = self.tracks@;
                proof {
                    lemma_locate_from_range(old(self)@.tracks, clip_id@, 0);
                }
                let start = self.tracks[t].clips[c].timeline_start;
                let end = self.tracks[t].clips[c].timeline_end();
                if split_time.at_most(&start) || end.at_most(&split_time) {
                    let mut msg = String::from_str("Split time ");
                    push_rational(&mut msg, split_time);
                    msg.append(" is outside clip boundary [");
                    push_rational(&mut msg, start);
                    msg.append(" .. ");
                    push_rational(&mut msg, end);
                    msg.append("]");
                    return Err(ProjectError::InvalidOperation(msg));
                }
                let offset = split_time.minus(start);
                let clip_out = self.tracks[t].clips[c].out_point;
                let head_out = self.tracks[t].clips[c].in_point.plus(offset);
                let track = &mut self.tracks[t];
                track.clips[c].out_point = head_out;
                let head_clip = track.clips[c].clone();
                let mut tail_clip = head_clip.clone();
                let mut tail_id = String::from_str(clip_id);
                tail_id.append("_split_");
                let millis = split_time.millis();
                crate::text::push_signed_decimal_wide(&mut tail_id, millis);
                tail_clip.id = tail_id;
                tail_clip.timeline_start = split_time;
                tail_clip.in_point = head_out;
                tail_clip.out_point = clip_out;
                let ret_tail = tail_clip.clone();
                let len = track.clips.len();
                assert(c < len);
                track.clips.insert(c + 1, tail_clip);
                proof {
                    lemma_views_after_track_update(before, self.tracks@, t as int);
                }
                Ok((head_clip, ret_tail))
            },
        }
    }

    /// Move the start of the first clip with id `clip_id` to `new_start`,
    /// moving its in-point by the same amount; the track stays ordered.
    pub fn trim_clip_start(&mut self, clip_id: &str, new_start: TimeRational) -> (r: Result<
        (),
        ProjectError,
    >)
        requires
            forall|t: int|
                0 <= t < old(self).tracks@.len() ==> starts_wf(
                    #[trigger] old(self).tracks@[t].clips@,
                ),
            locate_clip(old(self)@, clip_id@) matches Some((t, c)) ==> trim_start_fits(
                old(self)@.tracks[t].clips[c],
                new_start,
            ),
        ensures
            (final(self)@, r is Ok) == spec_trim_start(old(self)@, clip_id@, new_start),
            match locate_clip(old(self)@, clip_id@) {
                None => {
                    &&& r matches Err(ProjectError::ClipNotFound(s)) && s@ == clip_id@
                    &&& final(self)@ == old(self)@
                },
                Some((t, c)) => {
                    let cl = old(self)@.tracks[t].clips[c];
                    if cl.spec_end().value_le(new_start) {
                        &&& r matches Err(ProjectError::InvalidOperation(m)) && m@
                            == "New start timestamp must be before the clip out-point"@
                        &&& final(self)@ == old(self)@
                    } else if trimmed_in_point(cl, new_start).value_lt(
                        TimeRational { num: 0, den: 1 },
                    ) {
                        &&& r matches Err(ProjectError::InvalidOperation(m)) && m@
                            == "New in-point cannot be negative"@
                        &&& final(self)@ == old(self)@
                    } else {
                        &&& r is Ok
                        &&& final(self)@ == with_track(
                            old(self)@,
                            t,
                            with_clips(
                                old(self)@.tracks[t],
                                sort_by_start(
                                    old(self)@.tracks[t].clips.update(
                                        c,
                                        ClipDefinition {
                                            timeline_start: new_start,
                                            in_point: trimmed_in_point(cl, new_start),
                                            ..cl
                                        },
                                    ),
                                ),
                            ),
                        )
                    }
                },
            },
    {
        match find_clip_location(&self.tracks, clip_id) {
            None => Err(ProjectError::ClipNotFound(String::from_str(clip_id))),
            Some((t, c)) => {
                let ghost before = self.tracks@;
                proof {
                    lemma_locate_from_range(old(self)@.tracks, clip_id@, 0);
                }
                let end = self.tracks[t].clips[c].timeline_end();
                if end.at_most(&new_start) {
                    return Err(
                        ProjectError::InvalidOperation(
                            String::from_str("New start timestamp must be before the clip out-point"),
                        ),
                    );
                }
                let delta = new_start.minus(self.tracks[t].clips[c].timeline_start);
                let new_in_point = self.tracks[t].clips[c].in_point.plus(delta);
                if new_in_point.less_than(&TimeRational::zero()) {
                    return Err(
                        ProjectError::InvalidOperation(
                            String::from_str("New in-point cannot be negative"),
                        ),
                    );
                }
                let track = &mut self.tracks[t];
                track.clips[c].timeline_start = new_start;
                track.clips[c].in_point = new_in_point;
                proof {
                    let cl = before[t as int].clips@[c as int];
                    assert(track.clips@ =~= before[t as int].clips@.update(
                        c as int,
                        ClipDefinition {
                            timeline_start: new_start,
                            in_point: trimmed_in_point(cl, new_start),
                            ..cl
                        },
                    ));
                    assert(starts_wf(track.clips@)) by {
                        assert(starts_wf(before[t as int].clips@));
                    }
                }
                sort_clips_by_start(&mut track.clips);
                proof {
                    lemma_views_after_track_update(before, self.tracks@, t as int);
                }
                Ok(())
            },
        }
    }

    /// Move the end of the first clip with id `clip_id` to `new_end` by
    /// moving its out-point.
    pub fn trim_clip_end(&mut self, clip_id: &str, new_end: TimeRational) -> (r: Result<
        (),
        ProjectError,
    >)
        requires
            locate_clip(old(self)@, clip_id@) matches Some((t, c)) ==> trim_end_fits(
                old(self)@.tracks[t].clips[c],
                new_end,
            ),
        ensures
            (final(self)@, r is Ok) == spec_trim_end(old(self)@, clip_id@, new_end),
            match locate_clip(old(self)@, clip_id@) {
                None => {
                    &&& r matches Err(ProjectError::ClipNotFound(s)) && s@ == clip_id@
                    &&& final(self)@ == old(self)@
                },
                Some((t, c)) => {
                    let cl = old(self)@.tracks[t].clips[c];
                    if new_end.value_le(cl.timeline_start) {
                        &&& r matches Err(ProjectError::InvalidOperation(m)) && m@
                            == "New end timestamp must be after the clip start"@
                        &&& final(self)@ == old(self)@
                    } else {
                        &&& r is Ok
                        &&& final(self)@ == with_track(
                            old(self)@,
                            t,
                            with_clips(
                                old(self)@.tracks[t],
                                old(self)@.tracks[t].clips.update(
                                    c,
                                    ClipDefinition {
                                        out_point: cl.in_point.spec_sum(
                                            new_end.spec_difference(cl.timeline_start),
                                        ),
                                        ..cl
                                    },
                                ),
                            ),
                        )
                    }
                },
            },
    {
        match find_clip_location(&self.tracks, clip_id) {
            None => Err(ProjectError::ClipNotFound(String::from_str(clip_id))),
            Some((t, c)) => {
                let ghost before = self.tracks@;
                proof {
                    lemma_locate_from_range(old(self)@.tracks, clip_id@, 0);
                }
                let start = self.tracks[t].clips[c].timeline_start;
                if new_end.at_most(&start) {
                    return Err(
                        ProjectError::InvalidOperation(
                            String::from_str("New end timestamp must be after the clip start"),
                        ),
                    );
                }
                let new_duration = new_end.minus(start);
                let new_out = self.tracks[t].clips[c].in_point.plus(new_duration);
                self.tracks[t].clips[c].out_point = new_out;
                proof {
                    lemma_views_after_track_update(before, self.tracks@, t as int);
                }
                Ok(())
            },
        }
    }

    /// Remove the first clip with id `clip_id` and shift every later clip of
    /// its track that starts at or after the removed clip's end left by the
    /// removed clip's duration.
    pub fn ripple_delete_clip(&mut self, clip_id: &str) -> (r: Result<(), ProjectError>)
        requires
            locate_clip(old(self)@, clip_id@) matches Some((t, c)) ==> ripple_fits(
                old(self)@.tracks[t].clips,
                c,
            ),
        ensures
            match locate_clip(old(self)@, clip_id@) {
                None => {
                    &&& r matches Err(ProjectError::ClipNotFound(s)) && s@ == clip_id@
                    &&& final(self)@ == old(self)@
                },
                Some((t, c)) => {
                    &&& r is Ok
                    &&& final(self)@ == with_track(
                        old(self)@,
                        t,
                        with_clips(old(self)@.tracks[t], rippled_clips(old(self)@.tracks[t].clips, c)),
                    )
                },
            },
    {
        match find_clip_location(&self.tracks, clip_id) {
            None => Err(ProjectError::ClipNotFound(String::from_str(clip_id))),
            Some((t, c)) => {
                let ghost before = self.tracks@;
                let ghost old_clips = self.tracks@[t as int].clips@;
                proof {
                    lemma_locate_from_range(old(self)@.tracks, clip_id@, 0);
                }
                let mut clips: Vec<ClipDefinition> = Vec::new();
                std::mem::swap(&mut clips, &mut self.tracks[t].clips);
                let clip = clips.remove(c);
                let removed_dur = clip.duration();
                let gap_end = clip.timeline_end();
                let n = clips.len();
                let mut k = c;
                while k < n
                    invariant
                        c <= k <= n,
                        n == clips@.len(),
                        n == old_clips.len() - 1,
                        0 <= c < old_clips.len(),
                        clip == old_clips[c as int],
                        removed_dur == clip.spec_duration(),
                        gap_end == clip.spec_end(),
                        ripple_fits(old_clips, c as int),
                        forall|j: int| 0 <= j < c ==> clips@[j] == old_clips[j],
                        forall|j: int|
                            c <= j < k ==> clips@[j] == ripple_shift(
                                old_clips[j + 1],
                                gap_end,
                                removed_dur,
                            ),
                        forall|j: int| k <= j < n ==> clips@[j] == old_clips[j + 1],
                    decreases n - k,
                {
                    if gap_end.at_most(&clips[k].timeline_start) {
                        proof {
                            assert(old_clips[k + 1] == clips@[k as int]);
                        }
                        let shifted = clips[k].timeline_start.minus(removed_dur);
                        clips[k].timeline_start = shifted;
                    }
                    k = k + 1;
                }
                proof {
                    assert(clips@ =~= rippled_clips(old_clips, c as int));
                }
                std::mem::swap(&mut clips, &mut self.tracks[t].clips);
                proof {
                    lemma_views_after_track_update(before, self.tracks@, t as int);
                }
                Ok(())
            },
        }
    }

    /// Move the first clip with id `clip_id` to track `target_track_id`,
    /// starting at `new_start` (zero if that is not positive). The clip is
    /// removed first, so it stays removed when the target track is missing.
    pub fn move_clip(&mut self, clip_id: &str, target_track_id: &str, new_start: TimeRational) -> (r:
        Result<(), ProjectError>)
        requires
            new_start.wf(),
            forall|t: int|
                0 <= t < old(self).tracks@.len() ==> starts_wf(
                    #[trigger] old(self).tracks@[t].clips@,
                ),
        ensures
            (final(self)@, r is Ok) == spec_move(old(self)@, clip_id@, target_track_id@, new_start),
            match locate_clip(old(self)@, clip_id@) {
                None => {
                    &&& r matches Err(ProjectError::ClipNotFound(s)) && s@ == clip_id@
                    &&& final(self)@ == old(self)@
                },
                Some((t, c)) => match track_index(old(self)@.tracks, target_track_id@) {
                    None => {
                        &&& r matches Err(ProjectError::TrackNotFound(s)) && s@ == target_track_id@
                        &&& final(self)@ == old(self)@
                    },
                    Some(u) => {
                        &&& r is Ok
                        &&& final(self)@ == moved_project(old(self)@, t, c, u, new_start)
                    },
                },
            },
    {
        proof {
            lemma_locate_from_range(old(self)@.tracks, clip_id@, 0);
        }
        if find_clip_location(&self.tracks, clip_id).is_none() {
            return Err(ProjectError::ClipNotFound(String::from_str(clip_id)));
        }
        if find_track_position(&self.tracks, target_track_id).is_none() {
            return Err(ProjectError::TrackNotFound(String::from_str(target_track_id)));
        }
        let ghost p0 = self@;
        assert(self.tracks@ == old(self).tracks@);
        proof {
            lemma_locate_from_range(old(self)@.tracks, clip_id@, 0);
        }
        let (_, mut clip) = self.remove_clip(clip_id)?;
        clip.timeline_start = new_start.later_of(TimeRational::zero());
        proof {
            let (t, c) = locate_clip(old(self)@, clip_id@).unwrap();
            assert(p0 == old(self)@);
            assert(self@.tracks.len() == p0.tracks.len());
            assert(self@.tracks.len() == self.tracks@.len());
            assert(p0.tracks.len() == old(self).tracks@.len());
            assert forall|u: int| 0 <= u < self.tracks@.len() implies starts_wf(
                #[trigger] self.tracks@[u].clips@,
            ) by {
                assert(self.tracks@.map_values(|x: TrackDefinition| x@)[u] == self.tracks@[u]@);
                if u != t {
                    assert(old(self).tracks@.map_values(|x: TrackDefinition| x@)[u]
                        == old(self).tracks@[u]@);
                } else {
                    assert(old(self).tracks@.map_values(|x: TrackDefinition| x@)[u]
                        == old(self).tracks@[u]@);
                    assert(starts_wf(old(self).tracks@[u].clips@));
                }
            }
        }
        proof {
            let (t, c) = locate_clip(p0, clip_id@).unwrap();
            assert forall|k: int| 0 <= k < self@.tracks.len() implies (#[trigger] self@.tracks[k]).id
                == p0.tracks[k].id by {}
            lemma_track_index_same_ids(self@.tracks, p0.tracks, target_track_id@, 0);
        }
        self.add_clip(target_track_id, clip)?;
        Ok(())
    }
}


// ---------------------------------------------------------------------------
// Timeline queries
// ---------------------------------------------------------------------------
/// All clips of the given tracks, track by track, each track's clips in order.
pub open spec fn clips_of(tracks: Seq<TrackModel>) -> Seq<ClipDefinition>
    decreases tracks.len(),
{
    if tracks.len() == 0 {
        Seq::empty()
    } else {
        clips_of(tracks.drop_last()) + tracks.last().clips
    }
}

/// The latest end among `s`, or zero when `s` is empty; among equal ends
/// the first one found is kept.
pub open spec fn latest_end(s: Seq<ClipDefinition>) -> TimeRational
    decreases s.len(),
{
    if s.len() == 0 {
        TimeRational { num: 0, den: 1 }
    } else {
        let m = latest_end(s.drop_last());
        let e = s.last().spec_end();
        if m.value_lt(e) {
            e
        } else {
            m
        }
    }
}

/// The latest end bounds the end of every clip, and is zero or the end of
/// one of them.
pub proof fn lemma_latest_end_bounds(s: Seq<ClipDefinition>)
    requires
        forall|i: int| 0 <= i < s.len() ==> (#[trigger] s[i]).times_fit(),
    ensures
        latest_end(s).wf(),
        forall|i: int| 0 <= i < s.len() ==> (#[trigger] s[i]).spec_end().value_le(latest_end(s)),
        latest_end(s) == (TimeRational { num: 0, den: 1 }) || exists|i: int|
            0 <= i < s.len() && latest_end(s) == (#[trigger] s[i]).spec_end(),
    decreases s.len(),
{
    if s.len() > 0 {
        let d = s.drop_last();
        assert forall|i: int| 0 <= i < d.len() implies (#[trigger] d[i]).times_fit() by {
            assert(d[i] == s[i]);
        }
        lemma_latest_end_bounds(d);
        let m = latest_end(d);
        let l = s.last();
        crate::time::lemma_sum_value(l.timeline_start, l.spec_duration());
        let e = l.spec_end();
        if m.value_lt(e) {
            assert forall|i: int| 0 <= i < s.len() implies (#[trigger] s[i]).spec_end().value_le(
                e,
            ) by {
                if i < d.len() {
                    assert(s[i] == d[i]);
                    crate::time::lemma_sum_value(s[i].timeline_start, s[i].spec_duration());
                    crate::time::lemma_value_le_transitive(s[i].spec_end(), m, e);
                }
            }
            assert(latest_end(s) == s[s.len() - 1].spec_end());
        } else {
            assert forall|i: int| 0 <= i < s.len() implies (#[trigger] s[i]).spec_end().value_le(
                m,
            ) by {
                if i < d.len() {
                    assert(s[i] == d[i]);
                }
            }
            if m != (TimeRational { num: 0, den: 1 }) {
                let k = choose|k: int| 0 <= k < d.len() && m == (#[trigger] d[k]).spec_end();
                assert(s[k] == d[k]);
            }
        }
    }
}

proof fn lemma_clips_of_contains(tracks: Seq<TrackModel>, t: int, c: int)
    requires
        0 <= t < tracks.len(),
        0 <= c < tracks[t].clips.len(),
    ensures
        clips_of(tracks).contains(tracks[t].clips[c]),
    decreases tracks.len(),
{
    let d = tracks.drop_last();
    if t < tracks.len() - 1 {
        assert(d[t] == tracks[t]);
        lemma_clips_of_contains(d, t, c);
        let k = choose|k: int| 0 <= k < clips_of(d).len() && clips_of(d)[k] == tracks[t].clips[c];
        assert(clips_of(tracks)[k] == tracks[t].clips[c]);
    } else {
        let k = clips_of(d).len() + c;
        assert(clips_of(tracks)[k] == tracks[t].clips[c]);
    }
}

proof fn lemma_clips_of_fit(tracks: Seq<TrackModel>)
    requires
        forall|t: int, c: int|
            0 <= t < tracks.len() && 0 <= c < tracks[t].clips.len()
                ==> (#[trigger] tracks[t].clips[c]).times_fit(),
    ensures
        forall|i: int| 0 <= i < clips_of(tracks).len() ==> (#[trigger] clips_of(tracks)[i]).times_fit(),
    decreases tracks.len(),
{
    if tracks.len() > 0 {
        let d = tracks.drop_last();
        assert forall|t: int, c: int|
            0 <= t < d.len() && 0 <= c < d[t].clips.len() implies (
            #[trigger] d[t].clips[c]).times_fit() by {
            assert(d[t] == tracks[t]);
        }
        lemma_clips_of_fit(d);
        let n = clips_of(d).len();
        assert forall|i: int| 0 <= i < clips_of(tracks).len() implies (
        #[trigger] clips_of(tracks)[i]).times_fit() by {
            if i >= n {
                assert(clips_of(tracks)[i] == tracks[tracks.len() - 1].clips[i - n]);
            } else {
                assert(clips_of(tracks)[i] == clips_of(d)[i]);
            }
        }
    }
}

/// The duration of the whole timeline (what `total_duration` returns) is
/// no earlier than the end of any clip on any track.
pub proof fn lemma_total_duration_covers_clips(p: ProjectModel, t: int, c: int)
    requires
        forall|a: int, b: int|
            0 <= a < p.tracks.len() && 0 <= b < p.tracks[a].clips.len()
                ==> (#[trigger] p.tracks[a].clips[b]).times_fit(),
        0 <= t < p.tracks.len(),
        0 <= c < p.tracks[t].clips.len(),
    ensures
        p.tracks[t].clips[c].spec_end().value_le(latest_end(clips_of(p.tracks))),
{
    let s = clips_of(p.tracks);
    lemma_clips_of_fit(p.tracks);
    lemma_latest_end_bounds(s);
    lemma_clips_of_contains(p.tracks, t, c);
    let k = choose|k: int| 0 <= k < s.len() && s[k] == p.tracks[t].clips[c];
    assert(s[k].spec_end().value_le(latest_end(s)));
}

/// Clip `c` intersects the closed timeline range `[start, end]`.
pub open spec fn in_range(c: ClipDefinition, start: TimeRational, end: TimeRational) -> bool {
    start.value_le(c.spec_end()) && c.timeline_start.value_le(end)
}

/// (track, clip) pairs of `clips` (clips of track `tr`) intersecting `[start, end]`.
pub open spec fn range_hits_in(
    tr: TrackModel,
    clips: Seq<ClipDefinition>,
    start: TimeRational,
    end: TimeRational,
) -> Seq<(TrackModel, ClipDefinition)>
    decreases clips.len(),
{
    if clips.len() == 0 {
        Seq::empty()
    } else {
        let rest = range_hits_in(tr, clips.drop_last(), start, end);
        if in_range(clips.last(), start, end) {
            rest.push((tr, clips.last()))
        } else {
            rest
        }
    }
}

/// (track, clip) pairs of all tracks intersecting `[start, end]`, in track order.
pub open spec fn range_hits(tracks: Seq<TrackModel>, start: TimeRational, end: TimeRational) -> Seq<
    (TrackModel, ClipDefinition),
>
    decreases tracks.len(),
{
    if tracks.len() == 0 {
        Seq::empty()
    } else {
        range_hits(tracks.drop_last(), start, end) + range_hits_in(
            tracks.last(),
            tracks.last().clips,
            start,
            end,
        )
    }
}

impl Project {
    /// Duration of the whole timeline: the latest clip end over all tracks
    /// (zero for an empty timeline).
    pub fn total_duration(&self) -> (r: TimeRational)
        requires
            self.clips_fit(),
        ensures
            r == latest_end(clips_of(self@.tracks)),
    {
        let ghost models = self@.tracks;
        let mut max_dur = TimeRational::zero();
        let mut t: usize = 0;
        assert(models.take(0) =~= Seq::<TrackModel>::empty());
        while t < self.tracks.len()
            invariant
                t <= self.tracks@.len(),
                models == self@.tracks,
                self.clips_fit(),
                max_dur == latest_end(clips_of(models.take(t as int))),
            decreases self.tracks@.len() - t,
        {
            let track = &self.tracks[t];
            let ghost prefix = clips_of(models.take(t as int));
            assert(models[t as int] == track@);
            let mut i: usize = 0;
            assert(prefix + track.clips@.take(0) =~= prefix);
            while i < track.clips.len()
                invariant
                    i <= track.clips@.len(),
                    track == self.tracks@[t as int],
                    t < self.tracks@.len(),
                    self.clips_fit(),
                    max_dur == latest_end(prefix + track.clips@.take(i as int)),
                decreases track.clips@.len() - i,
            {
                let clip = &track.clips[i];
                assert(clip.times_fit());
                let end = clip.timeline_end();
                assert((prefix + track.clips@.take(i + 1)).drop_last() =~= prefix
                    + track.clips@.take(i as int));
                if max_dur.less_than(&end) {
                    max_dur = end;
                }
                i = i + 1;
            }
            assert(track.clips@.take(i as int) =~= track.clips@);
            assert(models.take(t + 1).drop_last() =~= models.take(t as int));
            t = t + 1;
        }
        assert(models.take(t as int) =~= models);
        max_dur
    }

    /// The clips intersecting the closed timeline range `[start, end]`,
    /// each with its track, in track order.
    pub fn clips_in_range(&self, start: TimeRational, end: TimeRational) -> (r: Vec<
        (&TrackDefinition, &ClipDefinition),
    >)
        requires
            self.clips_fit(),
        ensures
            r@.map_values(|p: (&TrackDefinition, &ClipDefinition)| (p.0@, *p.1)) == range_hits(
                self@.tracks,
                start,
                end,
            ),
    {
        let ghost models = self@.tracks;
        let mut result: Vec<(&TrackDefinition, &ClipDefinition)> = Vec::new();
        let mut t: usize = 0;
        assert(models.take(0) =~= Seq::<TrackModel>::empty());
        while t < self.tracks.len()
            invariant
                t <= self.tracks@.len(),
                models == self@.tracks,
                self.clips_fit(),
                result@.map_values(|p: (&TrackDefinition, &ClipDefinition)| (p.0@, *p.1))
                    == range_hits(models.take(t as int), start, end),
            decreases self.tracks@.len() - t,
        {
            let track = &self.tracks[t];
            let ghost prefix = range_hits(models.take(t as int), start, end);
            assert(models[t as int] == track@);
            let mut i: usize = 0;
            assert(range_hits_in(track@, track.clips@.take(0), start, end) =~= Seq::<
                (TrackModel, ClipDefinition),
            >::empty());
            assert(prefix + Seq::<(TrackModel, ClipDefinition)>::empty() =~= prefix);
            while i < track.clips.len()
                invariant
                    i <= track.clips@.len(),
                    track == self.tracks@[t as int],
                    t < self.tracks@.len(),
                    self.clips_fit(),
                    result@.map_values(|p: (&TrackDefinition, &ClipDefinition)| (p.0@, *p.1))
                        == prefix + range_hits_in(track@, track.clips@.take(i as int), start, end),
                decreases track.clips@.len() - i,
            {
                let clip = &track.clips[i];
                assert(clip.times_fit());
                let clip_end = clip.timeline_end();
                assert(track.clips@.take(i + 1).drop_last() =~= track.clips@.take(i as int));
                let ghost old_result = result@;
                if start.at_most(&clip_end) && clip.timeline_start.at_most(&end) {
                    result.push((track, clip));
                    assert(result@.map_values(
                        |p: (&TrackDefinition, &ClipDefinition)| (p.0@, *p.1),
                    ) =~= old_result.map_values(
                        |p: (&TrackDefinition, &ClipDefinition)| (p.0@, *p.1),
                    ).push((track@, *clip)));
                }
                i = i + 1;
            }
            assert(track.clips@.take(i as int) =~= track.clips@);
            assert(models.take(t + 1).drop_last() =~= models.take(t as int));
            t = t + 1;
        }
        assert(models.take(t as int) =~= models);
        result
    }
}


// ---------------------------------------------------------------------------
// Snapping
// ---------------------------------------------------------------------------
/// The one-millisecond margin added to the snapping threshold.
pub open spec fn snap_margin() -> TimeRational {
    crate::time::spec_reduce(TimeRational { num: 1, den: 1000 })
}

/// A snap candidate: an instant and its distance `|instant - target|`.
pub open spec fn candidate(c: TimeRational, target: TimeRational) -> (TimeRational, TimeRational) {
    (c, c.spec_difference(target).spec_abs_value())
}

/// The clip is the one excluded from snapping.
pub open spec fn is_excluded(c: ClipDefinition, exclude: Option<Seq<char>>) -> bool {
    exclude matches Some(x) && c.id@ == x
}

/// Start and end candidates of the clips of one track that are not excluded.
pub open spec fn clip_candidates(
    s: Seq<ClipDefinition>,
    target: TimeRational,
    exclude: Option<Seq<char>>,
) -> Seq<(TimeRational, TimeRational)>
    decreases s.len(),
{
    if s.len() == 0 {
        Seq::empty()
    } else {
        let rest = clip_candidates(s.drop_last(), target, exclude);
        let c = s.last();
        if is_excluded(c, exclude) {
            rest
        } else {
            rest.push(candidate(c.timeline_start, target)).push(candidate(c.spec_end(), target))
        }
    }
}

/// Candidates of all tracks, in track order.
pub open spec fn track_candidates(
    ts: Seq<TrackModel>,
    target: TimeRational,
    exclude: Option<Seq<char>>,
) -> Seq<(TimeRational, TimeRational)>
    decreases ts.len(),
{
    if ts.len() == 0 {
        Seq::empty()
    } else {
        track_candidates(ts.drop_last(), target, exclude) + clip_candidates(
            ts.last().clips,
            target,
            exclude,
        )
    }
}

/// All snap candidates: the timeline origin first, then every clip start
/// and end that is not excluded.
pub open spec fn snap_candidates(
    p: ProjectModel,
    target: TimeRational,
    exclude: Option<Seq<char>>,
) -> Seq<(TimeRational, TimeRational)> {
    seq![(TimeRational { num: 0, den: 1 }, target.spec_abs_value())] + track_candidates(
        p.tracks,
        target,
        exclude,
    )
}

/// Index of the candidate with the smallest distance among those within
/// `threshold`; the earliest such candidate wins ties.
pub open spec fn best_candidate(c: Seq<(TimeRational, TimeRational)>, threshold: TimeRational) -> Option<
    int,
>
    decreases c.len(),
{
    if c.len() == 0 {
        None
    } else {
        let prev = best_candidate(c.drop_last(), threshold);
        let k = c.len() - 1;
        let d = c[k].1;
        if !d.value_le(threshold) {
            prev
        } else {
            match prev {
                None => Some(k),
                Some(j) => if d.value_lt(c[j].1) {
                    Some(k)
                } else {
                    prev
                },
            }
        }
    }
}

/// The chosen candidate is within the threshold and no farther than any
/// other candidate within it; when none is chosen, every candidate is
/// beyond the threshold.
pub proof fn lemma_best_candidate_nearest(c: Seq<(TimeRational, TimeRational)>, threshold: TimeRational)
    requires
        forall|i: int| 0 <= i < c.len() ==> (#[trigger] c[i]).1.wf(),
    ensures
        match best_candidate(c, threshold) {
            None => forall|j: int| 0 <= j < c.len() ==> !(#[trigger] c[j]).1.value_le(threshold),
            Some(k) => {
                &&& 0 <= k < c.len()
                &&& c[k].1.value_le(threshold)
                &&& forall|j: int|
                    0 <= j < c.len() && (#[trigger] c[j]).1.value_le(threshold) ==> c[k].1.value_le(
                        c[j].1,
                    )
            },
        },
    decreases c.len(),
{
    if c.len() > 0 {
        let d = c.drop_last();
        assert forall|i: int| 0 <= i < d.len() implies (#[trigger] d[i]).1.wf() by {
            assert(d[i] == c[i]);
        }
        lemma_best_candidate_nearest(d, threshold);
        assert(forall|i: int| 0 <= i < d.len() ==> d[i] == c[i]);
        let k = c.len() - 1;
        let dk = c[k].1;
        if dk.value_le(threshold) {
            match best_candidate(d, threshold) {
                None => {},
                Some(j0) => {
                    if dk.value_lt(c[j0].1) {
                        assert forall|j: int|
                            0 <= j < c.len() && (#[trigger] c[j]).1.value_le(threshold) implies dk.value_le(
                            c[j].1,
                        ) by {
                            if j < k {
                                assert(c[j0].1.value_le(c[j].1));
                                crate::time::lemma_value_le_transitive(dk, c[j0].1, c[j].1);
                            }
                        }
                    }
                },
            }
        }
    }
}

/// The snapping arithmetic for clip `c` can be carried out.
pub open spec fn snap_fits(c: ClipDefinition, target: TimeRational) -> bool {
    &&& c.timeline_start.sub_fits(target)
    &&& c.spec_end().sub_fits(target)
    &&& c.timeline_start.spec_difference(target).num != i64::MIN
    &&& c.spec_end().spec_difference(target).num != i64::MIN
}

/// State of the snapping scan after the candidates `seen`.
pub open spec fn snap_state(
    seen: Seq<(TimeRational, TimeRational)>,
    target: TimeRational,
    threshold: TimeRational,
    best: TimeRational,
    min_diff: TimeRational,
) -> bool {
    match best_candidate(seen, threshold) {
        None => best == target && min_diff == threshold.spec_sum(snap_margin()),
        Some(k) => 0 <= k < seen.len() && best == seen[k].0 && min_diff == seen[k].1,
    }
}

/// A distance within the threshold is below the threshold plus the margin.
proof fn lemma_below_margin(d: TimeRational, threshold: TimeRational)
    requires
        d.wf(),
        threshold.add_fits(snap_margin()),
        d.value_le(threshold),
    ensures
        d.value_lt(threshold.spec_sum(snap_margin())),
{
    let m = snap_margin();
    let sm = threshold.spec_sum(m);
    crate::time::lemma_sum_value(threshold, m);
    crate::time::lemma_reduce_same_value(TimeRational { num: 1, den: 1000 });
    assert(m.num > 0 && m.den > 0) by (nonlinear_arith)
        requires
            m.num * 1000 == 1 * m.den,
            m.den > 0,
    ;
    let a = threshold.num * sm.den;
    assert(sm.num * threshold.den > threshold.num * sm.den) by (nonlinear_arith)
        requires
            sm.num * (threshold.den * m.den) == (threshold.num * m.den + m.num * threshold.den)
                * sm.den,
            m.num > 0,
            m.den > 0,
            threshold.den > 0,
            sm.den > 0,
    ;
    assert(d.num * sm.den < sm.num * d.den) by (nonlinear_arith)
        requires
            d.num * threshold.den <= threshold.num * d.den,
            sm.num * threshold.den > threshold.num * sm.den,
            d.den > 0,
            threshold.den > 0,
            sm.den > 0,
    ;
}

/// Distances of candidates have positive denominators.
proof fn lemma_candidate_wf(c: TimeRational, target: TimeRational)
    requires
        c.sub_fits(target),
    ensures
        candidate(c, target).1.wf(),
{
    crate::time::lemma_difference_value(c, target);
}

/// One step of the snapping scan.
proof fn lemma_snap_step(
    seen: Seq<(TimeRational, TimeRational)>,
    cand: (TimeRational, TimeRational),
    target: TimeRational,
    threshold: TimeRational,
    best: TimeRational,
    min_diff: TimeRational,
)
    requires
        snap_state(seen, target, threshold, best, min_diff),
        cand.1.wf(),
        threshold.add_fits(snap_margin()),
    ensures
        ({
            let take = cand.1.value_le(threshold) && cand.1.value_lt(min_diff);
            snap_state(
                seen.push(cand),
                target,
                threshold,
                if take {
                    cand.0
                } else {
                    best
                },
                if take {
                    cand.1
                } else {
                    min_diff
                },
            )
        }),
{
    let s2 = seen.push(cand);
    assert(s2.drop_last() =~= seen);
    if cand.1.value_le(threshold) && best_candidate(seen, threshold) is None {
        lemma_below_margin(cand.1, threshold);
    }
}

impl Project {
    /// Snap `target_time` to the nearest clip boundary (start or end) or to
    /// the timeline origin, if one lies within `threshold`; the clip with id
    /// `exclude_clip_id` is ignored. Among equally near boundaries the first
    /// one found wins: the origin, then clips track by track.
    pub fn snap_time(
        &self,
        target_time: TimeRational,
        threshold: TimeRational,
        exclude_clip_id: Option<&str>,
    ) -> (r: TimeRational)
        requires
            self.clips_fit(),
            target_time.wf(),
            target_time.num != i64::MIN,
            threshold.add_fits(snap_margin()),
            forall|t: int, c: int|
                0 <= t < self.tracks@.len() && 0 <= c < self.tracks@[t].clips@.len() && !is_excluded(
                    #[trigger] self.tracks@[t].clips@[c],
                    match exclude_clip_id {
                        Some(x) => Some(x@),
                        None => None,
                    },
                ) ==> snap_fits(self.tracks@[t].clips@[c], target_time),
        ensures
            ({
                let ex = match exclude_clip_id {
                    Some(x) => Some(x@),
                    None => None,
                };
                let cands = snap_candidates(self@, target_time, ex);
                r == match best_candidate(cands, threshold) {
                    Some(k) => cands[k].0,
                    None => target_time,
                }
            }),
            r.wf(),
    {
        let ghost ex = match exclude_clip_id {
            Some(x) => Some(x@),
            None => None,
        };
        let ghost models = self@.tracks;
        let margin = TimeRational::new(1, 1000);
        let mut best_snap = target_time;
        let mut min_diff = threshold.plus(margin);
        let ghost zero_cand = (TimeRational { num: 0, den: 1 }, target_time.spec_abs_value());
        let diff_zero = target_time.abs();
        proof {
            assert(best_candidate(Seq::<(TimeRational, TimeRational)>::empty(), threshold) is None);
            lemma_snap_step(Seq::empty(), zero_cand, target_time, threshold, best_snap, min_diff);
            assert(Seq::<(TimeRational, TimeRational)>::empty().push(zero_cand) =~= seq![zero_cand]);
        }
        if diff_zero.at_most(&threshold) && diff_zero.less_than(&min_diff) {
            min_diff = diff_zero;
            best_snap = TimeRational::zero();
        }
        let mut t: usize = 0;
        assert(models.take(0) =~= Seq::<TrackModel>::empty());
        assert(seq![zero_cand] + track_candidates(models.take(0), target_time, ex) =~= seq![
            zero_cand,
        ]);
        while t < self.tracks.len()
            invariant
                t <= self.tracks@.len(),
                models == self@.tracks,
                self.clips_fit(),
                target_time.wf(),
                threshold.add_fits(snap_margin()),
                ex == (match exclude_clip_id {
                    Some(x) => Some(x@),
                    None => None,
                }),
                zero_cand == (TimeRational { num: 0, den: 1 }, target_time.spec_abs_value()),
                best_snap.wf(),
                forall|t: int, c: int|
                    0 <= t < self.tracks@.len() && 0 <= c < self.tracks@[t].clips@.len()
                        && !is_excluded(#[trigger] self.tracks@[t].clips@[c], ex) ==> snap_fits(
                        self.tracks@[t].clips@[c],
                        target_time,
                    ),
                snap_state(
                    seq![zero_cand] + track_candidates(models.take(t as int), target_time, ex),
                    target_time,
                    threshold,
                    best_snap,
                    min_diff,
                ),
            decreases self.tracks@.len() - t,
        {
            let track = &self.tracks[t];
            let ghost prefix = seq![zero_cand] + track_candidates(
                models.take(t as int),
                target_time,
                ex,
            );
            assert(models[t as int] == track@);
            let mut i: usize = 0;
            assert(clip_candidates(track.clips@.take(0), target_time, ex) =~= Seq::<
                (TimeRational, TimeRational),
            >::empty());
            assert(prefix + Seq::<(TimeRational, TimeRational)>::empty() =~= prefix);
            while i < track.clips.len()
                invariant
                    i <= track.clips@.len(),
                    track == self.tracks@[t as int],
                    t < self.tracks@.len(),
                    self.clips_fit(),
                    target_time.wf(),
                    best_snap.wf(),
                    threshold.add_fits(snap_margin()),
                    ex == (match exclude_clip_id {
                        Some(x) => Some(x@),
                        None => None,
                    }),
                    forall|t: int, c: int|
                        0 <= t < self.tracks@.len() && 0 <= c < self.tracks@[t].clips@.len()
                            && !is_excluded(#[trigger] self.tracks@[t].clips@[c], ex) ==> snap_fits(
                            self.tracks@[t].clips@[c],
                            target_time,
                        ),
                    snap_state(
                        prefix + clip_candidates(track.clips@.take(i as int), target_time, ex),
                        target_time,
                        threshold,
                        best_snap,
                        min_diff,
                    ),
                decreases track.clips@.len() - i,
            {
                let clip = &track.clips[i];
                let ghost seen = prefix + clip_candidates(track.clips@.take(i as int), target_time, ex);
                assert(track.clips@.take(i + 1).drop_last() =~= track.clips@.take(i as int));
                assert(track.clips@.take(i + 1).last() == *clip);
                let skip = match exclude_clip_id {
                    Some(x) => str_eq(clip.id.as_str(), x),
                    None => false,
                };
                if skip {
                    assert(is_excluded(*clip, ex));
                    assert(prefix + clip_candidates(track.clips@.take(i + 1), target_time, ex)
                        =~= seen);
                } else {
                    assert(!is_excluded(*clip, ex));
                    assert(snap_fits(*clip, target_time));
                    assert(clip.times_fit());
                    let start = clip.timeline_start;
                    let diff_start = start.minus(target_time).abs();
                    let ghost c1 = candidate(start, target_time);
                    proof {
                        lemma_candidate_wf(start, target_time);
                        lemma_snap_step(seen, c1, target_time, threshold, best_snap, min_diff);
                    }
                    if diff_start.at_most(&threshold) && diff_start.less_than(&min_diff) {
                        min_diff = diff_start;
                        best_snap = start;
                    }
                    let end = clip.timeline_end();
                    let diff_end = end.minus(target_time).abs();
                    let ghost c2 = candidate(end, target_time);
                    proof {
                        lemma_candidate_wf(end, target_time);
                        lemma_snap_step(
                            seen.push(c1),
                            c2,
                            target_time,
                            threshold,
                            best_snap,
                            min_diff,
                        );
                    }
                    if diff_end.at_most(&threshold) && diff_end.less_than(&min_diff) {
                        min_diff = diff_end;
                        best_snap = end;
                    }
                    assert(prefix + clip_candidates(track.clips@.take(i + 1), target_time, ex)
                        =~= seen.push(c1).push(c2));
                }
                i = i + 1;
            }
            assert(track.clips@.take(i as int) =~= track.clips@);
            assert(models.take(t + 1).drop_last() =~= models.take(t as int));
            assert(seq![zero_cand] + track_candidates(models.take(t + 1), target_time, ex) =~= prefix
                + clip_candidates(track.clips@, target_time, ex));
            t = t + 1;
        }
        assert(models.take(t as int) =~= models);
        best_snap
    }
}

} // verus!
