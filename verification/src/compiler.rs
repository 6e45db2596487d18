//! Lowering a project to its editing graph, the fast-path (stream copy)
//! eligibility test, and the execution plan of an export.
use vstd::prelude::*;
use vstd::string::*;
use crate::graph::{
    AudioTrackModel, EditorAudioClipNode, EditorAudioTrack, EditorGraph, EditorVideoClipNode,
    EditorVideoTrack, GraphModel, GraphValidationError, VideoTrackModel, graph_validation,
    validate_graph,
};
use crate::operations::{clips_of, latest_end};
use crate::schema::{AssetReference, ClipDefinition, Project, ProjectModel, TrackKind, TrackModel};
use crate::text::{decimal, push_decimal, str_eq};

verus! {

/// Index of the last asset before position `n` with id `id` (the last
/// registration of an id wins).
pub open spec fn asset_before(assets: Seq<AssetReference>, id: Seq<char>, n: int) -> Option<int>
    decreases n,
{
    if n <= 0 || n > assets.len() {
        None
    } else if assets[n - 1].id@ == id {
        Some(n - 1)
    } else {
        asset_before(assets, id, n - 1)
    }
}

pub open spec fn asset_for(assets: Seq<AssetReference>, id: Seq<char>) -> Option<int> {
    asset_before(assets, id, assets.len() as int)
}

/// Media path of a clip: its asset's path, or the asset id itself when the
/// asset is not registered.
pub open spec fn source_path(c: ClipDefinition, assets: Seq<AssetReference>) -> String {
    match asset_for(assets, c.asset_id@) {
        Some(i) => assets[i].file_path,
        None => c.asset_id,
    }
}

/// Graph node of a clip on a video track.
pub open spec fn video_node(c: ClipDefinition, assets: Seq<AssetReference>) -> EditorVideoClipNode {
    EditorVideoClipNode {
        clip_id: c.id,
        asset_id: c.asset_id,
        file_path: source_path(c, assets),
        timeline_start: c.timeline_start,
        timeline_duration: c.spec_duration(),
        source_in: c.in_point,
        source_out: c.out_point,
        speed_milli: c.speed_milli,
        crop: c.crop,
        transform: c.transform,
        template: c.template,
        is_still_image: match asset_for(assets, c.asset_id@) {
            Some(i) => !assets[i].has_video,
            None => false,
        },
    }
}

/// Graph node of a clip on an audio track.
pub open spec fn audio_node(c: ClipDefinition, assets: Seq<AssetReference>) -> EditorAudioClipNode {
    EditorAudioClipNode {
        clip_id: c.id,
        asset_id: c.asset_id,
        file_path: source_path(c, assets),
        timeline_start: c.timeline_start,
        timeline_duration: c.spec_duration(),
        source_in: c.in_point,
        source_out: c.out_point,
        clip_volume_milli: c.volume_milli,
        clip_muted: c.muted,
        fade_in: c.fade_in,
        fade_out: c.fade_out,
    }
}

/// Video tracks of the graph: one per video track of the project, in order.
pub open spec fn video_tracks_of(ts: Seq<TrackModel>, assets: Seq<AssetReference>) -> Seq<
    VideoTrackModel,
>
    decreases ts.len(),
{
    if ts.len() == 0 {
        Seq::empty()
    } else {
        let rest = video_tracks_of(ts.drop_last(), assets);
        let tr = ts.last();
        if tr.kind == TrackKind::Video {
            rest.push(
                VideoTrackModel {
                    id: tr.id,
                    clips: tr.clips.map_values(|c: ClipDefinition| video_node(c, assets)),
                },
            )
        } else {
            rest
        }
    }
}

/// Audio tracks of the graph: one per audio track of the project, in order.
pub open spec fn audio_tracks_of(ts: Seq<TrackModel>, assets: Seq<AssetReference>) -> Seq<
    AudioTrackModel,
>
    decreases ts.len(),
{
    if ts.len() == 0 {
        Seq::empty()
    } else {
        let rest = audio_tracks_of(ts.drop_last(), assets);
        let tr = ts.last();
        if tr.kind == TrackKind::Audio {
            rest.push(
                AudioTrackModel {
                    id: tr.id,
                    track_volume_milli: tr.volume_milli,
                    track_muted: tr.muted,
                    clips: tr.clips.map_values(|c: ClipDefinition| audio_node(c, assets)),
                },
            )
        } else {
            rest
        }
    }
}

/// The editing graph of a project.
pub open spec fn project_graph(p: ProjectModel) -> GraphModel {
    GraphModel {
        canvas_width: p.settings.width,
        canvas_height: p.settings.height,
        fps_num: p.settings.fps_num,
        fps_den: p.settings.fps_den,
        fit_mode: p.settings.fit_mode,
        total_duration: latest_end(clips_of(p.tracks)),
        video_tracks: video_tracks_of(p.tracks, p.assets),
        audio_tracks: audio_tracks_of(p.tracks, p.assets),
    }
}

/// All video nodes of the graph, track by track.
pub open spec fn all_video_nodes(ts: Seq<VideoTrackModel>) -> Seq<EditorVideoClipNode>
    decreases ts.len(),
{
    if ts.len() == 0 {
        Seq::empty()
    } else {
        all_video_nodes(ts.drop_last()) + ts.last().clips
    }
}

/// All audio nodes of the graph, track by track.
pub open spec fn all_audio_nodes(ts: Seq<AudioTrackModel>) -> Seq<EditorAudioClipNode>
    decreases ts.len(),
{
    if ts.len() == 0 {
        Seq::empty()
    } else {
        all_audio_nodes(ts.drop_last()) + ts.last().clips
    }
}

/// The speed differs from 1x by more than one thousandth.
pub open spec fn speed_altered(speed_milli: u32) -> bool {
    speed_milli > 1001 || speed_milli < 999
}

/// The volume differs from 100% by more than one hundredth.
pub open spec fn volume_altered(volume_milli: u32) -> bool {
    volume_milli > 1010 || volume_milli < 990
}

/// A graph can be exported by copying streams: exactly one video clip, with
/// no crop, transform, template or speed change, and at most one audio clip,
/// without fades and at unchanged volume.
pub open spec fn fast_path_eligible(g: GraphModel) -> bool {
    let v = all_video_nodes(g.video_tracks);
    let a = all_audio_nodes(g.audio_tracks);
    &&& v.len() == 1
    &&& v[0].crop is None
    &&& v[0].transform is None
    &&& v[0].template is None
    &&& !speed_altered(v[0].speed_milli)
    &&& a.len() <= 1
    &&& a.len() == 1 ==> {
        &&& a[0].fade_in is None
        &&& a[0].fade_out is None
        &&& !volume_altered(a[0].clip_volume_milli)
    }
}

/// Position of the last registered asset with id `id`.
fn find_asset(assets: &Vec<AssetReference>, id: &str) -> (r: Option<usize>)
    ensures
        r matches Some(i) ==> asset_for(assets@, id@) == Some(i as int) && i < assets@.len(),
        r is None ==> asset_for(assets@, id@) is None,
{
    let mut n = assets.len();
    while n > 0
        invariant
            n <= assets@.len(),
            asset_for(assets@, id@) == asset_before(assets@, id@, n as int),
        decreases n,
    {
        if str_eq(assets[n - 1].id.as_str(), id) {
            return Some(n - 1);
        }
        n = n - 1;
    }
    None
}

fn make_video_node(c: &ClipDefinition, assets: &Vec<AssetReference>) -> (r: EditorVideoClipNode)
    requires
        c.out_point.sub_fits(c.in_point),
    ensures
        r == video_node(*c, assets@),
{
    let found = find_asset(assets, c.asset_id.as_str());
    let (file_path, has_video) = match found {
        Some(i) => (assets[i].file_path.clone(), assets[i].has_video),
        None => (c.asset_id.clone(), true),
    };
    EditorVideoClipNode {
        clip_id: c.id.clone(),
        asset_id: c.asset_id.clone(),
        file_path,
        timeline_start: c.timeline_start,
        timeline_duration: c.duration(),
        source_in: c.in_point,
        source_out: c.out_point,
        speed_milli: c.speed_milli,
        crop: c.crop,
        transform: c.transform,
        template: c.template,
        is_still_image: !has_video,
    }
}

fn make_audio_node(c: &ClipDefinition, assets: &Vec<AssetReference>) -> (r: EditorAudioClipNode)
    requires
        c.out_point.sub_fits(c.in_point),
    ensures
        r == audio_node(*c, assets@),
{
    let found = find_asset(assets, c.asset_id.as_str());
    let file_path = match found {
        Some(i) => assets[i].file_path.clone(),
        None => c.asset_id.clone(),
    };
    EditorAudioClipNode {
        clip_id: c.id.clone(),
        asset_id: c.asset_id.clone(),
        file_path,
        timeline_start: c.timeline_start,
        timeline_duration: c.duration(),
        source_in: c.in_point,
        source_out: c.out_point,
        clip_volume_milli: c.volume_milli,
        clip_muted: c.muted,
        fade_in: c.fade_in,
        fade_out: c.fade_out,
    }
}

/// Compiles projects into editing graphs.
pub struct EditorGraphCompiler;

/// Counts at most two items, remembering the first.
fn count_video_nodes(tracks: &Vec<EditorVideoTrack>) -> (r: (usize, Option<&EditorVideoClipNode>))
    ensures
        ({
            let all = all_video_nodes(tracks@.map_values(|t: EditorVideoTrack| t@));
            &&& r.0 == (if all.len() >= 2 {
                2
            } else {
                all.len()
            })
            &&& all.len() >= 1 ==> (r.1 matches Some(n) && *n == all[0])
        }),
{
    let ghost models = tracks@.map_values(|t: EditorVideoTrack| t@);
    let mut count: usize = 0;
    let mut first: Option<&EditorVideoClipNode> = None;
    let mut t: usize = 0;
    assert(models.take(0) =~= Seq::<VideoTrackModel>::empty());
    while t < tracks.len()
        invariant
            t <= tracks@.len(),
            models == tracks@.map_values(|t: EditorVideoTrack| t@),
            ({
                let all = all_video_nodes(models.take(t as int));
                &&& count == (if all.len() >= 2 {
                    2
                } else {
                    all.len()
                })
                &&& all.len() >= 1 ==> (first matches Some(n) && *n == all[0])
            }),
        decreases tracks@.len() - t,
    {
        let clips = &tracks[t].clips;
        let ghost prefix = all_video_nodes(models.take(t as int));
        let mut i: usize = 0;
        assert(prefix + clips@.take(0) =~= prefix);
        while i < clips.len()
            invariant
                i <= clips@.len(),
                ({
                    let all = prefix + clips@.take(i as int);
                    &&& count == (if all.len() >= 2 {
                        2
                    } else {
                        all.len()
                    })
                    &&& all.len() >= 1 ==> (first matches Some(n) && *n == all[0])
                }),
            decreases clips@.len() - i,
        {
            assert((prefix + clips@.take(i + 1)) =~= (prefix + clips@.take(i as int)).push(
                clips@[i as int],
            ));
            if count == 0 {
                first = Some(&clips[i]);
            }
            if count < 2 {
                count = count + 1;
            }
            i = i + 1;
        }
        assert(clips@.take(i as int) =~= clips@);
        assert(models.take(t + 1).drop_last() =~= models.take(t as int));
        assert(models[t as int].clips == clips@);
        t = t + 1;
    }
    assert(models.take(t as int) =~= models);
    (count, first)
}

/// Counts at most two items, remembering the first.
fn count_audio_nodes(tracks: &Vec<EditorAudioTrack>) -> (r: (usize, Option<&EditorAudioClipNode>))
    ensures
        ({
            let all = all_audio_nodes(tracks@.map_values(|t: EditorAudioTrack| t@));
            &&& r.0 == (if all.len() >= 2 {
                2
            } else {
                all.len()
            })
            &&& all.len() >= 1 ==> (r.1 matches Some(n) && *n == all[0])
        }),
{
    let ghost models = tracks@.map_values(|t: EditorAudioTrack| t@);
    let mut count: usize = 0;
    let mut first: Option<&EditorAudioClipNode> = None;
    let mut t: usize = 0;
    assert(models.take(0) =~= Seq::<AudioTrackModel>::empty());
    while t < tracks.len()
        invariant
            t <= tracks@.len(),
            models == tracks@.map_values(|t: EditorAudioTrack| t@),
            ({
                let all = all_audio_nodes(models.take(t as int));
                &&& count == (if all.len() >= 2 {
                    2
                } else {
                    all.len()
                })
                &&& all.len() >= 1 ==> (first matches Some(n) && *n == all[0])
            }),
        decreases tracks@.len() - t,
    {
        let clips = &tracks[t].clips;
        let ghost prefix = all_audio_nodes(models.take(t as int));
        let mut i: usize = 0;
        assert(prefix + clips@.take(0) =~= prefix);
        while i < clips.len()
            invariant
                i <= clips@.len(),
                ({
                    let all = prefix + clips@.take(i as int);
                    &&& count == (if all.len() >= 2 {
                        2
                    } else {
                        all.len()
                    })
                    &&& all.len() >= 1 ==> (first matches Some(n) && *n == all[0])
                }),
            decreases clips@.len() - i,
        {
            assert((prefix + clips@.take(i + 1)) =~= (prefix + clips@.take(i as int)).push(
                clips@[i as int],
            ));
            if count == 0 {
                first = Some(&clips[i]);
            }
            if count < 2 {
                count = count + 1;
            }
            i = i + 1;
        }
        assert(clips@.take(i as int) =~= clips@);
        assert(models.take(t + 1).drop_last() =~= models.take(t as int));
        assert(models[t as int].clips == clips@);
        t = t + 1;
    }
    assert(models.take(t as int) =~= models);
    (count, first)
}

impl EditorGraphCompiler {
    /// Lower `project` to its editing graph and validate it.
    pub fn compile(project: &Project) -> (r: Result<EditorGraph, GraphValidationError>)
        requires
            project.clips_fit(),
        ensures
            match graph_validation(project_graph(project@)) {
                Ok(()) => r matches Ok(g) && g@ == project_graph(project@),
                Err(e) => r == Err::<EditorGraph, GraphValidationError>(e),
            },
    {
        let ghost models = project@.tracks;
        let ghost assets = project.assets@;
        let mut video_tracks: Vec<EditorVideoTrack> = Vec::new();
        let mut audio_tracks: Vec<EditorAudioTrack> = Vec::new();
        let mut t: usize = 0;
        assert(models.take(0) =~= Seq::<TrackModel>::empty());
        assert(video_tracks@.map_values(|x: EditorVideoTrack| x@) =~= Seq::<VideoTrackModel>::empty());
        assert(audio_tracks@.map_values(|x: EditorAudioTrack| x@) =~= Seq::<AudioTrackModel>::empty());
        while t < project.tracks.len()
            invariant
                t <= project.tracks@.len(),
                models == project@.tracks,
                assets == project.assets@,
                project.clips_fit(),
                video_tracks@.map_values(|x: EditorVideoTrack| x@) == video_tracks_of(
                    models.take(t as int),
                    assets,
                ),
                audio_tracks@.map_values(|x: EditorAudioTrack| x@) == audio_tracks_of(
                    models.take(t as int),
                    assets,
                ),
            decreases project.tracks@.len() - t,
        {
            let track = &project.tracks[t];
            assert(models[t as int] == track@);
            assert(models.take(t + 1).drop_last() =~= models.take(t as int));
            assert(models.take(t + 1).last() == track@);
            match track.kind {
                TrackKind::Video => {
                    let mut nodes: Vec<EditorVideoClipNode> = Vec::new();
                    let mut i: usize = 0;
                    while i < track.clips.len()
                        invariant
                            i <= track.clips@.len(),
                            track == project.tracks@[t as int],
                            t < project.tracks@.len(),
                            assets == project.assets@,
                            project.clips_fit(),
                            nodes@ =~= track.clips@.take(i as int).map_values(
                                |c: ClipDefinition| video_node(c, assets),
                            ),
                        decreases track.clips@.len() - i,
                    {
                        assert(track.clips@[i as int].times_fit());
                        let node = make_video_node(&track.clips[i], &project.assets);
                        nodes.push(node);
                        i = i + 1;
                    }
                    assert(track.clips@.take(i as int) =~= track.clips@);
                    let ghost before = video_tracks@;
                    video_tracks.push(EditorVideoTrack { id: track.id.clone(), clips: nodes });
                    assert(video_tracks@.map_values(|x: EditorVideoTrack| x@) =~= before.map_values(
                        |x: EditorVideoTrack| x@,
                    ).push(
                        VideoTrackModel {
                            id: track.id@,
                            clips: track.clips@.map_values(|c: ClipDefinition| video_node(c, assets)),
                        },
                    ));
                },
                TrackKind::Audio => {
                    let mut nodes: Vec<EditorAudioClipNode> = Vec::new();
                    let mut i: usize = 0;
                    while i < track.clips.len()
                        invariant
                            i <= track.clips@.len(),
                            track == project.tracks@[t as int],
                            t < project.tracks@.len(),
                            assets == project.assets@,
                            project.clips_fit(),
                            nodes@ =~= track.clips@.take(i as int).map_values(
                                |c: ClipDefinition| audio_node(c, assets),
                            ),
                        decreases track.clips@.len() - i,
                    {
                        assert(track.clips@[i as int].times_fit());
                        let node = make_audio_node(&track.clips[i], &project.assets);
                        nodes.push(node);
                        i = i + 1;
                    }
                    assert(track.clips@.take(i as int) =~= track.clips@);
                    let ghost before = audio_tracks@;
                    audio_tracks.push(
                        EditorAudioTrack {
                            id: track.id.clone(),
                            track_volume_milli: track.volume_milli,
                            track_muted: track.muted,
                            clips: nodes,
                        },
                    );
                    assert(audio_tracks@.map_values(|x: EditorAudioTrack| x@) =~= before.map_values(
                        |x: EditorAudioTrack| x@,
                    ).push(
                        AudioTrackModel {
                            id: track.id@,
                            track_volume_milli: track.volume_milli,
                            track_muted: track.muted,
                            clips: track.clips@.map_values(|c: ClipDefinition| audio_node(c, assets)),
                        },
                    ));
                },
            }
            t = t + 1;
        }
        assert(models.take(t as int) =~= models);
        let total_duration = project.total_duration();
        let graph = EditorGraph {
            canvas_width: project.settings.width,
            canvas_height: project.settings.height,
            fps_num: project.settings.fps_num,
            fps_den: project.settings.fps_den,
            fit_mode: project.settings.fit_mode,
            total_duration,
            video_tracks,
            audio_tracks,
        };
        assert(graph@ == project_graph(project@));
        validate_graph(&graph)?;
        Ok(graph)
    }

    /// Whether the graph can be exported by stream copy (see `fast_path_eligible`).
    pub fn is_fast_path_eligible(graph: &EditorGraph) -> (r: bool)
        ensures
            r == fast_path_eligible(graph@),
    {
        let (vcount, vfirst) = count_video_nodes(&graph.video_tracks);
        if vcount != 1 {
            return false;
        }
        let clip = match vfirst {
            Some(c) => c,
            None => {
                return false;
            },
        };
        if clip.crop.is_some() || clip.transform.is_some() || clip.template.is_some() {
            return false;
        }
        if clip.speed_milli > 1001 || clip.speed_milli < 999 {
            return false;
        }
        let (acount, afirst) = count_audio_nodes(&graph.audio_tracks);
        if acount > 0 {
            if acount > 1 {
                return false;
            }
            let a_clip = match afirst {
                Some(c) => c,
                None => {
                    return false;
                },
            };
            if a_clip.fade_in.is_some() || a_clip.fade_out.is_some() {
                return false;
            }
            if a_clip.clip_volume_milli > 1010 || a_clip.clip_volume_milli < 990 {
                return false;
            }
        }
        true
    }
}

/// The export plan derived from a graph.
#[derive(Debug)]
pub struct ExecutionPlan {
    pub mode_name: &'static str,
    pub target_resolution: (u32, u32),
    pub video_filter_desc: Option<String>,
    pub audio_filter_desc: Option<String>,
}

/// The scale-and-pad filter that fits any input into a `w`x`h` canvas.
pub open spec fn scale_pad_filter(w: u32, h: u32) -> Seq<char> {
    "scale="@ + decimal(w as nat) + ":"@ + decimal(h as nat)
        + ":force_original_aspect_ratio=decrease,pad="@ + decimal(w as nat) + ":"@ + decimal(
        h as nat,
    ) + ":(ow-iw)/2:(oh-ih)/2"@
}

/// Plan an export of `graph`: a stream copy needs no filters; a transcode
/// scales and pads video to the canvas and mixes two audio inputs.
pub fn generate_execution_plan(graph: &EditorGraph, is_fast_path: bool) -> (r: ExecutionPlan)
    ensures
        r.mode_name@ == (if is_fast_path {
            "Fast-Path Stream Copy (Lossless Remux)"@
        } else {
            "H.264 Multi-Track Transcode"@
        }),
        r.target_resolution == (graph.canvas_width, graph.canvas_height),
        is_fast_path ==> r.video_filter_desc is None && r.audio_filter_desc is None,
        !is_fast_path ==> (r.video_filter_desc matches Some(v) && v@ == scale_pad_filter(
            graph.canvas_width,
            graph.canvas_height,
        )),
        !is_fast_path ==> (r.audio_filter_desc matches Some(a) && a@
            == "amix=inputs=2:duration=longest:dropout_transition=2"@),
{
    let mode_name = if is_fast_path {
        "Fast-Path Stream Copy (Lossless Remux)"
    } else {
        "H.264 Multi-Track Transcode"
    };
    let w = graph.canvas_width;
    let h = graph.canvas_height;
    let video_filter_desc = if is_fast_path {
        None
    } else {
        let mut s = String::from_str("scale=");
        push_decimal(&mut s, w as u64);
        s.append(":");
        push_decimal(&mut s, h as u64);
        s.append(":force_original_aspect_ratio=decrease,pad=");
        push_decimal(&mut s, w as u64);
        s.append(":");
        push_decimal(&mut s, h as u64);
        s.append(":(ow-iw)/2:(oh-ih)/2");
        assert(s@ =~= scale_pad_filter(w, h));
        Some(s)
    };
    let audio_filter_desc = if is_fast_path {
        None
    } else {
        Some(String::from_str("amix=inputs=2:duration=longest:dropout_transition=2"))
    };
    ExecutionPlan {
        mode_name,
        target_resolution: (w, h),
        video_filter_desc,
        audio_filter_desc,
    }
}

/// Selects the audio tracks of a project.
pub open spec fn audio_track_pred() -> spec_fn(TrackModel) -> bool {
    |t: TrackModel| t.kind == TrackKind::Audio
}

/// Selects the video tracks of a project.
pub open spec fn video_track_kind_pred() -> spec_fn(TrackModel) -> bool {
    |t: TrackModel| t.kind == TrackKind::Video
}

/// An audio node plays clip `c` as the clip asks: same clip, same place on
/// the timeline, same source range, volume, mute flag and fades.
pub open spec fn audio_node_plays(n: EditorAudioClipNode, c: ClipDefinition) -> bool {
    &&& n.clip_id == c.id
    &&& n.asset_id == c.asset_id
    &&& n.timeline_start == c.timeline_start
    &&& n.source_in == c.in_point
    &&& n.source_out == c.out_point
    &&& n.clip_volume_milli == c.volume_milli
    &&& n.clip_muted == c.muted
    &&& n.fade_in == c.fade_in
    &&& n.fade_out == c.fade_out
}

/// A video node shows clip `c` as the clip asks: same clip, same place on
/// the timeline, same source range, speed, crop, transform and template.
pub open spec fn video_node_shows(n: EditorVideoClipNode, c: ClipDefinition) -> bool {
    &&& n.clip_id == c.id
    &&& n.asset_id == c.asset_id
    &&& n.timeline_start == c.timeline_start
    &&& n.source_in == c.in_point
    &&& n.source_out == c.out_point
    &&& n.speed_milli == c.speed_milli
    &&& n.crop == c.crop
    &&& n.transform == c.transform
    &&& n.template == c.template
}

/// The audio track `g` of the graph renders the project track `t`.
pub open spec fn audio_track_renders(g: AudioTrackModel, t: TrackModel) -> bool {
    &&& g.id == t.id
    &&& g.track_muted == t.muted
    &&& g.track_volume_milli == t.volume_milli
    &&& g.clips.len() == t.clips.len()
    &&& forall|j: int| 0 <= j < g.clips.len() ==> audio_node_plays(#[trigger] g.clips[j], t.clips[j])
}

/// The video track `g` of the graph renders the project track `t`.
pub open spec fn video_track_renders(g: VideoTrackModel, t: TrackModel) -> bool {
    &&& g.id == t.id
    &&& g.clips.len() == t.clips.len()
    &&& forall|j: int| 0 <= j < g.clips.len() ==> video_node_shows(#[trigger] g.clips[j], t.clips[j])
}

/// The graph has one audio track for each audio track of the project and
/// one video track for each video track, in the project's order; each
/// carries its project track's id, volume and muted flag, and one node per
/// clip that plays the clip with its own volume, mute flag, fades, timing,
/// speed and framing. Canvas and frame rate are the project's.
pub proof fn lemma_graph_follows_project(p: ProjectModel)
    ensures
        project_graph(p).audio_tracks.len() == p.tracks.filter(audio_track_pred()).len(),
        forall|i: int|
            0 <= i < project_graph(p).audio_tracks.len() ==> audio_track_renders(
                #[trigger] project_graph(p).audio_tracks[i],
                p.tracks.filter(audio_track_pred())[i],
            ),
        project_graph(p).video_tracks.len() == p.tracks.filter(video_track_kind_pred()).len(),
        forall|i: int|
            0 <= i < project_graph(p).video_tracks.len() ==> video_track_renders(
                #[trigger] project_graph(p).video_tracks[i],
                p.tracks.filter(video_track_kind_pred())[i],
            ),
        project_graph(p).canvas_width == p.settings.width,
        project_graph(p).canvas_height == p.settings.height,
        project_graph(p).fps_num == p.settings.fps_num,
        project_graph(p).fps_den == p.settings.fps_den,
{
    lemma_audio_tracks_filter(p.tracks, p.assets);
    lemma_video_tracks_filter(p.tracks, p.assets);
}

/// The graph lasts at least until every clip of the project has ended.
pub proof fn lemma_graph_duration_covers_clips(p: ProjectModel, t: int, c: int)
    requires
        forall|a: int, b: int|
            0 <= a < p.tracks.len() && 0 <= b < p.tracks[a].clips.len()
                ==> (#[trigger] p.tracks[a].clips[b]).times_fit(),
        0 <= t < p.tracks.len(),
        0 <= c < p.tracks[t].clips.len(),
    ensures
        p.tracks[t].clips[c].spec_end().value_le(project_graph(p).total_duration),
{
    crate::operations::lemma_total_duration_covers_clips(p, t, c);
}

proof fn lemma_audio_tracks_filter(ts: Seq<TrackModel>, assets: Seq<AssetReference>)
    ensures
        audio_tracks_of(ts, assets).len() == ts.filter(audio_track_pred()).len(),
        forall|i: int|
            0 <= i < audio_tracks_of(ts, assets).len() ==> audio_track_renders(
                #[trigger] audio_tracks_of(ts, assets)[i],
                ts.filter(audio_track_pred())[i],
            ),
    decreases ts.len(),
{
    reveal(Seq::filter);
    if ts.len() > 0 {
        lemma_audio_tracks_filter(ts.drop_last(), assets);
        let rest = audio_tracks_of(ts.drop_last(), assets);
        let fr = ts.drop_last().filter(audio_track_pred());
        assert(ts.filter(audio_track_pred()) == if ts.last().kind == TrackKind::Audio {
            fr.push(ts.last())
        } else {
            fr
        });
        if ts.last().kind == TrackKind::Audio {
            let all = audio_tracks_of(ts, assets);
            assert forall|i: int| 0 <= i < all.len() implies audio_track_renders(
                #[trigger] all[i],
                ts.filter(audio_track_pred())[i],
            ) by {
                if i < rest.len() {
                    assert(all[i] == rest[i]);
                } else {
                    let g = all[i];
                    assert forall|j: int| 0 <= j < g.clips.len() implies audio_node_plays(
                        #[trigger] g.clips[j],
                        ts.last().clips[j],
                    ) by {}
                }
            }
        }
    }
}

proof fn lemma_video_tracks_filter(ts: Seq<TrackModel>, assets: Seq<AssetReference>)
    ensures
        video_tracks_of(ts, assets).len() == ts.filter(video_track_kind_pred()).len(),
        forall|i: int|
            0 <= i < video_tracks_of(ts, assets).len() ==> video_track_renders(
                #[trigger] video_tracks_of(ts, assets)[i],
                ts.filter(video_track_kind_pred())[i],
            ),
    decreases ts.len(),
{
    reveal(Seq::filter);
    if ts.len() > 0 {
        lemma_video_tracks_filter(ts.drop_last(), assets);
        let rest = video_tracks_of(ts.drop_last(), assets);
        let fr = ts.drop_last().filter(video_track_kind_pred());
        assert(ts.filter(video_track_kind_pred()) == if ts.last().kind == TrackKind::Video {
            fr.push(ts.last())
        } else {
            fr
        });
        if ts.last().kind == TrackKind::Video {
            let all = video_tracks_of(ts, assets);
            assert forall|i: int| 0 <= i < all.len() implies video_track_renders(
                #[trigger] all[i],
                ts.filter(video_track_kind_pred())[i],
            ) by {
                if i < rest.len() {
                    assert(all[i] == rest[i]);
                } else {
                    let g = all[i];
                    assert forall|j: int| 0 <= j < g.clips.len() implies video_node_shows(
                        #[trigger] g.clips[j],
                        ts.last().clips[j],
                    ) by {}
                }
            }
        }
    }
}

} // verus!
