//! The project model (format version 1): canvas settings, tracks, clips and
//! the source assets they refer to.
//!
//! Fractional quantities (volumes, speeds, crop and transform values) are
//! held in thousandths, so that `1000` stands for `1.0`.
use vstd::prelude::*;
use vstd::string::*;
use crate::time::TimeRational;

verus! {

/// The newest project format version that this library understands.
pub const CURRENT_FORMAT_VERSION: u32 = 1;

/// Canvas aspect ratio presets and custom dimensions.
#[derive(Debug, Clone, Copy, PartialEq, Eq, Structural)]
pub enum CanvasRatio {
    /// 16:9 landscape (1920x1080).
    Landscape16x9,
    /// 9:16 vertical (1080x1920).
    Vertical9x16,
    /// 1:1 square (1080x1080).
    Square1x1,
    /// 4:3 classic (1440x1080).
    Classic4x3,
    /// Custom resolution.
    Custom { width: u32, height: u32 },
}

pub open spec fn ratio_dimensions(r: CanvasRatio) -> (u32, u32) {
    match r {
        CanvasRatio::Landscape16x9 => (1920, 1080),
        CanvasRatio::Vertical9x16 => (1080, 1920),
        CanvasRatio::Square1x1 => (1080, 1080),
        CanvasRatio::Classic4x3 => (1440, 1080),
        CanvasRatio::Custom { width, height } => (width, height),
    }
}

impl CanvasRatio {
    /// Pixel dimensions (width, height) of the canvas.
    pub fn dimensions(self) -> (r: (u32, u32))
        ensures
            r == ratio_dimensions(self),
    {
        match self {
            CanvasRatio::Landscape16x9 => (1920, 1080),
            CanvasRatio::Vertical9x16 => (1080, 1920),
            CanvasRatio::Square1x1 => (1080, 1080),
            CanvasRatio::Classic4x3 => (1440, 1080),
            CanvasRatio::Custom { width, height } => (width, height),
        }
    }

    /// Human-readable label of the preset.
    pub fn label(self) -> (r: &'static str)
        ensures
            r@ == (match self {
                CanvasRatio::Landscape16x9 => "16:9 Landscape (1920x1080)"@,
                CanvasRatio::Vertical9x16 => "9:16 Vertical (1080x1920)"@,
                CanvasRatio::Square1x1 => "1:1 Square (1080x1080)"@,
                CanvasRatio::Classic4x3 => "4:3 Classic (1440x1080)"@,
                CanvasRatio::Custom { .. } => "Custom Dimensions"@,
            }),
    {
        match self {
            CanvasRatio::Landscape16x9 => "16:9 Landscape (1920x1080)",
            CanvasRatio::Vertical9x16 => "9:16 Vertical (1080x1920)",
            CanvasRatio::Square1x1 => "1:1 Square (1080x1080)",
            CanvasRatio::Classic4x3 => "4:3 Classic (1440x1080)",
            CanvasRatio::Custom { .. } => "Custom Dimensions",
        }
    }
}

impl CanvasRatio {
    /// Position of the ratio in the list of presets (16:9, 9:16, 1:1, 4:3);
    /// custom dimensions show as the first preset.
    pub fn preset_index(self) -> (r: u32)
        ensures
            r == (match self {
                CanvasRatio::Landscape16x9 => 0u32,
                CanvasRatio::Vertical9x16 => 1u32,
                CanvasRatio::Square1x1 => 2u32,
                CanvasRatio::Classic4x3 => 3u32,
                CanvasRatio::Custom { .. } => 0u32,
            }),
    {
        match self {
            CanvasRatio::Landscape16x9 => 0,
            CanvasRatio::Vertical9x16 => 1,
            CanvasRatio::Square1x1 => 2,
            CanvasRatio::Classic4x3 => 3,
            CanvasRatio::Custom { .. } => 0,
        }
    }
}

impl Default for CanvasRatio {
    fn default() -> (r: CanvasRatio)
        ensures
            r == CanvasRatio::Landscape16x9,
    {
        CanvasRatio::Landscape16x9
    }
}

/// How content is fitted into a canvas of another aspect ratio.
#[derive(Debug, Clone, Copy, PartialEq, Eq, Structural)]
pub enum FitMode {
    /// Letterbox / pillarbox, keeping the aspect ratio.
    Fit,
    /// Fill the canvas, cropping the excess.
    Fill,
    /// Stretch to the canvas dimensions.
    Stretch,
    /// Center without scaling.
    Center,
}

impl Default for FitMode {
    fn default() -> (r: FitMode)
        ensures
            r == FitMode::Fit,
    {
        FitMode::Fit
    }
}

/// Normalized crop rectangle, in thousandths of the frame (0..=1000).
#[derive(Debug, Clone, Copy, PartialEq, Eq, Default)]
pub struct CropRect {
    pub x: u32,
    pub y: u32,
    pub width: u32,
    pub height: u32,
}

/// Geometric and compositing transform, every field in thousandths.
#[derive(Debug, Clone, Copy, PartialEq, Eq)]
pub struct Transform {
    pub scale_x: i32,
    pub scale_y: i32,
    pub rotation_degrees: i32,
    pub opacity: i32,
    pub position_x: i32,
    pub position_y: i32,
}

impl Default for Transform {
    fn default() -> (r: Transform)
        ensures
            r == (Transform {
                scale_x: 1000,
                scale_y: 1000,
                rotation_degrees: 0,
                opacity: 1000,
                position_x: 0,
                position_y: 0,
            }),
    {
        Transform {
            scale_x: 1000,
            scale_y: 1000,
            rotation_degrees: 0,
            opacity: 1000,
            position_x: 0,
            position_y: 0,
        }
    }
}

/// Built-in image overlay templates.
#[derive(Debug, Clone, Copy, PartialEq, Eq, Structural)]
pub enum ImageTemplate {
    CenterCard,
    FullBleed,
    TopLeftWatermark,
    BottomRightWatermark,
    SplitScreen,
    PictureInPicture,
    IntroTitleCard,
    EndCard,
}

/// Resolution, frame rate and canvas behaviour of a project.
#[derive(Debug, PartialEq)]
pub struct ProjectSettings {
    pub width: u32,
    pub height: u32,
    pub fps_num: u32,
    pub fps_den: u32,
    pub background_color: String,
    /// Default duration of a still image, in milliseconds.
    pub default_image_duration_ms: u64,
    pub fit_mode: FitMode,
}

impl Clone for ProjectSettings {
    fn clone(&self) -> (r: ProjectSettings)
        ensures
            r == *self,
    {
        ProjectSettings {
            width: self.width,
            height: self.height,
            fps_num: self.fps_num,
            fps_den: self.fps_den,
            background_color: self.background_color.clone(),
            default_image_duration_ms: self.default_image_duration_ms,
            fit_mode: self.fit_mode,
        }
    }
}

impl Default for ProjectSettings {
    fn default() -> (r: ProjectSettings)
        ensures
            r.width == 1920,
            r.height == 1080,
            r.fps_num == 30,
            r.fps_den == 1,
            r.background_color@ == "#000000"@,
            r.default_image_duration_ms == 5000,
            r.fit_mode == FitMode::Fit,
    {
        let (width, height) = CanvasRatio::Landscape16x9.dimensions();
        ProjectSettings {
            width,
            height,
            fps_num: 30,
            fps_den: 1,
            background_color: String::from_str("#000000"),
            default_image_duration_ms: 5000,
            fit_mode: FitMode::Fit,
        }
    }
}

/// Kind of media a track carries.
#[derive(Debug, Clone, Copy, PartialEq, Eq, Structural)]
pub enum TrackKind {
    Video,
    Audio,
}

/// A non-destructive clip instance on a track.
#[derive(Debug, PartialEq)]
pub struct ClipDefinition {
    pub id: String,
    pub asset_id: String,
    /// Position of the clip on the timeline.
    pub timeline_start: TimeRational,
    /// In-point (trim start) within the source asset.
    pub in_point: TimeRational,
    /// Out-point (trim end) within the source asset.
    pub out_point: TimeRational,
    /// Audio volume in thousandths (1000 = 100%).
    pub volume_milli: u32,
    /// Whether the clip's audio is muted.
    pub muted: bool,
    /// Playback speed in thousandths (1000 = 1x).
    pub speed_milli: u32,
    /// Audio fade-in duration.
    pub fade_in: Option<TimeRational>,
    /// Audio fade-out duration.
    pub fade_out: Option<TimeRational>,
    /// Optional crop rectangle.
    pub crop: Option<CropRect>,
    /// Optional geometric transform and opacity.
    pub transform: Option<Transform>,
    /// Optional image layout preset.
    pub template: Option<ImageTemplate>,
}

impl Clone for ClipDefinition {
    fn clone(&self) -> (r: ClipDefinition)
        ensures
            r == *self,
    {
        ClipDefinition {
            id: self.id.clone(),
            asset_id: self.asset_id.clone(),
            timeline_start: self.timeline_start,
            in_point: self.in_point,
            out_point: self.out_point,
            volume_milli: self.volume_milli,
            muted: self.muted,
            speed_milli: self.speed_milli,
            fade_in: self.fade_in,
            fade_out: self.fade_out,
            crop: self.crop,
            transform: self.transform,
            template: self.template,
        }
    }
}

impl Default for ClipDefinition {
    fn default() -> (r: ClipDefinition)
        ensures
            r.id@ == Seq::<char>::empty(),
            r.asset_id@ == Seq::<char>::empty(),
            r.timeline_start == (TimeRational { num: 0, den: 1 }),
            r.in_point == (TimeRational { num: 0, den: 1 }),
            r.out_point == (TimeRational { num: 0, den: 1 }),
            r.volume_milli == 1000,
            !r.muted,
            r.speed_milli == 1000,
            r.fade_in.is_none(),
            r.fade_out.is_none(),
            r.crop.is_none(),
            r.transform.is_none(),
            r.template.is_none(),
    {
        ClipDefinition {
            id: String::new(),
            asset_id: String::new(),
            timeline_start: TimeRational::zero(),
            in_point: TimeRational::zero(),
            out_point: TimeRational::zero(),
            volume_milli: 1000,
            muted: false,
            speed_milli: 1000,
            fade_in: None,
            fade_out: None,
            crop: None,
            transform: None,
            template: None,
        }
    }
}

impl ClipDefinition {
    /// The clip's duration and end can be computed without overflow.
    pub open spec fn times_fit(self) -> bool {
        &&& self.timeline_start.wf()
        &&& self.out_point.sub_fits(self.in_point)
        &&& self.timeline_start.add_fits(self.out_point.spec_difference(self.in_point))
    }

    pub open spec fn spec_duration(self) -> TimeRational {
        self.out_point.spec_difference(self.in_point)
    }

    pub open spec fn spec_end(self) -> TimeRational {
        self.timeline_start.spec_sum(self.spec_duration())
    }

    /// A clip at `start` playing the first `duration` of its asset.
    pub fn new(id: &str, asset_id: &str, start: TimeRational, duration: TimeRational) -> (r:
        ClipDefinition)
        ensures
            r.id@ == id@,
            r.asset_id@ == asset_id@,
            r.timeline_start == start,
            r.in_point == (TimeRational { num: 0, den: 1 }),
            r.out_point == duration,
            r.volume_milli == 1000,
            !r.muted,
            r.speed_milli == 1000,
            r.fade_in.is_none(),
            r.fade_out.is_none(),
            r.crop.is_none(),
            r.transform.is_none(),
            r.template.is_none(),
    {
        ClipDefinition {
            id: String::from_str(id),
            asset_id: String::from_str(asset_id),
            timeline_start: start,
            in_point: TimeRational::zero(),
            out_point: duration,
            volume_milli: 1000,
            muted: false,
            speed_milli: 1000,
            fade_in: None,
            fade_out: None,
            crop: None,
            transform: None,
            template: None,
        }
    }

    /// Length of the used part of the source: `out_point - in_point`.
    pub fn duration(&self) -> (r: TimeRational)
        requires
            self.out_point.sub_fits(self.in_point),
        ensures
            r == self.spec_duration(),
    {
        self.out_point.minus(self.in_point)
    }

    /// Where the clip ends on the timeline: `timeline_start + duration`.
    pub fn timeline_end(&self) -> (r: TimeRational)
        requires
            self.times_fit(),
        ensures
            r == self.spec_end(),
    {
        self.timeline_start.plus(self.duration())
    }
}

/// A track holding an ordered sequence of clips.
#[derive(Debug, PartialEq)]
pub struct TrackDefinition {
    pub id: String,
    pub name: String,
    pub kind: TrackKind,
    pub muted: bool,
    /// Track volume in thousandths (1000 = 100%).
    pub volume_milli: u32,
    pub clips: Vec<ClipDefinition>,
}

/// Mathematical model of a track: its fields, with the clips as a sequence.
pub struct TrackModel {
    pub id: Seq<char>,
    pub name: Seq<char>,
    pub kind: TrackKind,
    pub muted: bool,
    pub volume_milli: u32,
    pub clips: Seq<ClipDefinition>,
}

impl View for TrackDefinition {
    type V = TrackModel;

    open spec fn view(&self) -> TrackModel {
        TrackModel {
            id: self.id@,
            name: self.name@,
            kind: self.kind,
            muted: self.muted,
            volume_milli: self.volume_milli,
            clips: self.clips@,
        }
    }
}

impl Clone for TrackDefinition {
    fn clone(&self) -> (r: TrackDefinition)
        ensures
            r@ == self@,
    {
        let clips = self.clips.clone();
        proof {
            assert(clips@ =~= self.clips@);
        }
        TrackDefinition {
            id: self.id.clone(),
            name: self.name.clone(),
            kind: self.kind,
            muted: self.muted,
            volume_milli: self.volume_milli,
            clips,
        }
    }
}

/// Reference to an imported source media file.
#[derive(Debug, PartialEq)]
pub struct AssetReference {
    pub id: String,
    pub file_path: String,
    pub display_name: String,
    pub duration: TimeRational,
    pub width: Option<u32>,
    pub height: Option<u32>,
    pub has_audio: bool,
    pub has_video: bool,
}

impl Clone for AssetReference {
    fn clone(&self) -> (r: AssetReference)
        ensures
            r == *self,
    {
        AssetReference {
            id: self.id.clone(),
            file_path: self.file_path.clone(),
            display_name: self.display_name.clone(),
            duration: self.duration,
            width: self.width,
            height: self.height,
            has_audio: self.has_audio,
            has_video: self.has_video,
        }
    }
}

/// A complete project.
#[derive(Debug, PartialEq)]
pub struct Project {
    pub format_version: u32,
    pub name: String,
    pub settings: ProjectSettings,
    pub assets: Vec<AssetReference>,
    pub tracks: Vec<TrackDefinition>,
}

/// Mathematical model of a project.
pub struct ProjectModel {
    pub format_version: u32,
    pub name: Seq<char>,
    pub settings: ProjectSettings,
    pub assets: Seq<AssetReference>,
    pub tracks: Seq<TrackModel>,
}

impl View for Project {
    type V = ProjectModel;

    open spec fn view(&self) -> ProjectModel {
        ProjectModel {
            format_version: self.format_version,
            name: self.name@,
            settings: self.settings,
            assets: self.assets@,
            tracks: self.tracks@.map_values(|t: TrackDefinition| t@),
        }
    }
}

impl Clone for Project {
    fn clone(&self) -> (r: Project)
        ensures
            r@ == self@,
    {
        let assets = self.assets.clone();
        let tracks = self.tracks.clone();
        proof {
            assert(assets@ =~= self.assets@);
            assert(tracks@.map_values(|t: TrackDefinition| t@) =~= self.tracks@.map_values(
                |t: TrackDefinition| t@,
            ));
        }
        Project {
            format_version: self.format_version,
            name: self.name.clone(),
            settings: self.settings.clone(),
            assets,
            tracks,
        }
    }
}

/// An empty track with the given identity.
fn empty_track(id: &str, name: &str, kind: TrackKind) -> (r: TrackDefinition)
    ensures
        r@.id == id@,
        r@.name == name@,
        r.kind == kind,
        !r.muted,
        r.volume_milli == 1000,
        r@.clips.len() == 0,
{
    TrackDefinition {
        id: String::from_str(id),
        name: String::from_str(name),
        kind,
        muted: false,
        volume_milli: 1000,
        clips: Vec::new(),
    }
}

impl Project {
    /// A new project with default settings, no assets, one empty video track
    /// ("track-v1", "Video 1") and one empty audio track ("track-a1", "Audio 1").
    pub fn new(name: &str) -> (r: Project)
        ensures
            r.format_version == CURRENT_FORMAT_VERSION,
            r@.name == name@,
            r.settings.width == 1920,
            r.settings.height == 1080,
            r.settings.fps_num == 30,
            r.settings.fps_den == 1,
            r.settings.background_color@ == "#000000"@,
            r.settings.default_image_duration_ms == 5000,
            r.settings.fit_mode == FitMode::Fit,
            r@.assets.len() == 0,
            r@.tracks.len() == 2,
            r@.tracks[0].id == "track-v1"@,
            r@.tracks[0].name == "Video 1"@,
            r@.tracks[0].kind == TrackKind::Video,
            r@.tracks[1].id == "track-a1"@,
            r@.tracks[1].name == "Audio 1"@,
            r@.tracks[1].kind == TrackKind::Audio,
            forall|i: int|
                0 <= i < 2 ==> {
                    &&& !(#[trigger] r@.tracks[i]).muted
                    &&& r@.tracks[i].volume_milli == 1000
                    &&& r@.tracks[i].clips.len() == 0
                },
    {
        let mut tracks: Vec<TrackDefinition> = Vec::new();
        tracks.push(empty_track("track-v1", "Video 1", TrackKind::Video));
        tracks.push(empty_track("track-a1", "Audio 1", TrackKind::Audio));
        Project {
            format_version: CURRENT_FORMAT_VERSION,
            name: String::from_str(name),
            settings: ProjectSettings::default(),
            assets: Vec::new(),
            tracks,
        }
    }

    /// Set the canvas to the dimensions of `ratio`; nothing else changes.
    pub fn set_canvas_ratio(&mut self, ratio: CanvasRatio)
        ensures
            final(self)@ == (ProjectModel {
                settings: ProjectSettings {
                    width: ratio_dimensions(ratio).0,
                    height: ratio_dimensions(ratio).1,
                    ..old(self)@.settings
                },
                ..old(self)@
            }),
    {
        let (w, h) = ratio.dimensions();
        self.settings.width = w;
        self.settings.height = h;
    }

    /// Accept a project read from a file only if its format version is one
    /// this library understands.
    pub fn check_format_version(self) -> (r: Result<Project, crate::error::ProjectError>)
        ensures
            self.format_version <= CURRENT_FORMAT_VERSION ==> r == Ok::<Project, crate::error::ProjectError>(self),
            self.format_version > CURRENT_FORMAT_VERSION ==> r == Err::<Project, crate::error::ProjectError>(
                crate::error::ProjectError::UnsupportedVersion {
                    found: self.format_version,
                    supported: CURRENT_FORMAT_VERSION,
                },
            ),
    {
        if self.format_version > CURRENT_FORMAT_VERSION {
            return Err(
                crate::error::ProjectError::UnsupportedVersion {
                    found: self.format_version,
                    supported: CURRENT_FORMAT_VERSION,
                },
            );
        }
        Ok(self)
    }
}

impl Default for Project {
    fn default() -> (r: Project)
        ensures
            r.format_version == CURRENT_FORMAT_VERSION,
            r@.name == "Untitled Project"@,
            r.settings.width == 1920,
            r.settings.height == 1080,
            r.settings.fps_num == 30,
            r.settings.fps_den == 1,
            r.settings.background_color@ == "#000000"@,
            r.settings.default_image_duration_ms == 5000,
            r.settings.fit_mode == FitMode::Fit,
            r@.assets.len() == 0,
            r@.tracks.len() == 2,
            r@.tracks[0].id == "track-v1"@,
            r@.tracks[0].name == "Video 1"@,
            r@.tracks[0].kind == TrackKind::Video,
            r@.tracks[1].id == "track-a1"@,
            r@.tracks[1].name == "Audio 1"@,
            r@.tracks[1].kind == TrackKind::Audio,
            forall|i: int|
                0 <= i < 2 ==> {
                    &&& !(#[trigger] r@.tracks[i]).muted
                    &&& r@.tracks[i].volume_milli == 1000
                    &&& r@.tracks[i].clips.len() == 0
                },
    {
        Project::new("Untitled Project")
    }
}

} // verus!
