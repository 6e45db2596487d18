//! Imported media assets: their analysis status and metadata, and the
//! requests sent to the background analysis worker.
use vstd::prelude::*;
use vstd::string::*;
use crate::text::{decimal, push_decimal};
use crate::cache::{hex_lower, key_material, sha256_digest, DiskCacheManager};
use crate::time::TimeRational;

verus! {

/// Progress of an asset's analysis.
#[derive(Debug, Clone, PartialEq, Eq)]
pub enum AssetStatus {
    Pending,
    Probing,
    Ready,
    Failed(String),
}

/// The primary video stream of an asset.
#[derive(Debug, Clone, PartialEq)]
pub struct VideoStreamInfo {
    pub codec: String,
    pub width: u32,
    pub height: u32,
    pub frame_rate: TimeRational,
    pub pixel_format: String,
}

/// The primary audio stream of an asset.
#[derive(Debug, Clone, PartialEq, Eq)]
pub struct AudioStreamInfo {
    pub codec: String,
    pub sample_rate: u32,
    pub channels: u16,
    pub channel_layout: String,
}

/// Metadata of an analysed asset.
#[derive(Debug, Clone, PartialEq)]
pub struct MediaMetadata {
    pub format_name: String,
    pub duration: TimeRational,
    pub video: Option<VideoStreamInfo>,
    pub audio: Option<AudioStreamInfo>,
}

/// A media file registered for use in a project.
#[derive(Debug, Clone, PartialEq)]
pub struct MediaAsset {
    pub id: String,
    pub file_path: String,
    pub file_name: String,
    pub file_size_bytes: u64,
    pub modified_timestamp: u64,
    pub status: AssetStatus,
    pub metadata: Option<MediaMetadata>,
    pub thumbnail_key: Option<String>,
    pub waveform_key: Option<String>,
}

/// Request to analyse a media file in the background.
#[derive(Debug, Clone, PartialEq, Eq)]
pub struct IngestRequest {
    pub asset_id: String,
    pub path: String,
    pub modified_timestamp: u64,
    pub file_size: u64,
    pub extract_thumbnail: bool,
    pub extract_waveform: bool,
}

/// The id of an asset: `asset_<modified>_<size>`.
pub open spec fn asset_id_text(modified: u64, size: u64) -> Seq<char> {
    "asset_"@ + decimal(modified as nat) + "_"@ + decimal(size as nat)
}

impl MediaAsset {
    /// A pending asset for the file at `path`, given what the file system
    /// reported of it: its final name component (if any), size and
    /// modification time in seconds since the epoch.
    pub fn pending(path: &str, file_name: Option<String>, file_size_bytes: u64, modified_timestamp: u64) -> (r:
        MediaAsset)
        ensures
            r.id@ == asset_id_text(modified_timestamp, file_size_bytes),
            r.file_path@ == path@,
            r.file_name@ == (match file_name {
                Some(n) => n@,
                None => "unnamed_media"@,
            }),
            r.file_size_bytes == file_size_bytes,
            r.modified_timestamp == modified_timestamp,
            r.status == AssetStatus::Pending,
            r.metadata is None,
            r.thumbnail_key is None,
            r.waveform_key is None,
    {
        let mut id = String::from_str("asset_");
        push_decimal(&mut id, modified_timestamp);
        id.append("_");
        push_decimal(&mut id, file_size_bytes);
        assert(id@ =~= asset_id_text(modified_timestamp, file_size_bytes));
        let name = match file_name {
            Some(n) => n,
            None => String::from_str("unnamed_media"),
        };
        MediaAsset {
            id,
            file_path: String::from_str(path),
            file_name: name,
            file_size_bytes,
            modified_timestamp,
            status: AssetStatus::Pending,
            metadata: None,
            thumbnail_key: None,
            waveform_key: None,
        }
    }

    /// Analysis has completed successfully.
    pub fn is_ready(&self) -> (r: bool)
        ensures
            r == (self.status is Ready),
    {
        match self.status {
            AssetStatus::Ready => true,
            _ => false,
        }
    }
}

impl IngestRequest {
    /// Cache key of the request's thumbnail (160x90, taken at 0.5 s).
    pub fn thumbnail_key(&self) -> (r: String)
        ensures
            r@ == hex_lower(
                sha256_digest(
                    key_material(
                        self.path@,
                        self.modified_timestamp,
                        self.file_size,
                        "thumb_w160_h90_t0.5"@,
                    ),
                ),
            ),
    {
        DiskCacheManager::generate_key(
            self.path.as_str(),
            self.modified_timestamp,
            self.file_size,
            "thumb_w160_h90_t0.5",
        )
    }

    /// Cache key of the request's waveform envelope (50 bins).
    pub fn waveform_key(&self) -> (r: String)
        ensures
            r@ == hex_lower(
                sha256_digest(
                    key_material(self.path@, self.modified_timestamp, self.file_size, "wave_bins50"@),
                ),
            ),
    {
        DiskCacheManager::generate_key(
            self.path.as_str(),
            self.modified_timestamp,
            self.file_size,
            "wave_bins50",
        )
    }
}

} // verus!
