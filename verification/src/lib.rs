//! Per-file media analysis: classification, keyword extraction, numeric
//! enrichment, preview planning, and merging of remote enrichment results.

use vstd::prelude::*;

pub mod ai;
pub mod analyse;
pub mod chars;
pub mod classify;
pub mod keywords;
pub mod exif;
pub mod pdf;
pub mod preview;
pub mod video;

verus! {

/// The closed set of media kinds a file can be classified as.
#[derive(Clone, Copy, PartialEq, Eq, Structural, Debug)]
pub enum FileType {
    Pdf,
    Image,
    Video,
    Other,
}

/// An input descriptor: a display name (used for extension and keyword
/// derivation) and a filesystem location.
pub struct LoadedFile {
    pub name: String,
    pub path: String,
}

/// Filesystem-level facts about one file; every field may be unavailable.
pub struct Metadata {
    pub file_type: String,
    pub mime: Option<String>,
    pub size_bytes: Option<u64>,
    pub created_at: Option<String>,
    pub modified_at: Option<String>,
}

/// A frame rate as an exact rational; the denominator is never zero.
#[derive(Clone, Copy, PartialEq, Eq, Structural, Debug)]
pub struct Fps {
    pub num: u64,
    pub den: u64,
}

/// Numeric facts for a video file. The duration is kept in integral
/// milliseconds so that absence is never confused with zero.
pub struct Video {
    pub width: Option<u32>,
    pub height: Option<u32>,
    pub duration_ms: Option<u64>,
    pub fps: Option<Fps>,
    pub codec: Option<String>,
}

/// Numeric facts for a PDF file. Page geometry is kept in integral
/// thousandths of a point (millipoints).
pub struct PDF {
    pub page_count: Option<u32>,
    pub page0_width_mpt: Option<i64>,
    pub page0_height_mpt: Option<i64>,
}

/// Numeric facts for an image file; `phash` and `dominant_colors` are
/// reserved and stay unset.
pub struct Image {
    pub width: Option<u32>,
    pub height: Option<u32>,
    pub exif_datetime: Option<String>,
    pub phash: Option<String>,
    pub dominant_colors: Vec<String>,
}

/// Semantic fields: tags and topics come only from remote enrichment;
/// `raw_keywords` is seeded locally and may be augmented remotely.
pub struct Tagging {
    pub tags: Vec<String>,
    pub topics: Vec<String>,
    pub raw_keywords: Vec<String>,
}

/// A rename suggestion. The confidence is kept in integral thousandths
/// (a value of 1000 stands for full confidence).
pub struct Suggested {
    pub rename: String,
    pub reason: String,
    pub confidence_permille: u32,
}

/// The output record: one per analysed file.
pub struct MediaAnalysis {
    pub meta: Metadata,
    pub video: Video,
    pub pdf: PDF,
    pub image: Image,
    pub tagging: Tagging,
    pub suggested: Suggested,
}

/// All image facts absent.
pub open spec fn image_unset(i: Image) -> bool {
    i.width is None && i.height is None && i.exif_datetime is None && i.phash is None
        && i.dominant_colors@.len() == 0
}

/// All video facts absent.
pub open spec fn video_unset(v: Video) -> bool {
    v.width is None && v.height is None && v.duration_ms is None && v.fps is None
        && v.codec is None
}

/// All PDF facts absent.
pub open spec fn pdf_unset(p: PDF) -> bool {
    p.page_count is None && p.page0_width_mpt is None && p.page0_height_mpt is None
}

/// No suggestion present.
pub open spec fn suggested_unset(s: Suggested) -> bool {
    s.rename@.len() == 0 && s.reason@.len() == 0 && s.confidence_permille == 0
}

impl Image {
    /// A record with every fact absent.
    pub fn unset() -> (r: Image)
        ensures
            image_unset(r),
    {
        Image {
            width: None,
            height: None,
            exif_datetime: None,
            phash: None,
            dominant_colors: Vec::new(),
        }
    }
}

impl Video {
    /// A record with every fact absent.
    pub fn unset() -> (r: Video)
        ensures
            video_unset(r),
    {
        Video { width: None, height: None, duration_ms: None, fps: None, codec: None }
    }
}

impl PDF {
    /// A record with every fact absent.
    pub fn unset() -> (r: PDF)
        ensures
            pdf_unset(r),
    {
        PDF { page_count: None, page0_width_mpt: None, page0_height_mpt: None }
    }
}

impl Suggested {
    /// The empty suggestion.
    pub fn unset() -> (r: Suggested)
        ensures
            suggested_unset(r),
    {
        Suggested { rename: String::new(), reason: String::new(), confidence_permille: 0 }
    }
}

} // verus!
