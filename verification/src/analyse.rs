//! The per-file analysis orchestrator: assembles one output record from
//! the classification, the gathered facts of the matching kind, the seeded
//! keywords, and an optional enrichment response; and the batch entry
//! point, which analyses each file independently.

use vstd::prelude::*;
use crate::ai::{merge_ai, merge_ci, AiResponse};
use crate::chars::view_opt;
use crate::classify::{classify, get_type, kind_tag, type_tag};
use crate::exif::{apply_exif, exif_datetime_of, exif_keywords_of, ExifEntry};
use crate::keywords::{gather_keywords, gathered_from, views};
use crate::pdf::{pdf_facts, pdf_height_of, pdf_width_of, PdfFacts};
use crate::video::{video_facts, video_facts_of, FfProbe};
use crate::{image_unset, pdf_unset, suggested_unset, video_unset, FileType, Image, LoadedFile,
    MediaAnalysis, Metadata, Suggested, Tagging, Video, PDF};

verus! {

/// A name for what the content-type sniffer returns for a path: a
/// function of the path's characters alone.
pub uninterp spec fn mime_of(path: Seq<char>) -> Option<Seq<char>>;

/// Relies on mime_guess::from_path and MimeGuess::first_raw: the
/// best-effort content type, guessed from the path's extension alone.
#[verifier::external_body]
pub fn guess_mime(path: &str) -> (r: Option<String>)
    ensures
        view_opt(r) == mime_of(path@),
{
    mime_guess::MimeGuess::from_path(std::path::Path::new(path))
        .first_raw()
        .map(|s| s.to_string())
}

/// Filesystem metadata gathered for one file; absent when unavailable.
pub struct FsFacts {
    pub size_bytes: Option<u64>,
    pub created_at: Option<String>,
    pub modified_at: Option<String>,
}

/// Everything gathered about one file before assembly. Facts of a kind
/// other than the classified one are ignored.
pub struct ProbeFacts {
    pub fs: FsFacts,
    pub image_dims: Option<(u32, u32)>,
    pub exif: Vec<ExifEntry>,
    pub ffprobe: Option<FfProbe>,
    pub pdf: Option<PdfFacts>,
}

/// One item of a batch: the file and what was gathered for it.
pub struct AnalysisInput {
    pub file: LoadedFile,
    pub probe: ProbeFacts,
    pub ai: Option<AiResponse>,
}

/// The complete statement of what one output record holds, given the
/// file, the gathered facts, and the optional enrichment response.
pub open spec fn analysis_ok(
    file: LoadedFile,
    probe: ProbeFacts,
    ai: Option<AiResponse>,
    m: MediaAnalysis,
) -> bool {
    let kind = classify(file.name@);
    &&& m.meta.file_type@ == kind_tag(kind)
    &&& view_opt(m.meta.mime) == mime_of(file.path@)
    &&& m.meta.size_bytes == probe.fs.size_bytes
    &&& view_opt(m.meta.created_at) == view_opt(probe.fs.created_at)
    &&& view_opt(m.meta.modified_at) == view_opt(probe.fs.modified_at)
    &&& (kind == FileType::Image ==> {
        &&& video_unset(m.video)
        &&& pdf_unset(m.pdf)
        &&& m.image.width == (match probe.image_dims {
            Some(d) => Some(d.0),
            None => None,
        })
        &&& m.image.height == (match probe.image_dims {
            Some(d) => Some(d.1),
            None => None,
        })
        &&& view_opt(m.image.exif_datetime) == exif_datetime_of(None, probe.exif@)
        &&& m.image.phash is None
        &&& m.image.dominant_colors@.len() == 0
    })
    &&& (kind == FileType::Video ==> {
        &&& image_unset(m.image)
        &&& pdf_unset(m.pdf)
        &&& (match probe.ffprobe {
            Some(p) => {
                &&& m.video.width == video_facts_of(p).width
                &&& m.video.height == video_facts_of(p).height
                &&& m.video.duration_ms == video_facts_of(p).duration_ms
                &&& m.video.fps == video_facts_of(p).fps
                &&& view_opt(m.video.codec) == view_opt(video_facts_of(p).codec)
            },
            None => video_unset(m.video),
        })
    })
    &&& (kind == FileType::Pdf ==> {
        &&& image_unset(m.image)
        &&& video_unset(m.video)
        &&& (match probe.pdf {
            Some(pf) => {
                &&& m.pdf.page_count == Some(pf.page_count)
                &&& m.pdf.page0_width_mpt == pdf_width_of(pf)
                &&& m.pdf.page0_height_mpt == pdf_height_of(pf)
            },
            None => pdf_unset(m.pdf),
        })
    })
    &&& (kind == FileType::Other ==> image_unset(m.image) && video_unset(m.video) && pdf_unset(
        m.pdf,
    ))
    &&& (exists|seed: Seq<String>|
        {
            &&& #[trigger] gathered_from(seed, file.name@)
            &&& ({
                let local = if kind == FileType::Image {
                    exif_keywords_of(views(seed), probe.exif@)
                } else {
                    views(seed)
                };
                views(m.tagging.raw_keywords@) == (match ai {
                    Some(a) => match a.raw_keywords {
                        Some(ks) => merge_ci(local, views(ks@)),
                        None => local,
                    },
                    None => local,
                })
            })
        })
    &&& (match ai {
        Some(a) => match a.tags {
            Some(ts) => if ts@.len() > 0 {
                m.tagging.tags@ == ts@
            } else {
                m.tagging.tags@.len() == 0
            },
            None => m.tagging.tags@.len() == 0,
        },
        None => m.tagging.tags@.len() == 0,
    })
    &&& (match ai {
        Some(a) => match a.topics {
            Some(ts) => if ts@.len() > 0 {
                m.tagging.topics@ == ts@
            } else {
                m.tagging.topics@.len() == 0
            },
            None => m.tagging.topics@.len() == 0,
        },
        None => m.tagging.topics@.len() == 0,
    })
    &&& (match ai {
        Some(a) => match a.suggested {
            Some(s) => if s.rename@.len() > 0 {
                m.suggested.rename@ == s.rename@ && m.suggested.reason@ == s.reason@
                    && m.suggested.confidence_permille == s.confidence_permille
            } else {
                suggested_unset(m.suggested)
            },
            None => suggested_unset(m.suggested),
        },
        None => suggested_unset(m.suggested),
    })
}

/// A copy of an optional string.
fn clone_opt_string(o: &Option<String>) -> (r: Option<String>)
    ensures
        r == *o,
{
    match o {
        Some(s) => Some(s.clone()),
        None => None,
    }
}

/// Analyses one file from its gathered facts: classifies it, records the
/// filesystem metadata, fills exactly the numeric sub-record of the
/// classified kind, seeds keywords from the name (folding in capture
/// metadata for images), and merges the optional enrichment response.
pub fn analyse_single(file: &LoadedFile, probe: &ProbeFacts, ai: Option<&AiResponse>) -> (m:
    MediaAnalysis)
    ensures
        analysis_ok(
            *file,
            *probe,
            match ai {
                Some(a) => Some(*a),
                None => None,
            },
            m,
        ),
{
    let mime = guess_mime(file.path.as_str());
    let t = get_type(file.name.as_str());
    let meta = Metadata {
        file_type: type_tag(t),
        mime,
        size_bytes: probe.fs.size_bytes,
        created_at: clone_opt_string(&probe.fs.created_at),
        modified_at: clone_opt_string(&probe.fs.modified_at),
    };
    let mut m = MediaAnalysis {
        meta,
        video: Video::unset(),
        pdf: PDF::unset(),
        image: Image::unset(),
        tagging: Tagging { tags: Vec::new(), topics: Vec::new(), raw_keywords: Vec::new() },
        suggested: Suggested::unset(),
    };
    let mut seed = gather_keywords(file.name.as_str());
    let ghost seed0 = seed@;
    match t {
        FileType::Image => {
            match probe.image_dims {
                Some((w, h)) => {
                    m.image.width = Some(w);
                    m.image.height = Some(h);
                },
                None => {},
            }
            apply_exif(&mut m.image, &mut seed, &probe.exif);
        },
        FileType::Video => {
            match &probe.ffprobe {
                Some(p) => {
                    m.video = video_facts(p);
                },
                None => {},
            }
        },
        FileType::Pdf => {
            match &probe.pdf {
                Some(pf) => {
                    m.pdf = pdf_facts(pf);
                },
                None => {},
            }
        },
        FileType::Other => {},
    }
    m.tagging.raw_keywords = seed;
    match ai {
        Some(a) => {
            merge_ai(&mut m.tagging, &mut m.suggested, a);
        },
        None => {},
    }
    proof {
        assert(gathered_from(seed0, file.name@));
    }
    m
}

/// Analyses a batch: one record per input, index-aligned, each computed
/// from its own item alone — a degraded or empty probe for one item never
/// affects another's record.
pub fn analyse_batch(items: &Vec<AnalysisInput>) -> (rs: Vec<MediaAnalysis>)
    ensures
        rs@.len() == items@.len(),
        forall|i: int|
            0 <= i < items@.len() ==> analysis_ok(
                (#[trigger] items@[i]).file,
                items@[i].probe,
                items@[i].ai,
                rs@[i],
            ),
{
    let mut rs: Vec<MediaAnalysis> = Vec::new();
    let mut i: usize = 0;
    while i < items.len()
        invariant
            i <= items@.len(),
            rs@.len() == i,
            forall|j: int|
                0 <= j < i ==> analysis_ok(
                    (#[trigger] items@[j]).file,
                    items@[j].probe,
                    items@[j].ai,
                    rs@[j],
                ),
        decreases items@.len() - i,
    {
        let item = &items[i];
        let r = analyse_single(&item.file, &item.probe, item.ai.as_ref());
        rs.push(r);
        i = i + 1;
    }
    rs
}

} // verus!
