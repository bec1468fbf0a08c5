//! Preview planning and the computation parts of preview building: which
//! preview to build for a file, the downscaled target dimensions, and the
//! deterministic ordering and encoding of sampled video frames.

use vstd::prelude::*;
use vstd::arithmetic::div_mod::lemma_fundamental_div_mod;
use crate::chars::{lex_lt, lower_seq, str_chars_eq, str_lex_lt, str_starts_with};
use crate::classify::{is_image_ext, is_video_ext, lower_ext_of, lower_ext_string};
use crate::LoadedFile;

verus! {

/// The fixed cap on the longer side of an image preview, in pixels.
pub const IMAGE_MAX_SIDE: u32 = 2048;

/// The fixed sample rate for video frames, in frames per second.
pub const FRAME_SAMPLE_FPS: u32 = 1;

/// The fixed scale width for sampled video frames, in pixels.
pub const FRAME_SCALE_WIDTH: u32 = 512;

/// The fixed cap on the number of sampled video frames.
pub const MAX_FRAMES: u32 = 6;

/// The fixed cap on the width of a rasterized PDF page preview, in pixels.
pub const PDF_WIDTH_CAP: u32 = 1400;

/// What preview to build for a file, with the fixed parameters of each
/// kind.
#[derive(Clone, Copy, PartialEq, Eq, Structural, Debug)]
pub enum PreviewPlan {
    ImagePlan { max_side: u32 },
    VideoPlan { sample_fps: u32, scale_width: u32, max_frames: u32 },
    PdfPlan { width_cap: u32 },
    NoPreview,
}

/// `s` begins with `p`.
pub open spec fn starts_with_spec(s: Seq<char>, p: Seq<char>) -> bool {
    s.len() >= p.len() && s.take(p.len() as int) == p
}

/// The lower-cased content type used for the preview decision: the sniffed
/// type when present, empty otherwise.
pub open spec fn mime_chars(mime: Option<Seq<char>>) -> Seq<char> {
    match mime {
        Some(m) => lower_seq(m),
        None => Seq::empty(),
    }
}

/// The preview decision: an image preview for image content types or
/// extensions, sampled frames for video, a rasterized first page for PDF,
/// and no preview otherwise.
pub open spec fn preview_plan_of(name: Seq<char>, mime: Option<Seq<char>>) -> PreviewPlan {
    let m = mime_chars(mime);
    let e = lower_ext_of(name);
    if starts_with_spec(m, "image/"@) || is_image_ext(e) {
        PreviewPlan::ImagePlan { max_side: IMAGE_MAX_SIDE }
    } else if starts_with_spec(m, "video/"@) || is_video_ext(e) {
        PreviewPlan::VideoPlan {
            sample_fps: FRAME_SAMPLE_FPS,
            scale_width: FRAME_SCALE_WIDTH,
            max_frames: MAX_FRAMES,
        }
    } else if m == "application/pdf"@ || e == "pdf"@ {
        PreviewPlan::PdfPlan { width_cap: PDF_WIDTH_CAP }
    } else {
        PreviewPlan::NoPreview
    }
}

/// Chooses which preview to build for a file, from its sniffed content
/// type and its name's extension.
pub fn prepare_media_previews(file: &LoadedFile, mime: Option<&str>) -> (plan: PreviewPlan)
    ensures
        plan == preview_plan_of(
            file.name@,
            match mime {
                Some(m) => Some(m@),
                None => None,
            },
        ),
{
    let ml = match mime {
        Some(m) => crate::chars::lower_str(m),
        None => String::new(),
    };
    let ext = lower_ext_string(file.name.as_str());
    proof {
        reveal_strlit("image/");
        reveal_strlit("video/");
        reveal_strlit("application/pdf");
        reveal_strlit("pdf");
        reveal_strlit("png");
        reveal_strlit("jpg");
        reveal_strlit("jpeg");
        reveal_strlit("gif");
        reveal_strlit("bmp");
        reveal_strlit("webp");
        reveal_strlit("mp4");
        reveal_strlit("mov");
        reveal_strlit("avi");
        reveal_strlit("mkv");
        reveal_strlit("webm");
    }
    let e = ext.as_str();
    let is_image = str_starts_with(ml.as_str(), "image/") || str_chars_eq(e, "png")
        || str_chars_eq(e, "jpg") || str_chars_eq(e, "jpeg") || str_chars_eq(e, "gif")
        || str_chars_eq(e, "bmp") || str_chars_eq(e, "webp");
    let is_video = str_starts_with(ml.as_str(), "video/") || str_chars_eq(e, "mp4")
        || str_chars_eq(e, "mov") || str_chars_eq(e, "avi") || str_chars_eq(e, "mkv")
        || str_chars_eq(e, "webm");
    let is_pdf = str_chars_eq(ml.as_str(), "application/pdf") || str_chars_eq(e, "pdf");
    if is_image {
        PreviewPlan::ImagePlan { max_side: IMAGE_MAX_SIDE }
    } else if is_video {
        PreviewPlan::VideoPlan {
            sample_fps: FRAME_SAMPLE_FPS,
            scale_width: FRAME_SCALE_WIDTH,
            max_frames: MAX_FRAMES,
        }
    } else if is_pdf {
        PreviewPlan::PdfPlan { width_cap: PDF_WIDTH_CAP }
    } else {
        PreviewPlan::NoPreview
    }
}

/// Division of `a` by `b` rounded to the nearest whole number.
pub open spec fn round_div(a: int, b: int) -> int {
    (a + b / 2) / b
}

/// The target dimensions of an image preview: unchanged when the longer
/// side is within the cap, otherwise scaled so the longer side equals the
/// cap and the shorter follows proportionally (at least one pixel).
pub open spec fn scaled_dims_of(w: int, h: int, max_side: int) -> (int, int) {
    if w >= h {
        if w > max_side {
            let s = round_div(h * max_side, w);
            (max_side, if s < 1 { 1 } else { s })
        } else {
            (w, h)
        }
    } else {
        if h > max_side {
            let s = round_div(w * max_side, h);
            (if s < 1 { 1 } else { s }, max_side)
        } else {
            (w, h)
        }
    }
}

/// `(a * b + c / 2) / c`, on 64-bit intermediate values, with the claim
/// that the quotient does not exceed `q_cap` when `a * b < c * (q_cap + 1)`.
fn round_div_scaled(a: u32, b: u32, c: u32, q_cap: u32) -> (q: u32)
    requires
        c > 0,
        a as int * b as int + c as int / 2 < c as int * (q_cap as int + 1),
    ensures
        q as int == round_div(a as int * b as int, c as int),
        q <= q_cap,
{
    proof {
        assert(a as int * b as int <= 0xffff_ffff * 0xffff_ffff) by (nonlinear_arith)
            requires
                a as int <= 0xffff_ffff,
                b as int <= 0xffff_ffff,
                a as int >= 0,
                b as int >= 0,
        ;
    }
    let num: u64 = (a as u64) * (b as u64) + (c as u64) / 2;
    let q64: u64 = num / (c as u64);
    proof {
        lemma_fundamental_div_mod(num as int, c as int);
        assert(q64 as int == round_div(a as int * b as int, c as int));
        if q64 as int > q_cap as int {
            assert(num as int >= c as int * (q_cap as int + 1)) by (nonlinear_arith)
                requires
                    num as int == c as int * (q64 as int) + (num as int % c as int),
                    num as int % c as int >= 0,
                    q64 as int >= q_cap as int + 1,
                    c as int > 0,
            ;
        }
    }
    q64 as u32
}

/// The target dimensions for an image preview, capping the longer side.
/// The cap is respected exactly: a side is scaled down to the cap only
/// when it exceeds it, the other side keeps the aspect within rounding,
/// and no dimension ever leaves the range `1..=max(input, cap)`.
pub fn compute_scaled_dims(w: u32, h: u32, max_side: u32) -> (r: (u32, u32))
    requires
        w > 0,
        h > 0,
        max_side > 0,
    ensures
        (r.0 as int, r.1 as int) == scaled_dims_of(w as int, h as int, max_side as int),
        r.0 >= 1 && r.1 >= 1,
        (w > max_side || h > max_side) ==> r.0 <= max_side && r.1 <= max_side,
        (w <= max_side && h <= max_side) ==> r == (w, h),
{
    if w >= h {
        if w > max_side {
            proof {
                assert(h as int * max_side as int + w as int / 2 < w as int * (max_side as int
                    + 1)) by (nonlinear_arith)
                    requires
                        h <= w,
                        w > 0,
                        max_side > 0,
                ;
            }
            let s = round_div_scaled(h, max_side, w, max_side);
            let s1 = if s == 0 {
                1
            } else {
                s
            };
            (max_side, s1)
        } else {
            (w, h)
        }
    } else {
        if h > max_side {
            proof {
                assert(w as int * max_side as int + h as int / 2 < h as int * (max_side as int
                    + 1)) by (nonlinear_arith)
                    requires
                        w < h,
                        h > 0,
                        max_side > 0,
                ;
            }
            let s = round_div_scaled(w, max_side, h, max_side);
            let s1 = if s == 0 {
                1
            } else {
                s
            };
            (s1, max_side)
        } else {
            (w, h)
        }
    }
}

/// The target dimensions of a rasterized PDF page preview: unchanged when
/// the width is within the cap, otherwise scaled so the width equals the
/// cap and the height follows proportionally (at least one pixel).
pub open spec fn width_capped_dims_of(w: int, h: int, cap: int) -> (int, int) {
    if w > cap {
        let s = round_div(h * cap, w);
        (cap, if s < 1 { 1 } else { s })
    } else {
        (w, h)
    }
}

/// The target dimensions for a PDF page preview, capping the width only.
pub fn compute_width_capped_dims(w: u32, h: u32, cap: u32) -> (r: (u32, u32))
    requires
        w > 0,
        h > 0,
        cap > 0,
    ensures
        (r.0 as int, r.1 as int) == width_capped_dims_of(w as int, h as int, cap as int),
        r.0 >= 1 && r.1 >= 1,
        w > cap ==> r.0 == cap,
        w <= cap ==> r == (w, h),
{
    if w > cap {
        proof {
            assert(h as int * cap as int + w as int / 2 < w as int * (h as int + 1))
                by (nonlinear_arith)
                requires
                    cap < w,
                    h > 0,
                    w > 0,
            ;
        }
        let s = round_div_scaled(h, cap, w, h);
        let s1 = if s == 0 {
            1
        } else {
            s
        };
        (cap, s1)
    } else {
        (w, h)
    }
}

/// A name for what base64 encoding returns: it depends on the bytes alone.
pub uninterp spec fn b64_of(bytes: Seq<u8>) -> Seq<char>;

/// Relies on base64::encode: the standard alphabet with padding, four
/// output characters for every started group of three input bytes, a
/// function of the bytes alone.
#[verifier::external_body]
pub fn encode_base64(bytes: &Vec<u8>) -> (r: String)
    ensures
        r@ == b64_of(bytes@),
        r@.len() == 4 * ((bytes@.len() + 2) / 3),
{
    base64::encode(bytes)
}

/// One sampled video frame read back from the extraction directory: its
/// file name and its bytes.
pub struct Frame {
    pub name: String,
    pub bytes: Vec<u8>,
}

/// Insertion of a frame into a name-sorted sequence, after any entries
/// whose name is not greater.
pub open spec fn insert_frame_spec(acc: Seq<Frame>, f: Frame) -> Seq<Frame>
    decreases acc.len(),
{
    if acc.len() == 0 {
        seq![f]
    } else if lex_lt(f.name@, acc.last().name@) {
        insert_frame_spec(acc.drop_last(), f).push(acc.last())
    } else {
        acc.push(f)
    }
}

/// The frames sorted by file name (insertion order kept among equal
/// names).
pub open spec fn sort_frames_spec(fs: Seq<Frame>) -> Seq<Frame>
    decreases fs.len(),
{
    if fs.len() == 0 {
        fs
    } else {
        insert_frame_spec(sort_frames_spec(fs.drop_last()), fs.last())
    }
}

/// Inserts one frame at its name-sorted position.
fn insert_frame(v: &mut Vec<Frame>, f: Frame)
    ensures
        final(v)@ == insert_frame_spec(old(v)@, f),
    decreases old(v)@.len(),
{
    if v.len() == 0 {
        v.push(f);
        proof {
            assert(v@ =~= seq![f]);
        }
    } else {
        let go_left = str_lex_lt(f.name.as_str(), v[v.len() - 1].name.as_str());
        if go_left {
            match v.pop() {
                Some(x) => {
                    proof {
                        assert(v@ =~= old(v)@.drop_last());
                    }
                    insert_frame(v, f);
                    v.push(x);
                },
                None => {
                    proof {
                        assert(false);
                    }
                },
            }
        } else {
            v.push(f);
        }
    }
}

/// Orders the sampled frames deterministically by file name, truncates to
/// the frame cap, and encodes each frame's bytes; the result is exactly
/// the encoded prefix of the name-sorted frame sequence.
pub fn order_and_encode_frames(frames: Vec<Frame>, max_frames: usize) -> (r: Vec<String>)
    ensures
        r@.len() == if frames@.len() <= max_frames {
            frames@.len() as int
        } else {
            max_frames as int
        },
        forall|i: int|
            0 <= i < r@.len() ==> #[trigger] r@[i]@ == b64_of(
                sort_frames_spec(frames@)[i].bytes@,
            ),
{
    let ghost orig = frames@;
    let mut rest = frames;
    let mut sorted: Vec<Frame> = Vec::new();
    proof {
        assert(orig.take(0) =~= Seq::<Frame>::empty());
        assert(orig.skip(0) =~= orig);
    }
    loop
        invariant
            rest@.len() <= orig.len(),
            orig.skip(orig.len() - rest@.len()) == rest@,
            sorted@ == sort_frames_spec(orig.take(orig.len() - rest@.len())),
        ensures
            sorted@ == sort_frames_spec(orig),
        decreases rest@.len(),
    {
        if rest.len() == 0 {
            proof {
                assert(orig.take(orig.len() as int) =~= orig);
            }
            break;
        }
        let ghost k = orig.len() - rest@.len();
        let f = rest.remove(0);
        proof {
            assert(orig.skip(k)[0] == orig[k]);
            assert(rest@ =~= orig.skip(k + 1));
            assert(orig.take(k + 1).drop_last() =~= orig.take(k));
            assert(orig.take(k + 1).last() == orig[k]);
        }
        insert_frame(&mut sorted, f);
    }
    let n = sorted.len();
    let m = if n <= max_frames {
        n
    } else {
        max_frames
    };
    proof {
        lemma_sort_frames_len(orig);
    }
    let mut out: Vec<String> = Vec::new();
    let mut i: usize = 0;
    while i < m
        invariant
            i <= m,
            m <= n,
            n == sorted@.len(),
            sorted@ == sort_frames_spec(orig),
            out@.len() == i,
            forall|j: int|
                0 <= j < i ==> #[trigger] out@[j]@ == b64_of(sort_frames_spec(orig)[j].bytes@),
        decreases m - i,
    {
        out.push(encode_base64(&sorted[i].bytes));
        i = i + 1;
    }
    out
}

/// Inserting a frame grows the sequence by one.
pub proof fn lemma_insert_frame_len(acc: Seq<Frame>, f: Frame)
    ensures
        insert_frame_spec(acc, f).len() == acc.len() + 1,
    decreases acc.len(),
{
    if acc.len() > 0 && lex_lt(f.name@, acc.last().name@) {
        lemma_insert_frame_len(acc.drop_last(), f);
    }
}

/// Sorting keeps the number of frames.
pub proof fn lemma_sort_frames_len(fs: Seq<Frame>)
    ensures
        sort_frames_spec(fs).len() == fs.len(),
    decreases fs.len(),
{
    if fs.len() > 0 {
        lemma_sort_frames_len(fs.drop_last());
        lemma_insert_frame_len(sort_frames_spec(fs.drop_last()), fs.last());
    }
}

} // verus!
