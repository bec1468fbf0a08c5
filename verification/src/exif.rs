//! Folding of embedded capture metadata into the image record and the
//! keyword list: the first non-empty capture timestamp wins, and camera
//! make/model strings are merged into the keywords through the merge entry
//! point.

use vstd::prelude::*;
use crate::chars::{trim_spec, trim_ascii, view_opt};
use crate::keywords::{maybe_push_kw, merge_tokens, raw_tokens, views};
use crate::Image;

verus! {

/// The capture-metadata tags the analysis reads; everything else is
/// ignored.
#[derive(Clone, Copy, PartialEq, Eq, Structural, Debug)]
pub enum ExifKind {
    DateTimeOriginal,
    Make,
    Model,
    OtherTag,
}

/// One parsed capture-metadata entry: its tag and its readable value.
pub struct ExifEntry {
    pub kind: ExifKind,
    pub text: String,
}

/// The capture timestamp after folding `es` over a prior value: the first
/// entry whose trimmed `DateTimeOriginal` value is non-empty wins; later
/// ones never overwrite it.
pub open spec fn exif_datetime_of(dt0: Option<Seq<char>>, es: Seq<ExifEntry>) -> Option<Seq<char>>
    decreases es.len(),
{
    if es.len() == 0 {
        dt0
    } else {
        let prev = exif_datetime_of(dt0, es.drop_last());
        let e = es.last();
        if e.kind == ExifKind::DateTimeOriginal && prev is None && trim_spec(e.text@).len() > 0 {
            Some(trim_spec(e.text@))
        } else {
            prev
        }
    }
}

/// The keyword list after folding `es`: each make/model value is merged
/// through the merge entry point, in order.
pub open spec fn exif_keywords_of(kws0: Seq<Seq<char>>, es: Seq<ExifEntry>) -> Seq<Seq<char>>
    decreases es.len(),
{
    if es.len() == 0 {
        kws0
    } else {
        let prev = exif_keywords_of(kws0, es.drop_last());
        let e = es.last();
        if e.kind == ExifKind::Make || e.kind == ExifKind::Model {
            merge_tokens(prev, raw_tokens(e.text@))
        } else {
            prev
        }
    }
}

/// Applies parsed capture metadata to the image record and the keyword
/// list. Only the capture timestamp of the image record changes; prior
/// keywords keep their place and order.
pub fn apply_exif(image: &mut Image, keywords: &mut Vec<String>, entries: &Vec<ExifEntry>)
    ensures
        view_opt(final(image).exif_datetime) == exif_datetime_of(
            view_opt(old(image).exif_datetime),
            entries@,
        ),
        final(image).width == old(image).width,
        final(image).height == old(image).height,
        final(image).phash == old(image).phash,
        final(image).dominant_colors == old(image).dominant_colors,
        views(final(keywords)@) == exif_keywords_of(views(old(keywords)@), entries@),
        final(keywords)@.len() >= old(keywords)@.len(),
        forall|i: int|
            0 <= i < old(keywords)@.len() ==> final(keywords)@[i] == #[trigger] old(
                keywords,
            )@[i],
{
    let ghost dt0 = view_opt(old(image).exif_datetime);
    let ghost kws0 = views(old(keywords)@);
    let n = entries.len();
    let mut i: usize = 0;
    proof {
        assert(entries@.take(0) =~= Seq::<ExifEntry>::empty());
    }
    while i < n
        invariant
            i <= n,
            n == entries@.len(),
            dt0 == view_opt(old(image).exif_datetime),
            kws0 == views(old(keywords)@),
            view_opt(image.exif_datetime) == exif_datetime_of(dt0, entries@.take(i as int)),
            image.width == old(image).width,
            image.height == old(image).height,
            image.phash == old(image).phash,
            image.dominant_colors == old(image).dominant_colors,
            views(keywords@) == exif_keywords_of(kws0, entries@.take(i as int)),
            keywords@.len() >= old(keywords)@.len(),
            forall|k: int|
                0 <= k < old(keywords)@.len() ==> keywords@[k] == #[trigger] old(keywords)@[k],
        decreases n - i,
    {
        proof {
            assert(entries@.take(i as int + 1).last() == entries@[i as int]);
            assert(entries@.take(i as int + 1).drop_last() =~= entries@.take(i as int));
        }
        let e = &entries[i];
        match e.kind {
            ExifKind::DateTimeOriginal => {
                if image.exif_datetime.is_none() {
                    let t = trim_ascii(e.text.as_str());
                    if t.unicode_len() > 0 {
                        image.exif_datetime = Some(t);
                    }
                }
            },
            ExifKind::Make => {
                maybe_push_kw(keywords, e.text.as_str());
            },
            ExifKind::Model => {
                maybe_push_kw(keywords, e.text.as_str());
            },
            ExifKind::OtherTag => {},
        }
        i = i + 1;
    }
    proof {
        assert(entries@.take(n as int) =~= entries@);
    }
}

} // verus!
