//! PDF numeric facts: page count and first-page geometry from the parsed
//! bounding-box array. Box coordinates are carried in thousandths of a
//! point, so that fractional PDF numbers keep an exact representation.

use vstd::prelude::*;
use crate::PDF;

verus! {

/// One entry of a first-page bounding-box array: a number in thousandths
/// of a point, or something that is not a number at all.
#[derive(Clone, Copy, PartialEq, Eq, Structural, Debug)]
pub enum MediaBoxEntry {
    Num(i64),
    NonNumeric,
}

/// What structural parsing of a PDF yields: the page count, and the first
/// page's bounding-box array when one is present.
pub struct PdfFacts {
    pub page_count: u32,
    pub media_box: Option<Vec<MediaBoxEntry>>,
}

/// The first-page width and height read from a bounding-box array
/// `[left, bottom, right, top]`: `right - left` and `top - bottom`, present
/// exactly when the array has four entries, all numeric, and both
/// differences fit.
pub open spec fn box_geometry_of(mb: Seq<MediaBoxEntry>) -> Option<(i64, i64)> {
    if mb.len() == 4 {
        match (mb[0], mb[1], mb[2], mb[3]) {
            (
                MediaBoxEntry::Num(x0),
                MediaBoxEntry::Num(y0),
                MediaBoxEntry::Num(x1),
                MediaBoxEntry::Num(y1),
            ) => {
                let w = x1 as int - x0 as int;
                let h = y1 as int - y0 as int;
                if i64::MIN <= w <= i64::MAX && i64::MIN <= h <= i64::MAX {
                    Some((w as i64, h as i64))
                } else {
                    None
                }
            },
            _ => None,
        }
    } else {
        None
    }
}

/// The first-page width recorded for parsed PDF facts.
pub open spec fn pdf_width_of(f: PdfFacts) -> Option<i64> {
    match f.media_box {
        Some(mb) => match box_geometry_of(mb@) {
            Some(wh) => Some(wh.0),
            None => None,
        },
        None => None,
    }
}

/// The first-page height recorded for parsed PDF facts.
pub open spec fn pdf_height_of(f: PdfFacts) -> Option<i64> {
    match f.media_box {
        Some(mb) => match box_geometry_of(mb@) {
            Some(wh) => Some(wh.1),
            None => None,
        },
        None => None,
    }
}

/// Builds the PDF record from parsed facts: the page count is always
/// recorded; first-page geometry only when the bounding box yields it, and
/// a non-numeric entry leaves both dimensions absent.
pub fn pdf_facts(f: &PdfFacts) -> (p: PDF)
    ensures
        p.page_count == Some(f.page_count),
        p.page0_width_mpt == pdf_width_of(*f),
        p.page0_height_mpt == pdf_height_of(*f),
{
    let mut p = PDF::unset();
    p.page_count = Some(f.page_count);
    match &f.media_box {
        Some(mb) => {
            if mb.len() == 4 {
                let e0 = mb[0];
                let e1 = mb[1];
                let e2 = mb[2];
                let e3 = mb[3];
                match (e0, e1, e2, e3) {
                    (
                        MediaBoxEntry::Num(x0),
                        MediaBoxEntry::Num(y0),
                        MediaBoxEntry::Num(x1),
                        MediaBoxEntry::Num(y1),
                    ) => {
                        let w = x1.checked_sub(x0);
                        let h = y1.checked_sub(y0);
                        match (w, h) {
                            (Some(wv), Some(hv)) => {
                                p.page0_width_mpt = Some(wv);
                                p.page0_height_mpt = Some(hv);
                            },
                            _ => {},
                        }
                    },
                    _ => {},
                }
            }
        },
        None => {},
    }
    p
}

} // verus!
