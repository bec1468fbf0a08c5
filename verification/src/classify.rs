//! File-type classification from a display name's extension.

use vstd::prelude::*;
use crate::chars::{exec_to_lower, lower_seq, push_char, str_chars_eq, to_lower};
use crate::FileType;

verus! {

/// `s` holds at least one `.`.
pub open spec fn has_dot(s: Seq<char>) -> bool {
    exists|i: int| 0 <= i < s.len() && s[i] == '.'
}

/// The run of characters after the last `.` of `s` (the whole of `s` when
/// it holds no `.`; see `ext_of` for the guarded form).
pub open spec fn tail_after_dot(s: Seq<char>) -> Seq<char>
    decreases s.len(),
{
    if s.len() == 0 {
        Seq::empty()
    } else if s.last() == '.' {
        Seq::empty()
    } else {
        tail_after_dot(s.drop_last()).push(s.last())
    }
}

/// The extension of `s`: the characters after its last `.`, and empty when
/// `s` holds no `.` at all (a name without a `.` has no extension).
pub open spec fn ext_of(s: Seq<char>) -> Seq<char> {
    if has_dot(s) {
        tail_after_dot(s)
    } else {
        Seq::empty()
    }
}

/// The lower-cased extension used for classification and preview planning.
pub open spec fn lower_ext_of(s: Seq<char>) -> Seq<char> {
    lower_seq(ext_of(s))
}

pub open spec fn is_image_ext(e: Seq<char>) -> bool {
    e == "png"@ || e == "jpg"@ || e == "jpeg"@ || e == "gif"@ || e == "bmp"@ || e == "webp"@
}

pub open spec fn is_video_ext(e: Seq<char>) -> bool {
    e == "mp4"@ || e == "mov"@ || e == "avi"@ || e == "mkv"@ || e == "webm"@
}

/// The classification table: `pdf` is Pdf, the fixed image and video
/// extension sets map to Image and Video, and everything else is Other.
pub open spec fn classify(name: Seq<char>) -> FileType {
    let e = lower_ext_of(name);
    if e == "pdf"@ {
        FileType::Pdf
    } else if is_image_ext(e) {
        FileType::Image
    } else if is_video_ext(e) {
        FileType::Video
    } else {
        FileType::Other
    }
}

/// Builds the lower-cased extension of `name` as an owned string; empty
/// when `name` holds no `.`.
pub fn lower_ext_string(name: &str) -> (r: String)
    ensures
        r@ == lower_ext_of(name@),
{
    let len = name.unicode_len();
    let mut ext = String::new();
    let mut seen_dot = false;
    let mut i: usize = 0;
    proof {
        assert(name@.take(0) =~= Seq::<char>::empty());
        assert(ext@ =~= lower_seq(tail_after_dot(name@.take(0))));
    }
    while i < len
        invariant
            i <= len,
            len == name@.len(),
            seen_dot == has_dot(name@.take(i as int)),
            ext@ =~= lower_seq(tail_after_dot(name@.take(i as int))),
        decreases len - i,
    {
        let ghost p = name@.take(i as int);
        let ghost p1 = name@.take(i as int + 1);
        let c = name.get_char(i);
        proof {
            assert(p1.last() == name@[i as int]);
            assert(p1.drop_last() =~= p);
            if has_dot(p) {
                let j = choose|j: int| 0 <= j < p.len() && p[j] == '.';
                assert(p1[j] == '.');
                assert(has_dot(p1));
            }
        }
        if c == '.' {
            ext = String::new();
            seen_dot = true;
            proof {
                assert(p1[i as int] == '.');
                assert(has_dot(p1));
            }
        } else {
            push_char(&mut ext, exec_to_lower(c));
            proof {
                assert(lower_seq(tail_after_dot(p).push(name@[i as int])) =~= lower_seq(
                    tail_after_dot(p),
                ).push(to_lower(name@[i as int])));
                if has_dot(p1) {
                    let j = choose|j: int| 0 <= j < p1.len() && p1[j] == '.';
                    assert(j != i);
                    assert(p[j] == '.');
                    assert(has_dot(p));
                }
            }
        }
        i = i + 1;
    }
    proof {
        assert(name@.take(len as int) =~= name@);
    }
    if seen_dot {
        ext
    } else {
        let r = String::new();
        proof {
            assert(r@ =~= lower_seq(Seq::<char>::empty()));
        }
        r
    }
}

/// Maps a file display name to its media kind through the extension table.
/// The comparison is case-insensitive; a name without a `.` has no
/// extension and is always Other.
pub fn get_type(file_name: &str) -> (t: FileType)
    ensures
        t == classify(file_name@),
        !has_dot(file_name@) ==> t == FileType::Other,
{
    let ext = lower_ext_string(file_name);
    let e = ext.as_str();
    proof {
        reveal_strlit("pdf");
        reveal_strlit("png");
        reveal_strlit("jpg");
        reveal_strlit("jpeg");
        reveal_strlit("gif");
        reveal_strlit("bmp");
        reveal_strlit("webp");
        reveal_strlit("mp4");
        reveal_strlit("mov");
        reveal_strlit("avi");
        reveal_strlit("mkv");
        reveal_strlit("webm");
    }
    if str_chars_eq(e, "pdf") {
        FileType::Pdf
    } else if str_chars_eq(e, "png") || str_chars_eq(e, "jpg") || str_chars_eq(e, "jpeg")
        || str_chars_eq(e, "gif") || str_chars_eq(e, "bmp") || str_chars_eq(e, "webp") {
        FileType::Image
    } else if str_chars_eq(e, "mp4") || str_chars_eq(e, "mov") || str_chars_eq(e, "avi")
        || str_chars_eq(e, "mkv") || str_chars_eq(e, "webm") {
        FileType::Video
    } else {
        FileType::Other
    }
}

/// The string tag recorded for each media kind.
pub open spec fn kind_tag(t: FileType) -> Seq<char> {
    match t {
        FileType::Pdf => "pdf"@,
        FileType::Image => "image"@,
        FileType::Video => "video"@,
        FileType::Other => "other"@,
    }
}

/// Builds the string tag for a media kind.
pub fn type_tag(t: FileType) -> (r: String)
    ensures
        r@ == kind_tag(t),
{
    match t {
        FileType::Pdf => String::from_str("pdf"),
        FileType::Image => String::from_str("image"),
        FileType::Video => String::from_str("video"),
        FileType::Other => String::from_str("other"),
    }
}

} // verus!
