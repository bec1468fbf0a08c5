//! Video numeric facts: parsing of the prober's duration and frame-rate
//! strings, and selection of the first video stream from its report.

use vstd::prelude::*;
use vstd::arithmetic::div_mod::lemma_fundamental_div_mod;
use crate::chars::str_chars_eq;
use crate::{Fps, Video};

verus! {

pub open spec fn is_digit(c: char) -> bool {
    '0' <= c && c <= '9'
}

pub open spec fn digit_val(c: char) -> int {
    c as int - '0' as int
}

/// The value of a digit string, most significant first.
pub open spec fn digits_val(s: Seq<char>) -> int
    decreases s.len(),
{
    if s.len() == 0 {
        0
    } else {
        digits_val(s.drop_last()) * 10 + digit_val(s.last())
    }
}

pub open spec fn all_digits(s: Seq<char>) -> bool {
    forall|i: int| 0 <= i < s.len() ==> is_digit(#[trigger] s[i])
}

pub proof fn lemma_digits_val_nonneg(s: Seq<char>)
    requires
        all_digits(s),
    ensures
        digits_val(s) >= 0,
    decreases s.len(),
{
    if s.len() > 0 {
        assert(all_digits(s.drop_last())) by {
            assert(forall|i: int|
                0 <= i < s.len() - 1 ==> #[trigger] s.drop_last()[i] == s[i]);
        }
        lemma_digits_val_nonneg(s.drop_last());
    }
}

/// A digit string's value only grows as more digits follow.
pub proof fn lemma_digits_val_prefix_le(s: Seq<char>, m: int)
    requires
        all_digits(s),
        0 <= m <= s.len(),
    ensures
        digits_val(s.take(m)) <= digits_val(s),
    decreases s.len() - m,
{
    if m == s.len() {
        assert(s.take(m) =~= s);
    } else {
        assert(all_digits(s.drop_last())) by {
            assert(forall|i: int|
                0 <= i < s.len() - 1 ==> #[trigger] s.drop_last()[i] == s[i]);
        }
        assert(s.drop_last().take(m) =~= s.take(m));
        lemma_digits_val_prefix_le(s.drop_last(), m);
        lemma_digits_val_nonneg(s.drop_last());
        assert(digits_val(s) == digits_val(s.drop_last()) * 10 + digit_val(s.last()));
        assert(digits_val(s.drop_last()) * 10 >= digits_val(s.drop_last()));
    }
}

/// The index of the first occurrence of `c` in `s`, or `s.len()` if none.
pub open spec fn first_idx_of(s: Seq<char>, c: char) -> int
    decreases s.len(),
{
    if s.len() == 0 {
        0
    } else if s[0] == c {
        0
    } else {
        1 + first_idx_of(s.drop_first(), c)
    }
}

/// A position with no earlier occurrence and `c` (or the end) at it is the
/// first occurrence.
pub proof fn lemma_first_idx_of(s: Seq<char>, c: char, k: int)
    requires
        0 <= k <= s.len(),
        forall|j: int| 0 <= j < k ==> s[j] != c,
        k == s.len() || s[k] == c,
    ensures
        first_idx_of(s, c) == k,
    decreases k,
{
    if s.len() == 0 {
    } else if k == 0 {
    } else {
        assert(s[0] != c);
        assert forall|j: int| 0 <= j < k - 1 implies s.drop_first()[j] != c by {
            assert(s.drop_first()[j] == s[j + 1]);
        }
        if k < s.len() {
            assert(s.drop_first()[k - 1] == s[k]);
        }
        lemma_first_idx_of(s.drop_first(), c, k - 1);
    }
}

/// Finds the first occurrence of `c` in `s` at or after `from`.
pub fn find_char_from(s: &str, from: usize, c: char) -> (r: usize)
    requires
        from <= s@.len(),
    ensures
        from <= r <= s@.len(),
        forall|j: int| from <= j < r ==> s@[j] != c,
        r == s@.len() || s@[r as int] == c,
{
    let len = s.unicode_len();
    let mut i: usize = from;
    while i < len
        invariant
            from <= i <= len,
            len == s@.len(),
            forall|j: int| from <= j < i ==> s@[j] != c,
        decreases len - i,
    {
        if s.get_char(i) == c {
            return i;
        }
        i = i + 1;
    }
    i
}

/// The digit value of a digit character.
fn digit_of(c: char) -> (d: u64)
    requires
        is_digit(c),
    ensures
        d as int == digit_val(c),
        d <= 9,
{
    match c {
        '0' => 0,
        '1' => 1,
        '2' => 2,
        '3' => 3,
        '4' => 4,
        '5' => 5,
        '6' => 6,
        '7' => 7,
        '8' => 8,
        _ => 9,
    }
}

/// Parses the characters of `s` in `[from, to)` as an unsigned decimal
/// number; absent when the range is empty, holds a non-digit, or its value
/// does not fit.
pub fn parse_digits_range(s: &str, from: usize, to: usize) -> (r: Option<u64>)
    requires
        from <= to,
        to <= s@.len(),
    ensures
        ({
            let seg = s@.subrange(from as int, to as int);
            match r {
                Some(v) => to > from && all_digits(seg) && v as int == digits_val(seg),
                None => !(to > from && all_digits(seg) && digits_val(seg) <= u64::MAX),
            }
        }),
{
    let ghost seg = s@.subrange(from as int, to as int);
    if from == to {
        return None;
    }
    let mut acc: u64 = 0;
    let mut i: usize = from;
    proof {
        assert(s@.subrange(from as int, from as int) =~= Seq::<char>::empty());
    }
    while i < to
        invariant
            from <= i <= to,
            to <= s@.len(),
            seg == s@.subrange(from as int, to as int),
            all_digits(s@.subrange(from as int, i as int)),
            acc as int == digits_val(s@.subrange(from as int, i as int)),
        decreases to - i,
    {
        let c = s.get_char(i);
        if !('0' <= c && c <= '9') {
            proof {
                assert(seg[i - from] == s@[i as int]);
            }
            return None;
        }
        let d = digit_of(c);
        if acc > (u64::MAX - d) / 10 {
            proof {
                lemma_fundamental_div_mod((u64::MAX - d) as int, 10);
                assert(acc as int * 10 + d as int > u64::MAX);
                let p1 = s@.subrange(from as int, i as int + 1);
                assert(p1.drop_last() =~= s@.subrange(from as int, i as int));
                assert(p1.last() == s@[i as int]);
                assert(digits_val(p1) > u64::MAX);
                if all_digits(seg) {
                    assert(seg.take(i - from + 1) =~= p1);
                    lemma_digits_val_prefix_le(seg, i - from + 1);
                }
            }
            return None;
        }
        proof {
            lemma_fundamental_div_mod((u64::MAX - d) as int, 10);
            assert(acc as int * 10 + d as int <= u64::MAX);
        }
        acc = acc * 10 + d;
        proof {
            let p1 = s@.subrange(from as int, i as int + 1);
            assert(p1.drop_last() =~= s@.subrange(from as int, i as int));
            assert(p1.last() == s@[i as int]);
        }
        i = i + 1;
    }
    proof {
        assert(s@.subrange(from as int, i as int) =~= seg);
    }
    Some(acc)
}

/// The exact reading of an `A/B` frame-rate string: present exactly when
/// both parts are non-empty digit strings that fit, and the denominator is
/// not zero.
pub open spec fn rational_of(s: Seq<char>) -> Option<Fps> {
    let k = first_idx_of(s, '/');
    if k == s.len() {
        None
    } else {
        let a = s.take(k);
        let rest = s.skip(k + 1);
        let b = rest.take(first_idx_of(rest, '/'));
        if a.len() > 0 && all_digits(a) && digits_val(a) <= u64::MAX && b.len() > 0
            && all_digits(b) && digits_val(b) <= u64::MAX && digits_val(b) != 0 {
            Some(Fps { num: digits_val(a) as u64, den: digits_val(b) as u64 })
        } else {
            None
        }
    }
}

/// Parses a rational `A/B` string. A zero denominator yields an absent
/// result, never a division; a present result always has a positive
/// denominator.
pub fn parse_rational(s: &str) -> (r: Option<Fps>)
    ensures
        r == rational_of(s@),
        r is Some ==> r->Some_0.den > 0,
{
    let len = s.unicode_len();
    let k = find_char_from(s, 0, '/');
    proof {
        lemma_first_idx_of(s@, '/', k as int);
    }
    if k == len {
        return None;
    }
    let k2 = find_char_from(s, k + 1, '/');
    let ghost rest = s@.skip(k as int + 1);
    proof {
        assert forall|j: int| 0 <= j < k2 - k - 1 implies rest[j] != '/' by {
            assert(rest[j] == s@[j + k + 1]);
        }
        if k2 < len {
            assert(rest[k2 - k - 1] == s@[k2 as int]);
        }
        lemma_first_idx_of(rest, '/', k2 - k - 1);
        assert(rest.take(k2 - k - 1) =~= s@.subrange(k as int + 1, k2 as int));
        assert(s@.take(k as int) =~= s@.subrange(0, k as int));
    }
    let a = parse_digits_range(s, 0, k);
    let b = parse_digits_range(s, k + 1, k2);
    match (a, b) {
        (Some(num), Some(den)) => {
            if den == 0 {
                None
            } else {
                Some(Fps { num, den })
            }
        },
        _ => None,
    }
}

/// The value of up to the first three fractional-second digits, in
/// milliseconds.
pub open spec fn frac_ms_val(f: Seq<char>) -> int {
    if f.len() == 0 {
        0
    } else if f.len() == 1 {
        digit_val(f[0]) * 100
    } else if f.len() == 2 {
        digit_val(f[0]) * 100 + digit_val(f[1]) * 10
    } else {
        digit_val(f[0]) * 100 + digit_val(f[1]) * 10 + digit_val(f[2])
    }
}

/// The largest whole-second count whose millisecond value fits in a u64.
pub open spec fn max_whole_seconds() -> int {
    (u64::MAX - 999) / 1000
}

/// The exact reading of a decimal `SS[.FFF...]` duration string, in
/// milliseconds (fractional digits beyond the third are dropped).
pub open spec fn duration_ms_of(s: Seq<char>) -> Option<u64> {
    let k = first_idx_of(s, '.');
    let ip = s.take(k);
    let fp = if k == s.len() {
        Seq::<char>::empty()
    } else {
        s.skip(k + 1)
    };
    if ip.len() > 0 && all_digits(ip) && digits_val(ip) <= max_whole_seconds() && all_digits(fp) {
        Some((digits_val(ip) * 1000 + frac_ms_val(fp)) as u64)
    } else {
        None
    }
}

/// Parses a decimal duration string to whole milliseconds.
pub fn parse_duration_ms(s: &str) -> (r: Option<u64>)
    ensures
        r == duration_ms_of(s@),
{
    let len = s.unicode_len();
    let k = find_char_from(s, 0, '.');
    proof {
        lemma_first_idx_of(s@, '.', k as int);
        assert(s@.take(k as int) =~= s@.subrange(0, k as int));
    }
    let ip = parse_digits_range(s, 0, k);
    let secs = match ip {
        Some(v) => v,
        None => {
            proof {
                if k > 0 && all_digits(s@.take(k as int)) {
                    // the integer part overflows u64, so it certainly
                    // exceeds the whole-second bound
                    assert(digits_val(s@.take(k as int)) > u64::MAX);
                    assert(max_whole_seconds() < u64::MAX as int);
                }
            }
            return None;
        },
    };
    let limit: u64 = (u64::MAX - 999) / 1000;
    if secs > limit {
        return None;
    }
    // gather up to three fractional digits, and insist every fractional
    // character is a digit
    let mut frac: u64 = 0;
    if k < len {
        let ghost fp = s@.skip(k as int + 1);
        let mut i: usize = k + 1;
        while i < len
            invariant
                k + 1 <= i <= len,
                len == s@.len(),
                first_idx_of(s@, '.') == k as int,
                fp == s@.skip(k as int + 1),
                forall|j: int| 0 <= j < i - k - 1 ==> is_digit(#[trigger] fp[j]),
                frac as int == frac_ms_val(fp.take(if i - k - 1 > 3 {
                    3int
                } else {
                    i - k - 1
                })),
                frac <= 999,
            decreases len - i,
        {
            let c = s.get_char(i);
            if !('0' <= c && c <= '9') {
                proof {
                    assert(fp[i - k - 1] == s@[i as int]);
                    assert(!is_digit(fp[i - k - 1]));
                    assert(!all_digits(fp));
                }
                return None;
            }
            let d = digit_of(c);
            proof {
                assert(fp[i - k - 1] == s@[i as int]);
            }
            if i - k - 1 == 0 {
                frac = d * 100;
                proof {
                    assert(fp.take(1)[0] == fp[0]);
                }
            } else if i - k - 1 == 1 {
                frac = frac + d * 10;
                proof {
                    assert(fp.take(2)[0] == fp[0] && fp.take(2)[1] == fp[1]);
                    assert(fp.take(1)[0] == fp[0]);
                }
            } else if i - k - 1 == 2 {
                frac = frac + d;
                proof {
                    assert(fp.take(3)[0] == fp[0] && fp.take(3)[1] == fp[1] && fp.take(3)[2]
                        == fp[2]);
                    assert(fp.take(2)[0] == fp[0] && fp.take(2)[1] == fp[1]);
                }
            } else {
                proof {
                    let m = i - k - 1;
                    assert(fp.take(if m > 3 { 3int } else { m }) =~= fp.take(
                        if m + 1 > 3 { 3int } else { m + 1 },
                    ));
                }
            }
            i = i + 1;
        }
        proof {
            let m = len - k - 1;
            if m <= 3 {
                assert(fp.take(m as int) =~= fp);
            } else {
                assert(frac as int == frac_ms_val(fp.take(3)));
                assert(fp.len() > 3);
                assert(fp.take(3)[0] == fp[0] && fp.take(3)[1] == fp[1] && fp.take(3)[2] == fp[2]);
                assert(frac_ms_val(fp.take(3)) == frac_ms_val(fp));
            }
        }
    }
    proof {
        lemma_fundamental_div_mod((u64::MAX - 999) as int, 1000);
        assert(secs as int * 1000 <= u64::MAX - 999);
    }
    Some(secs * 1000 + frac)
}

/// One stream of the prober's report, reduced to the fields the analysis
/// reads.
pub struct FfStream {
    pub codec_type: Option<String>,
    pub codec_name: Option<String>,
    pub width: Option<u32>,
    pub height: Option<u32>,
    pub avg_frame_rate: Option<String>,
}

/// The prober's report, reduced to the fields the analysis reads.
pub struct FfProbe {
    pub duration: Option<String>,
    pub streams: Vec<FfStream>,
}

/// Whether a stream declares itself a video stream.
pub open spec fn is_video_stream(st: FfStream) -> bool {
    st.codec_type is Some && st.codec_type->0@ == "video"@
}

/// The index of the first video stream, or the length if none.
pub open spec fn first_video_idx(ss: Seq<FfStream>) -> int
    decreases ss.len(),
{
    if ss.len() == 0 {
        0
    } else if is_video_stream(ss[0]) {
        0
    } else {
        1 + first_video_idx(ss.drop_first())
    }
}

pub proof fn lemma_first_video_idx(ss: Seq<FfStream>, k: int)
    requires
        0 <= k <= ss.len(),
        forall|j: int| 0 <= j < k ==> !is_video_stream(#[trigger] ss[j]),
        k == ss.len() || is_video_stream(ss[k]),
    ensures
        first_video_idx(ss) == k,
    decreases k,
{
    if ss.len() == 0 {
    } else if k == 0 {
    } else {
        assert(!is_video_stream(ss[0]));
        assert forall|j: int| 0 <= j < k - 1 implies !is_video_stream(
            #[trigger] ss.drop_first()[j],
        ) by {
            assert(ss.drop_first()[j] == ss[j + 1]);
        }
        if k < ss.len() {
            assert(ss.drop_first()[k - 1] == ss[k]);
        }
        lemma_first_video_idx(ss.drop_first(), k - 1);
    }
}

/// The video facts read from a prober report: the parsed duration, and the
/// codec, dimensions, and parsed frame rate of the first video stream (all
/// absent when no stream declares itself video).
pub open spec fn video_facts_of(probe: FfProbe) -> Video {
    let dur = match probe.duration {
        Some(d) => duration_ms_of(d@),
        None => None,
    };
    let k = first_video_idx(probe.streams@);
    if k < probe.streams@.len() {
        let st = probe.streams@[k];
        Video {
            width: st.width,
            height: st.height,
            duration_ms: dur,
            fps: match st.avg_frame_rate {
                Some(r) => rational_of(r@),
                None => None,
            },
            codec: st.codec_name,
        }
    } else {
        Video { width: None, height: None, duration_ms: dur, fps: None, codec: None }
    }
}

/// Builds the video record from a prober report.
pub fn video_facts(probe: &FfProbe) -> (v: Video)
    ensures
        v.width == video_facts_of(*probe).width,
        v.height == video_facts_of(*probe).height,
        v.duration_ms == video_facts_of(*probe).duration_ms,
        v.fps == video_facts_of(*probe).fps,
        v.codec is Some ==> video_facts_of(*probe).codec is Some && v.codec->0@
            == video_facts_of(*probe).codec->0@,
        v.codec is None ==> video_facts_of(*probe).codec is None,
{
    let mut v = Video::unset();
    v.duration_ms = match &probe.duration {
        Some(d) => parse_duration_ms(d.as_str()),
        None => None,
    };
    let n = probe.streams.len();
    let mut i: usize = 0;
    proof {
        reveal_strlit("video");
    }
    while i < n
        invariant
            i <= n,
            n == probe.streams@.len(),
            forall|j: int| 0 <= j < i ==> !is_video_stream(#[trigger] probe.streams@[j]),
            v.duration_ms == video_facts_of(*probe).duration_ms,
            v.width is None && v.height is None && v.fps is None && v.codec is None,
        decreases n - i,
    {
        let st = &probe.streams[i];
        let found = match &st.codec_type {
            Some(t) => str_chars_eq(t.as_str(), "video"),
            None => false,
        };
        if found {
            proof {
                lemma_first_video_idx(probe.streams@, i as int);
            }
            v.width = st.width;
            v.height = st.height;
            v.codec = match &st.codec_name {
                Some(c) => Some(c.clone()),
                None => None,
            };
            v.fps = match &st.avg_frame_rate {
                Some(r) => parse_rational(r.as_str()),
                None => None,
            };
            return v;
        }
        i = i + 1;
    }
    proof {
        lemma_first_video_idx(probe.streams@, n as int);
    }
    v
}

} // verus!
