//! Merging of a remote enrichment response into the local record: tags and
//! topics overwrite only when non-empty, additional keywords append only
//! when genuinely new under case-insensitive comparison, and a suggestion
//! replaces the local one only when its rename is non-empty.

use vstd::prelude::*;
use crate::chars::{lower_seq, str_eq_ignore_case};
use crate::keywords::views;
use crate::{Suggested, Tagging};

verus! {

/// A parsed enrichment response; every field is optional.
pub struct AiResponse {
    pub tags: Option<Vec<String>>,
    pub topics: Option<Vec<String>>,
    pub raw_keywords: Option<Vec<String>>,
    pub suggested: Option<Suggested>,
}

/// Some entry of `acc` equals `k` under case-insensitive comparison.
pub open spec fn contains_ci(acc: Seq<Seq<char>>, k: Seq<char>) -> bool {
    exists|i: int| 0 <= i < acc.len() && lower_seq(#[trigger] acc[i]) == lower_seq(k)
}

/// One step of the keyword append: `k` is appended only when no existing
/// entry equals it case-insensitively.
pub open spec fn merge_ci_one(acc: Seq<Seq<char>>, k: Seq<char>) -> Seq<Seq<char>> {
    if contains_ci(acc, k) {
        acc
    } else {
        acc.push(k)
    }
}

/// The append of all additional keywords, in order.
pub open spec fn merge_ci(acc: Seq<Seq<char>>, ks: Seq<Seq<char>>) -> Seq<Seq<char>>
    decreases ks.len(),
{
    if ks.len() == 0 {
        acc
    } else {
        merge_ci_one(merge_ci(acc, ks.drop_last()), ks.last())
    }
}

/// Whether some entry of `v` equals `w` case-insensitively.
pub fn contains_ci_exec(v: &Vec<String>, w: &str) -> (r: bool)
    ensures
        r == contains_ci(views(v@), w@),
{
    let mut i: usize = 0;
    while i < v.len()
        invariant
            i <= v@.len(),
            forall|j: int| 0 <= j < i ==> lower_seq(#[trigger] views(v@)[j]) != lower_seq(w@),
        decreases v@.len() - i,
    {
        if str_eq_ignore_case(v[i].as_str(), w) {
            proof {
                assert(lower_seq(views(v@)[i as int]) == lower_seq(w@));
            }
            return true;
        }
        i = i + 1;
    }
    false
}

/// A copy of a string vector; entry for entry, the same characters.
pub fn clone_string_vec(v: &Vec<String>) -> (r: Vec<String>)
    ensures
        r@ == v@,
{
    let mut out: Vec<String> = Vec::new();
    let mut i: usize = 0;
    while i < v.len()
        invariant
            i <= v@.len(),
            out@ =~= v@.take(i as int),
        decreases v@.len() - i,
    {
        out.push(v[i].clone());
        i = i + 1;
    }
    proof {
        assert(v@.take(v@.len() as int) =~= v@);
    }
    out
}

/// Merges an enrichment response into the local tagging and suggestion.
/// Tags and topics are overwritten only by a non-empty list; additional
/// keywords are appended only when new under case-insensitive comparison,
/// existing entries keeping their place; the suggestion is replaced only
/// when the response's rename is non-empty.
pub fn merge_ai(tagging: &mut Tagging, suggested: &mut Suggested, ai: &AiResponse)
    ensures
        ({
            match ai.tags {
                Some(ts) => if ts@.len() > 0 {
                    final(tagging).tags@ == ts@
                } else {
                    final(tagging).tags == old(tagging).tags
                },
                None => final(tagging).tags == old(tagging).tags,
            }
        }),
        ({
            match ai.topics {
                Some(ts) => if ts@.len() > 0 {
                    final(tagging).topics@ == ts@
                } else {
                    final(tagging).topics == old(tagging).topics
                },
                None => final(tagging).topics == old(tagging).topics,
            }
        }),
        ({
            match ai.raw_keywords {
                Some(ks) => views(final(tagging).raw_keywords@) == merge_ci(
                    views(old(tagging).raw_keywords@),
                    views(ks@),
                ),
                None => final(tagging).raw_keywords == old(tagging).raw_keywords,
            }
        }),
        final(tagging).raw_keywords@.len() >= old(tagging).raw_keywords@.len(),
        forall|i: int|
            0 <= i < old(tagging).raw_keywords@.len() ==> final(tagging).raw_keywords@[i]
                == #[trigger] old(tagging).raw_keywords@[i],
        ({
            match ai.suggested {
                Some(s) => if s.rename@.len() > 0 {
                    final(suggested).rename@ == s.rename@ && final(suggested).reason@ == s.reason@
                        && final(suggested).confidence_permille == s.confidence_permille
                } else {
                    *final(suggested) == *old(suggested)
                },
                None => *final(suggested) == *old(suggested),
            }
        }),
{
    match &ai.tags {
        Some(ts) => {
            if ts.len() > 0 {
                tagging.tags = clone_string_vec(ts);
            }
        },
        None => {},
    }
    match &ai.topics {
        Some(ts) => {
            if ts.len() > 0 {
                tagging.topics = clone_string_vec(ts);
            }
        },
        None => {},
    }
    match &ai.raw_keywords {
        Some(ks) => {
            let ghost acc0 = views(old(tagging).raw_keywords@);
            let ghost tags1 = tagging.tags;
            let ghost topics1 = tagging.topics;
            let n = ks.len();
            let mut i: usize = 0;
            proof {
                assert(views(ks@).take(0) =~= Seq::<Seq<char>>::empty());
            }
            while i < n
                invariant
                    i <= n,
                    n == ks@.len(),
                    acc0 == views(old(tagging).raw_keywords@),
                    views(tagging.raw_keywords@) == merge_ci(acc0, views(ks@).take(i as int)),
                    tagging.raw_keywords@.len() >= old(tagging).raw_keywords@.len(),
                    forall|k: int|
                        0 <= k < old(tagging).raw_keywords@.len() ==> tagging.raw_keywords@[k]
                            == #[trigger] old(tagging).raw_keywords@[k],
                    tagging.tags == tags1,
                    tagging.topics == topics1,
                decreases n - i,
            {
                proof {
                    assert(views(ks@).take(i as int + 1).drop_last() =~= views(ks@).take(
                        i as int,
                    ));
                    assert(views(ks@).take(i as int + 1).last() == views(ks@)[i as int]);
                }
                let ghost kw0 = tagging.raw_keywords@;
                if !contains_ci_exec(&tagging.raw_keywords, ks[i].as_str()) {
                    let kk = ks[i].clone();
                    tagging.raw_keywords.push(kk);
                    proof {
                        assert(views(kw0.push(ks@[i as int])) =~= views(kw0).push(
                            ks@[i as int]@,
                        ));
                    }
                }
                i = i + 1;
            }
            proof {
                assert(views(ks@).take(n as int) =~= views(ks@));
            }
        },
        None => {},
    }
    match &ai.suggested {
        Some(s) => {
            if s.rename.unicode_len() > 0 {
                suggested.rename = s.rename.clone();
                suggested.reason = s.reason.clone();
                suggested.confidence_permille = s.confidence_permille;
            }
        },
        None => {},
    }
}

} // verus!
