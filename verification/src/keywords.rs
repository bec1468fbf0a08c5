//! Keyword extraction: a name is split into maximal alphanumeric runs,
//! lower-cased, and filtered against a minimum length and a stop-word list.
//! One entry point builds a fresh sorted, deduplicated list; the other merges
//! new tokens into an existing list, appending only genuinely new ones.

use vstd::prelude::*;
use crate::chars::{exec_is_alnum, exec_to_lower, is_alnum, lex_lt, lex_lt_irreflexive,
    lex_lt_transitive, lex_lt_trichotomy, push_char, str_chars_eq, str_lex_lt, to_lower};

verus! {

/// The state of a left-to-right scan of `s`: the finished (lower-cased)
/// tokens, and the lower-cased alphanumeric run still open at the end.
pub open spec fn scan_state(s: Seq<char>) -> (Seq<Seq<char>>, Seq<char>)
    decreases s.len(),
{
    if s.len() == 0 {
        (Seq::empty(), Seq::empty())
    } else {
        let prev = scan_state(s.drop_last());
        let c = s.last();
        if is_alnum(c) {
            (prev.0, prev.1.push(to_lower(c)))
        } else if prev.1.len() > 0 {
            (prev.0.push(prev.1), Seq::empty())
        } else {
            (prev.0, Seq::empty())
        }
    }
}

/// The maximal alphanumeric runs of `s`, lower-cased, in order of appearance.
pub open spec fn raw_tokens(s: Seq<char>) -> Seq<Seq<char>> {
    let st = scan_state(s);
    if st.1.len() > 0 {
        st.0.push(st.1)
    } else {
        st.0
    }
}

/// The fixed stop-word list: articles, prepositions, and generic media words.
pub open spec fn is_stop_word(w: Seq<char>) -> bool {
    w == "the"@ || w == "a"@ || w == "an"@ || w == "and"@ || w == "or"@ || w == "of"@
        || w == "to"@ || w == "in"@ || w == "on"@ || w == "for"@ || w == "with"@ || w == "by"@
        || w == "at"@ || w == "from"@ || w == "is"@ || w == "it"@ || w == "this"@ || w == "that"@
        || w == "v"@ || w == "vs"@ || w == "final"@ || w == "copy"@ || w == "img"@
        || w == "photo"@ || w == "image"@ || w == "video"@ || w == "movie"@ || w == "clip"@
        || w == "scan"@ || w == "page"@ || w == "pg"@ || w == "doc"@
}

/// A token is kept when it is at least three characters long and is not a
/// stop word.
pub open spec fn valid_token(w: Seq<char>) -> bool {
    w.len() >= 3 && !is_stop_word(w)
}

/// The character sequences of a vector of strings.
pub open spec fn views(vs: Seq<String>) -> Seq<Seq<char>> {
    vs.map_values(|s: String| s@)
}

/// Some entry of `vs` reads exactly `x`.
pub open spec fn contains_view(vs: Seq<String>, x: Seq<char>) -> bool {
    exists|i: int| 0 <= i < vs.len() && vs[i]@ == x
}

/// The entries of `vs` are strictly sorted in lexicographic order (which
/// also means no entry repeats).
pub open spec fn sorted_strict(vs: Seq<String>) -> bool {
    forall|i: int, j: int| 0 <= i < j < vs.len() ==> lex_lt(vs[i]@, vs[j]@)
}

/// `r` is a gathered keyword list for `name`: strictly sorted, and its
/// entries are exactly the valid tokens of `name`.
pub open spec fn gathered_from(r: Seq<String>, name: Seq<char>) -> bool {
    &&& sorted_strict(r)
    &&& forall|k: int|
        0 <= k < r.len() ==> raw_tokens(name).contains(#[trigger] r[k]@) && valid_token(r[k]@)
    &&& forall|j: int|
        0 <= j < raw_tokens(name).len() && valid_token(#[trigger] raw_tokens(name)[j])
            ==> contains_view(r, raw_tokens(name)[j])
}

/// A strictly sorted keyword list holds no duplicate entries: sortedness
/// under the strict lexicographic order already is deduplication.
pub proof fn lemma_sorted_strict_distinct(vs: Seq<String>)
    requires
        sorted_strict(vs),
    ensures
        forall|i: int, j: int| 0 <= i < j < vs.len() ==> vs[i]@ != vs[j]@,
{
    assert forall|i: int, j: int| 0 <= i < j < vs.len() implies vs[i]@ != vs[j]@ by {
        if vs[i]@ == vs[j]@ {
            lex_lt_irreflexive(vs[i]@);
        }
    }
}

/// Decides `is_stop_word` on an executable string.
pub fn is_stop_word_exec(w: &str) -> (r: bool)
    ensures
        r == is_stop_word(w@),
{
    proof {
        reveal_strlit("the");
        reveal_strlit("a");
        reveal_strlit("an");
        reveal_strlit("and");
        reveal_strlit("or");
        reveal_strlit("of");
        reveal_strlit("to");
        reveal_strlit("in");
        reveal_strlit("on");
        reveal_strlit("for");
        reveal_strlit("with");
        reveal_strlit("by");
        reveal_strlit("at");
        reveal_strlit("from");
        reveal_strlit("is");
        reveal_strlit("it");
        reveal_strlit("this");
        reveal_strlit("that");
        reveal_strlit("v");
        reveal_strlit("vs");
        reveal_strlit("final");
        reveal_strlit("copy");
        reveal_strlit("img");
        reveal_strlit("photo");
        reveal_strlit("image");
        reveal_strlit("video");
        reveal_strlit("movie");
        reveal_strlit("clip");
        reveal_strlit("scan");
        reveal_strlit("page");
        reveal_strlit("pg");
        reveal_strlit("doc");
    }
    str_chars_eq(w, "the") || str_chars_eq(w, "a") || str_chars_eq(w, "an")
        || str_chars_eq(w, "and") || str_chars_eq(w, "or") || str_chars_eq(w, "of")
        || str_chars_eq(w, "to") || str_chars_eq(w, "in") || str_chars_eq(w, "on")
        || str_chars_eq(w, "for") || str_chars_eq(w, "with") || str_chars_eq(w, "by")
        || str_chars_eq(w, "at") || str_chars_eq(w, "from") || str_chars_eq(w, "is")
        || str_chars_eq(w, "it") || str_chars_eq(w, "this") || str_chars_eq(w, "that")
        || str_chars_eq(w, "v") || str_chars_eq(w, "vs") || str_chars_eq(w, "final")
        || str_chars_eq(w, "copy") || str_chars_eq(w, "img") || str_chars_eq(w, "photo")
        || str_chars_eq(w, "image") || str_chars_eq(w, "video") || str_chars_eq(w, "movie")
        || str_chars_eq(w, "clip") || str_chars_eq(w, "scan") || str_chars_eq(w, "page")
        || str_chars_eq(w, "pg") || str_chars_eq(w, "doc")
}

/// Decides `valid_token` on an executable string.
pub fn valid_token_exec(w: &str) -> (r: bool)
    ensures
        r == valid_token(w@),
{
    w.unicode_len() >= 3 && !is_stop_word_exec(w)
}

/// Inserts `w` at its sorted position in `v` unless an equal entry is
/// already present; keeps the list strictly sorted and adds exactly `w`'s
/// characters to the set of entries.
pub fn insert_sorted(v: &mut Vec<String>, w: String)
    requires
        sorted_strict(old(v)@),
    ensures
        sorted_strict(final(v)@),
        forall|x: Seq<char>|
            #[trigger] contains_view(final(v)@, x) <==> (contains_view(old(v)@, x) || x == w@),
{
    let mut idx: usize = 0;
    loop
        invariant
            sorted_strict(v@),
            v == old(v),
            idx <= v.len(),
            forall|k: int| 0 <= k < idx ==> lex_lt(v@[k]@, w@),
        ensures
            idx <= v.len(),
            forall|k: int| 0 <= k < idx ==> lex_lt(v@[k]@, w@),
            idx == v.len() || !lex_lt(v@[idx as int]@, w@),
        decreases v.len() - idx,
    {
        if idx == v.len() {
            break;
        }
        if str_lex_lt(v[idx].as_str(), w.as_str()) {
            idx = idx + 1;
        } else {
            break;
        }
    }
    if idx < v.len() && str_chars_eq(v[idx].as_str(), w.as_str()) {
        proof {
            assert(contains_view(v@, w@));
            assert forall|x: Seq<char>|
                #[trigger] contains_view(v@, x) <==> (contains_view(old(v)@, x) || x == w@) by {
                if x == w@ {
                    assert(v@[idx as int]@ == x);
                }
            }
        }
        return;
    }
    proof {
        if idx < v.len() {
            lex_lt_trichotomy(v@[idx as int]@, w@);
            assert(lex_lt(w@, v@[idx as int]@));
        }
    }
    let ghost oldv = v@;
    v.insert(idx, w);
    proof {
        assert forall|i: int, j: int| 0 <= i < j < v@.len() implies lex_lt(v@[i]@, v@[j]@) by {
            if j < idx {
                assert(v@[i]@ == oldv[i]@ && v@[j]@ == oldv[j]@);
            } else if j == idx {
                assert(v@[j]@ == w@ && v@[i]@ == oldv[i]@);
            } else {
                // j > idx, so v@[j] is the old entry j - 1, which is not
                // before w in the order.
                assert(v@[j]@ == oldv[j - 1]@);
                if idx < oldv.len() {
                    if j - 1 > idx {
                        lex_lt_transitive(w@, oldv[idx as int]@, oldv[j - 1]@);
                    }
                }
                if i < idx {
                    assert(v@[i]@ == oldv[i]@);
                    lex_lt_transitive(oldv[i]@, w@, oldv[j - 1]@);
                } else if i == idx {
                    assert(v@[i]@ == w@);
                } else {
                    assert(v@[i]@ == oldv[i - 1]@);
                }
            }
        }
        assert forall|x: Seq<char>|
            #[trigger] contains_view(v@, x) <==> (contains_view(oldv, x) || x == w@) by {
            if contains_view(v@, x) {
                let i = choose|i: int| 0 <= i < v@.len() && v@[i]@ == x;
                if i < idx {
                    assert(oldv[i]@ == x);
                } else if i == idx {
                    assert(x == w@);
                } else {
                    assert(oldv[i - 1]@ == x);
                }
            }
            if contains_view(oldv, x) {
                let i = choose|i: int| 0 <= i < oldv.len() && oldv[i]@ == x;
                if i < idx {
                    assert(v@[i]@ == x);
                } else {
                    assert(v@[i + 1]@ == x);
                }
            }
            if x == w@ {
                assert(v@[idx as int]@ == x);
            }
        }
    }
}

/// One step of the merge entry point: a token is appended when it is valid
/// and not already present; otherwise the list is unchanged.
pub open spec fn merge_one(acc: Seq<Seq<char>>, t: Seq<char>) -> Seq<Seq<char>> {
    if valid_token(t) && !acc.contains(t) {
        acc.push(t)
    } else {
        acc
    }
}

/// The merge of a token stream into an existing keyword list: prior entries
/// keep their order, and only genuinely new valid tokens are appended, in
/// order of first appearance.
pub open spec fn merge_tokens(acc: Seq<Seq<char>>, toks: Seq<Seq<char>>) -> Seq<Seq<char>>
    decreases toks.len(),
{
    if toks.len() == 0 {
        acc
    } else {
        merge_one(merge_tokens(acc, toks.drop_last()), toks.last())
    }
}

/// Whether some entry of `v` reads exactly `w`.
pub fn contains_str(v: &Vec<String>, w: &str) -> (r: bool)
    ensures
        r == views(v@).contains(w@),
{
    let mut i: usize = 0;
    while i < v.len()
        invariant
            i <= v@.len(),
            forall|j: int| 0 <= j < i ==> views(v@)[j] != w@,
        decreases v@.len() - i,
    {
        if str_chars_eq(v[i].as_str(), w) {
            proof {
                assert(views(v@)[i as int] == w@);
            }
            return true;
        }
        i = i + 1;
    }
    false
}

/// Merges the valid tokens of `s` into `keywords`: prior entries are kept
/// unchanged and in order; each valid token of `s` that is not already an
/// entry is appended once, in order of first appearance.
pub fn maybe_push_kw(keywords: &mut Vec<String>, s: &str)
    ensures
        views(final(keywords)@) == merge_tokens(views(old(keywords)@), raw_tokens(s@)),
        final(keywords)@.len() >= old(keywords)@.len(),
        forall|i: int|
            0 <= i < old(keywords)@.len() ==> final(keywords)@[i] == #[trigger] old(
                keywords,
            )@[i],
{
    let ghost acc0 = views(old(keywords)@);
    let len = s.unicode_len();
    let mut cur = String::new();
    let mut i: usize = 0;
    proof {
        assert(s@.take(0) =~= Seq::<char>::empty());
    }
    while i < len
        invariant
            i <= len,
            len == s@.len(),
            acc0 == views(old(keywords)@),
            cur@ == scan_state(s@.take(i as int)).1,
            views(keywords@) == merge_tokens(acc0, scan_state(s@.take(i as int)).0),
            keywords@.len() >= old(keywords)@.len(),
            forall|k: int|
                0 <= k < old(keywords)@.len() ==> keywords@[k] == #[trigger] old(keywords)@[k],
        decreases len - i,
    {
        let ghost p = s@.take(i as int);
        let ghost p1 = s@.take(i as int + 1);
        proof {
            assert(p1.last() == s@[i as int]);
            assert(p1.drop_last() =~= p);
        }
        let c = s.get_char(i);
        if exec_is_alnum(c) {
            push_char(&mut cur, exec_to_lower(c));
        } else {
            if cur.unicode_len() > 0 {
                let t = cur;
                cur = String::new();
                let ghost toks0 = scan_state(p).0;
                let ghost kw0 = keywords@;
                if valid_token_exec(t.as_str()) && !contains_str(keywords, t.as_str()) {
                    keywords.push(t);
                    proof {
                        assert(views(kw0.push(t)) =~= views(kw0).push(t@));
                    }
                }
                proof {
                    let toks1 = toks0.push(t@);
                    assert(scan_state(p1).0 == toks1);
                    assert(toks1.drop_last() =~= toks0);
                    assert(views(keywords@) =~= merge_one(merge_tokens(acc0, toks0), t@));
                    assert(views(keywords@) == merge_tokens(acc0, toks1));
                }
            }
        }
        i = i + 1;
    }
    proof {
        assert(s@.take(len as int) =~= s@);
    }
    if cur.unicode_len() > 0 {
        let t = cur;
        let ghost toks0 = scan_state(s@).0;
        let ghost kw0 = keywords@;
        if valid_token_exec(t.as_str()) && !contains_str(keywords, t.as_str()) {
            keywords.push(t);
            proof {
                assert(views(kw0.push(t)) =~= views(kw0).push(t@));
            }
        }
        proof {
            let toks1 = toks0.push(t@);
            assert(raw_tokens(s@) == toks1);
            assert(toks1.drop_last() =~= toks0);
            assert(views(keywords@) =~= merge_one(merge_tokens(acc0, toks0), t@));
            assert(views(keywords@) == merge_tokens(acc0, toks1));
        }
    } else {
        proof {
            assert(raw_tokens(s@) == scan_state(s@).0);
        }
    }
}

/// Folds one finished token into the sorted keyword list: inserted at its
/// sorted position when valid and new, dropped otherwise.
fn flush_token(out: &mut Vec<String>, t: String, Ghost(toks0): Ghost<Seq<Seq<char>>>)
    requires
        sorted_strict(old(out)@),
        forall|k: int|
            0 <= k < old(out)@.len() ==> toks0.contains(#[trigger] old(out)@[k]@) && valid_token(
                old(out)@[k]@,
            ),
        forall|j: int|
            0 <= j < toks0.len() && valid_token(#[trigger] toks0[j]) ==> contains_view(
                old(out)@,
                toks0[j],
            ),
    ensures
        sorted_strict(final(out)@),
        forall|k: int|
            0 <= k < final(out)@.len() ==> toks0.push(t@).contains(#[trigger] final(out)@[k]@)
                && valid_token(final(out)@[k]@),
        forall|j: int|
            0 <= j < toks0.push(t@).len() && valid_token(#[trigger] toks0.push(t@)[j])
                ==> contains_view(final(out)@, toks0.push(t@)[j]),
{
    let ghost old_out = out@;
    let ghost tv = t@;
    let valid = valid_token_exec(t.as_str());
    if valid {
        insert_sorted(out, t);
    }
    proof {
        let toks1 = toks0.push(tv);
        assert forall|k: int| 0 <= k < out@.len() implies toks1.contains(#[trigger] out@[k]@)
            && valid_token(out@[k]@) by {
            let x = out@[k]@;
            if valid {
                assert(contains_view(out@, x));
                if contains_view(old_out, x) {
                    let m = choose|m: int| 0 <= m < old_out.len() && old_out[m]@ == x;
                    assert(toks0.contains(old_out[m]@) && valid_token(old_out[m]@));
                    let j = choose|j: int| 0 <= j < toks0.len() && toks0[j] == x;
                    assert(toks1[j] == x);
                } else {
                    assert(x == tv);
                    assert(toks1[toks0.len() as int] == x);
                }
            } else {
                assert(toks0.contains(x) && valid_token(x));
                let j = choose|j: int| 0 <= j < toks0.len() && toks0[j] == x;
                assert(toks1[j] == x);
            }
        }
        assert forall|j: int|
            0 <= j < toks1.len() && valid_token(#[trigger] toks1[j]) implies contains_view(
            out@,
            toks1[j],
        ) by {
            if j < toks0.len() {
                assert(toks1[j] == toks0[j]);
                assert(contains_view(old_out, toks0[j]));
                if valid {
                    assert(contains_view(out@, toks0[j]));
                }
            } else {
                assert(toks1[j] == tv);
                assert(valid);
                assert(contains_view(out@, tv));
            }
        }
    }
}

/// Builds the fresh keyword list for a name: the valid tokens of the name,
/// strictly sorted and deduplicated; an entry appears exactly when it is a
/// valid token of the name.
pub fn gather_keywords(name: &str) -> (r: Vec<String>)
    ensures
        gathered_from(r@, name@),
{
    let len = name.unicode_len();
    let mut out: Vec<String> = Vec::new();
    let mut cur = String::new();
    let mut i: usize = 0;
    proof {
        assert(name@.take(0) =~= Seq::<char>::empty());
    }
    while i < len
        invariant
            i <= len,
            len == name@.len(),
            cur@ == scan_state(name@.take(i as int)).1,
            sorted_strict(out@),
            forall|k: int|
                0 <= k < out@.len() ==> scan_state(name@.take(i as int)).0.contains(
                    #[trigger] out@[k]@,
                ) && valid_token(out@[k]@),
            forall|j: int|
                0 <= j < scan_state(name@.take(i as int)).0.len() && valid_token(
                    #[trigger] scan_state(name@.take(i as int)).0[j],
                ) ==> contains_view(out@, scan_state(name@.take(i as int)).0[j]),
        decreases len - i,
    {
        let ghost p = name@.take(i as int);
        let ghost p1 = name@.take(i as int + 1);
        proof {
            assert(p1.last() == name@[i as int]);
            assert(p1.drop_last() =~= p);
        }
        let c = name.get_char(i);
        if exec_is_alnum(c) {
            push_char(&mut cur, exec_to_lower(c));
        } else {
            if cur.unicode_len() > 0 {
                let t = cur;
                cur = String::new();
                let ghost toks0 = scan_state(p).0;
                flush_token(&mut out, t, Ghost(toks0));
                proof {
                    assert(scan_state(p1).0 == toks0.push(t@));
                }
            }
        }
        i = i + 1;
    }
    proof {
        assert(name@.take(len as int) =~= name@);
    }
    if cur.unicode_len() > 0 {
        let t = cur;
        let ghost toks0 = scan_state(name@).0;
        flush_token(&mut out, t, Ghost(toks0));
        proof {
            assert(raw_tokens(name@) == toks0.push(t@));
        }
    } else {
        proof {
            assert(raw_tokens(name@) == scan_state(name@).0);
        }
    }
    out
}

/// A character as it stands inside a finished token: alphanumeric and
/// already lower-cased.
pub open spec fn lowered_alnum(c: char) -> bool {
    is_alnum(c) && to_lower(c) == c
}

/// A sequence in the shape of a token: non-empty, every character
/// alphanumeric and lower-cased.
pub open spec fn token_shaped(w: Seq<char>) -> bool {
    w.len() > 0 && forall|i: int| 0 <= i < w.len() ==> lowered_alnum(#[trigger] w[i])
}

/// Lower-casing an alphanumeric character yields a lower-cased
/// alphanumeric character.
pub proof fn lemma_to_lower_shape(c: char)
    requires
        is_alnum(c),
    ensures
        lowered_alnum(to_lower(c)),
{
}

/// Every finished token of a scan, and the open run, consist of
/// lower-cased alphanumeric characters; finished tokens are non-empty.
pub proof fn lemma_scan_state_shaped(s: Seq<char>)
    ensures
        forall|j: int|
            0 <= j < scan_state(s).0.len() ==> token_shaped(#[trigger] scan_state(s).0[j]),
        forall|i: int|
            0 <= i < scan_state(s).1.len() ==> lowered_alnum(#[trigger] scan_state(s).1[i]),
    decreases s.len(),
{
    if s.len() > 0 {
        lemma_scan_state_shaped(s.drop_last());
        let prev = scan_state(s.drop_last());
        let c = s.last();
        if is_alnum(c) {
            lemma_to_lower_shape(c);
            assert(scan_state(s).1 == prev.1.push(to_lower(c)));
            assert forall|i: int| 0 <= i < scan_state(s).1.len() implies lowered_alnum(
                #[trigger] scan_state(s).1[i],
            ) by {
                if i < prev.1.len() {
                    assert(scan_state(s).1[i] == prev.1[i]);
                } else {
                    assert(scan_state(s).1[i] == to_lower(c));
                }
            }
        } else if prev.1.len() > 0 {
            assert(token_shaped(prev.1));
            assert(scan_state(s).0 == prev.0.push(prev.1));
            assert forall|j: int| 0 <= j < scan_state(s).0.len() implies token_shaped(
                #[trigger] scan_state(s).0[j],
            ) by {
                if j < prev.0.len() {
                    assert(scan_state(s).0[j] == prev.0[j]);
                } else {
                    assert(scan_state(s).0[j] == prev.1);
                }
            }
        }
    }
}

/// Every token a name yields is token-shaped.
pub proof fn lemma_raw_tokens_shaped(s: Seq<char>)
    ensures
        forall|j: int|
            0 <= j < raw_tokens(s).len() ==> token_shaped(#[trigger] raw_tokens(s)[j]),
{
    lemma_scan_state_shaped(s);
}

/// Appending lower-cased alphanumeric characters extends the open run and
/// finishes no token.
pub proof fn lemma_scan_append_shaped(s: Seq<char>, w: Seq<char>)
    requires
        forall|i: int| 0 <= i < w.len() ==> lowered_alnum(#[trigger] w[i]),
    ensures
        scan_state(s + w).0 == scan_state(s).0,
        scan_state(s + w).1 == scan_state(s).1 + w,
    decreases w.len(),
{
    if w.len() == 0 {
        assert(s + w =~= s);
        assert(scan_state(s).1 + w =~= scan_state(s).1);
    } else {
        assert(forall|i: int|
            0 <= i < w.len() - 1 ==> #[trigger] w.drop_last()[i] == w[i]);
        lemma_scan_append_shaped(s, w.drop_last());
        assert((s + w).drop_last() =~= s + w.drop_last());
        assert((s + w).last() == w.last());
        assert(lowered_alnum(w.last()));
        assert((scan_state(s).1 + w.drop_last()).push(w.last()) =~= scan_state(s).1 + w);
    }
}

/// A space finishes the open run: the finished tokens become exactly the
/// name's tokens so far, and the run empties.
pub proof fn lemma_scan_push_space(s: Seq<char>)
    ensures
        scan_state(s.push(' ')).0 == raw_tokens(s),
        scan_state(s.push(' ')).1 == Seq::<char>::empty(),
{
    assert(s.push(' ').drop_last() =~= s);
    assert(!is_alnum(' '));
}

/// The entries joined with single spaces between them.
pub open spec fn join_spaced(ws: Seq<Seq<char>>) -> Seq<char>
    decreases ws.len(),
{
    if ws.len() == 0 {
        Seq::empty()
    } else if ws.len() == 1 {
        ws[0]
    } else {
        join_spaced(ws.drop_last()).push(' ') + ws.last()
    }
}

/// Scanning a space-joined list of token-shaped entries finishes exactly
/// the entries before the last one and leaves the last as the open run.
pub proof fn lemma_scan_join(ws: Seq<Seq<char>>)
    requires
        ws.len() > 0,
        forall|j: int| 0 <= j < ws.len() ==> token_shaped(#[trigger] ws[j]),
    ensures
        scan_state(join_spaced(ws)).0 == ws.drop_last(),
        scan_state(join_spaced(ws)).1 == ws.last(),
    decreases ws.len(),
{
    if ws.len() == 1 {
        assert(Seq::<char>::empty() + ws[0] =~= ws[0]);
        lemma_scan_append_shaped(Seq::empty(), ws[0]);
        assert(scan_state(Seq::<char>::empty()).1 + ws[0] =~= ws[0]);
        assert(scan_state(join_spaced(ws)).0 =~= ws.drop_last());
    } else {
        let pre = ws.drop_last();
        assert(forall|j: int| 0 <= j < pre.len() ==> #[trigger] pre[j] == ws[j]);
        lemma_scan_join(pre);
        let j0 = join_spaced(pre);
        lemma_scan_push_space(j0);
        // the open run is the non-empty last entry of `pre`, so the space
        // finishes it
        assert(raw_tokens(j0) == scan_state(j0).0.push(scan_state(j0).1));
        assert(pre.drop_last().push(pre.last()) =~= pre);
        lemma_scan_append_shaped(j0.push(' '), ws.last());
        assert(Seq::<char>::empty() + ws.last() =~= ws.last());
    }
}

/// The tokens of a space-joined list of token-shaped entries are exactly
/// those entries, in order.
pub proof fn lemma_raw_tokens_join(ws: Seq<Seq<char>>)
    requires
        forall|j: int| 0 <= j < ws.len() ==> token_shaped(#[trigger] ws[j]),
    ensures
        raw_tokens(join_spaced(ws)) == ws,
{
    if ws.len() == 0 {
        assert(raw_tokens(join_spaced(ws)) =~= ws);
    } else {
        lemma_scan_join(ws);
        assert(ws.drop_last().push(ws.last()) =~= ws);
    }
}

/// Two strictly sorted lists with the same entries are equal entry for
/// entry.
pub proof fn lemma_sorted_set_unique(a: Seq<String>, b: Seq<String>)
    requires
        sorted_strict(a),
        sorted_strict(b),
        forall|x: Seq<char>| #[trigger] contains_view(a, x) <==> contains_view(b, x),
    ensures
        a.len() == b.len(),
        forall|i: int| 0 <= i < a.len() ==> a[i]@ == b[i]@,
    decreases a.len(),
{
    if a.len() == 0 {
        if b.len() > 0 {
            assert(contains_view(b, b[0]@));
            assert(contains_view(a, b[0]@));
            assert(false);
        }
    } else {
        assert(contains_view(a, a[0]@));
        assert(contains_view(b, a[0]@));
        let i = choose|i: int| 0 <= i < b.len() && b[i]@ == a[0]@;
        assert(contains_view(b, b[0]@));
        assert(contains_view(a, b[0]@));
        let j = choose|j: int| 0 <= j < a.len() && a[j]@ == b[0]@;
        if i > 0 && j > 0 {
            assert(lex_lt(b[0]@, b[i]@));
            assert(lex_lt(a[0]@, a[j]@));
            lex_lt_transitive(a[0]@, b[0]@, a[0]@);
            lex_lt_irreflexive(a[0]@);
            assert(false);
        }
        assert(a[0]@ == b[0]@);
        let a1 = a.drop_first();
        let b1 = b.drop_first();
        assert(forall|k: int| 0 <= k < a1.len() ==> #[trigger] a1[k] == a[k + 1]);
        assert(forall|k: int| 0 <= k < b1.len() ==> #[trigger] b1[k] == b[k + 1]);
        assert forall|x: Seq<char>| #[trigger] contains_view(a1, x) <==> contains_view(b1, x) by {
            if contains_view(a1, x) {
                let k = choose|k: int| 0 <= k < a1.len() && a1[k]@ == x;
                assert(a[k + 1]@ == x);
                assert(contains_view(a, x));
                assert(contains_view(b, x));
                let m = choose|m: int| 0 <= m < b.len() && b[m]@ == x;
                assert(lex_lt(a[0]@, a[k + 1]@));
                if m == 0 {
                    lex_lt_irreflexive(a[0]@);
                }
                assert(b1[m - 1]@ == x);
                assert(contains_view(b1, x));
            }
            if contains_view(b1, x) {
                let k = choose|k: int| 0 <= k < b1.len() && b1[k]@ == x;
                assert(b[k + 1]@ == x);
                assert(contains_view(b, x));
                assert(contains_view(a, x));
                let m = choose|m: int| 0 <= m < a.len() && a[m]@ == x;
                assert(lex_lt(b[0]@, b[k + 1]@));
                if m == 0 {
                    lex_lt_irreflexive(b[0]@);
                }
                assert(a1[m - 1]@ == x);
                assert(contains_view(a1, x));
            }
        }
        lemma_sorted_set_unique(a1, b1);
        assert forall|i2: int| 0 <= i2 < a.len() implies a[i2]@ == b[i2]@ by {
            if i2 > 0 {
                assert(a1[i2 - 1]@ == b1[i2 - 1]@);
            }
        }
    }
}

/// Gathering is a fixpoint on its own output: when a list was gathered
/// from some name, gathering again from the name the list itself spells
/// (its entries joined by spaces) reproduces the list, entry for entry —
/// same set, same order.
pub proof fn lemma_gather_fixpoint(name: Seq<char>, r: Seq<String>, r2: Seq<String>)
    requires
        gathered_from(r, name),
        gathered_from(r2, join_spaced(views(r))),
    ensures
        r2.len() == r.len(),
        forall|i: int| 0 <= i < r.len() ==> r2[i]@ == r[i]@,
{
    lemma_raw_tokens_shaped(name);
    assert forall|j: int| 0 <= j < views(r).len() implies token_shaped(
        #[trigger] views(r)[j],
    ) by {
        assert(raw_tokens(name).contains(r[j]@));
        let m = choose|m: int| 0 <= m < raw_tokens(name).len() && raw_tokens(name)[m] == r[j]@;
        assert(token_shaped(raw_tokens(name)[m]));
    }
    lemma_raw_tokens_join(views(r));
    let toks = raw_tokens(join_spaced(views(r)));
    assert(toks == views(r));
    assert forall|x: Seq<char>| #[trigger] contains_view(r2, x) <==> contains_view(r, x) by {
        if contains_view(r2, x) {
            let k = choose|k: int| 0 <= k < r2.len() && r2[k]@ == x;
            assert(toks.contains(r2[k]@));
            let m = choose|m: int| 0 <= m < toks.len() && toks[m] == x;
            assert(r[m]@ == x);
            assert(contains_view(r, x));
        }
        if contains_view(r, x) {
            let k = choose|k: int| 0 <= k < r.len() && r[k]@ == x;
            assert(raw_tokens(name).contains(r[k]@) && valid_token(r[k]@));
            assert(toks[k] == x);
            assert(contains_view(r2, toks[k]));
        }
    }
    lemma_sorted_set_unique(r2, r);
}

} // verus!
