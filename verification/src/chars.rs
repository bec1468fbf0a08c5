//! Character-level helpers: ASCII classification, lower-casing, and
//! lexicographic comparison of character sequences.

use vstd::prelude::*;

verus! {

/// True for the ASCII alphanumeric characters; tokenization keeps exactly
/// these and splits on everything else.
pub open spec fn is_alnum(c: char) -> bool {
    ('a' <= c && c <= 'z') || ('A' <= c && c <= 'Z') || ('0' <= c && c <= '9')
}

/// ASCII lower-casing of a single character; other characters are unchanged.
pub open spec fn to_lower(c: char) -> char {
    if 'A' <= c && c <= 'Z' {
        ((c as int) + 32) as char
    } else {
        c
    }
}

/// ASCII lower-casing of a whole character sequence.
pub open spec fn lower_seq(s: Seq<char>) -> Seq<char> {
    s.map_values(|c: char| to_lower(c))
}

pub fn exec_is_alnum(c: char) -> (r: bool)
    ensures
        r == is_alnum(c),
{
    ('a' <= c && c <= 'z') || ('A' <= c && c <= 'Z') || ('0' <= c && c <= '9')
}

pub fn exec_to_lower(c: char) -> (r: char)
    ensures
        r == to_lower(c),
{
    if 'A' <= c && c <= 'Z' {
        ((c as u8) + 32) as char
    } else {
        c
    }
}

/// Relies on String::push: appends the given character at the end.
#[verifier::external_body]
pub fn push_char(s: &mut String, c: char)
    ensures
        final(s)@ == old(s)@.push(c),
{
    s.push(c)
}

/// ASCII lower-casing of a whole string, as an executable function.
pub fn lower_str(s: &str) -> (r: String)
    ensures
        r@ == lower_seq(s@),
{
    let len = s.unicode_len();
    let mut out = String::new();
    let mut i: usize = 0;
    proof {
        assert(out@ =~= lower_seq(s@.take(0)));
    }
    while i < len
        invariant
            i <= len,
            len == s@.len(),
            out@ =~= lower_seq(s@.take(i as int)),
        decreases len - i,
    {
        let c = exec_to_lower(s.get_char(i));
        push_char(&mut out, c);
        proof {
            assert(lower_seq(s@.take(i as int + 1)) =~= lower_seq(s@.take(i as int)).push(
                to_lower(s@[i as int]),
            ));
        }
        i = i + 1;
    }
    proof {
        assert(s@.take(len as int) =~= s@);
        assert(out@ =~= lower_seq(s@));
    }
    out
}

/// The ASCII whitespace characters stripped when a field value is trimmed.
pub open spec fn is_space(c: char) -> bool {
    c == ' ' || c == '\t' || c == '\n' || c == '\r'
}

/// `s` without its leading whitespace.
pub open spec fn trim_front(s: Seq<char>) -> Seq<char>
    decreases s.len(),
{
    if s.len() > 0 && is_space(s[0]) {
        trim_front(s.drop_first())
    } else {
        s
    }
}

/// `s` without its trailing whitespace.
pub open spec fn trim_back(s: Seq<char>) -> Seq<char>
    decreases s.len(),
{
    if s.len() > 0 && is_space(s.last()) {
        trim_back(s.drop_last())
    } else {
        s
    }
}

/// `s` without leading and trailing whitespace.
pub open spec fn trim_spec(s: Seq<char>) -> Seq<char> {
    trim_back(trim_front(s))
}

/// Strips leading and trailing ASCII whitespace.
pub fn trim_ascii(s: &str) -> (r: String)
    ensures
        r@ == trim_spec(s@),
{
    let len = s.unicode_len();
    let mut a: usize = 0;
    proof {
        assert(s@.skip(0) =~= s@);
    }
    loop
        invariant
            a <= len,
            len == s@.len(),
            trim_front(s@) == trim_front(s@.skip(a as int)),
        ensures
            a <= len,
            len == s@.len(),
            trim_front(s@) =~= s@.skip(a as int),
        decreases len - a,
    {
        if a == len {
            proof {
                assert(s@.skip(a as int).len() == 0);
            }
            break;
        }
        let c = s.get_char(a);
        if !(c == ' ' || c == '\t' || c == '\n' || c == '\r') {
            proof {
                assert(s@.skip(a as int)[0] == s@[a as int]);
            }
            break;
        }
        proof {
            assert(s@.skip(a as int)[0] == s@[a as int]);
            assert(s@.skip(a as int).drop_first() =~= s@.skip(a as int + 1));
        }
        a = a + 1;
    }
    let mut b: usize = len;
    proof {
        assert(s@.subrange(a as int, b as int) =~= s@.skip(a as int));
    }
    loop
        invariant
            a <= b <= len,
            len == s@.len(),
            trim_back(s@.skip(a as int)) == trim_back(s@.subrange(a as int, b as int)),
        ensures
            a <= b <= len,
            trim_back(s@.skip(a as int)) =~= s@.subrange(a as int, b as int),
        decreases b,
    {
        if b == a {
            proof {
                assert(s@.subrange(a as int, b as int).len() == 0);
            }
            break;
        }
        let c = s.get_char(b - 1);
        if !(c == ' ' || c == '\t' || c == '\n' || c == '\r') {
            proof {
                assert(s@.subrange(a as int, b as int).last() == s@[b as int - 1]);
            }
            break;
        }
        proof {
            assert(s@.subrange(a as int, b as int).last() == s@[b as int - 1]);
            assert(s@.subrange(a as int, b as int).drop_last() =~= s@.subrange(
                a as int,
                b as int - 1,
            ));
        }
        b = b - 1;
    }
    let r = s.substring_char(a, b).to_owned();
    proof {
        assert(r@ == s@.subrange(a as int, b as int));
    }
    r
}

/// The character sequence behind an optional string.
pub open spec fn view_opt(o: Option<String>) -> Option<Seq<char>> {
    match o {
        Some(s) => Some(s@),
        None => None,
    }
}

/// Strict lexicographic order on character sequences, by scalar value.
pub open spec fn lex_lt(a: Seq<char>, b: Seq<char>) -> bool
    decreases a.len(),
{
    if b.len() == 0 {
        false
    } else if a.len() == 0 {
        true
    } else if a[0] != b[0] {
        (a[0] as int) < (b[0] as int)
    } else {
        lex_lt(a.drop_first(), b.drop_first())
    }
}

/// `lex_lt` is trichotomous: two sequences are ordered one way, the other
/// way, or equal.
pub proof fn lex_lt_trichotomy(a: Seq<char>, b: Seq<char>)
    ensures
        lex_lt(a, b) || lex_lt(b, a) || a =~= b,
    decreases a.len(),
{
    if b.len() == 0 || a.len() == 0 {
    } else if a[0] != b[0] {
    } else {
        lex_lt_trichotomy(a.drop_first(), b.drop_first());
        if a.drop_first() =~= b.drop_first() {
            assert forall|i: int| 0 <= i < a.len() implies a[i] == b[i] by {
                if i > 0 {
                    assert(a[i] == a.drop_first()[i - 1]);
                    assert(b[i] == b.drop_first()[i - 1]);
                }
            }
            assert(a =~= b);
        }
    }
}

/// `lex_lt` is irreflexive.
pub proof fn lex_lt_irreflexive(a: Seq<char>)
    ensures
        !lex_lt(a, a),
    decreases a.len(),
{
    if a.len() > 0 {
        lex_lt_irreflexive(a.drop_first());
    }
}

/// `lex_lt` is transitive.
pub proof fn lex_lt_transitive(a: Seq<char>, b: Seq<char>, c: Seq<char>)
    requires
        lex_lt(a, b),
        lex_lt(b, c),
    ensures
        lex_lt(a, c),
    decreases a.len(),
{
    if c.len() == 0 || b.len() == 0 {
    } else if a.len() == 0 {
    } else {
        if a[0] == b[0] && b[0] == c[0] {
            lex_lt_transitive(a.drop_first(), b.drop_first(), c.drop_first());
        }
    }
}

/// Executable comparison deciding `lex_lt` on two string slices.
pub fn str_lex_lt(a: &str, b: &str) -> (r: bool)
    ensures
        r == lex_lt(a@, b@),
{
    let a_len = a.unicode_len();
    let b_len = b.unicode_len();
    let mut i: usize = 0;
    proof {
        assert(a@.skip(0) =~= a@);
        assert(b@.skip(0) =~= b@);
    }
    loop
        invariant
            i <= a_len,
            i <= b_len,
            a_len == a@.len(),
            b_len == b@.len(),
            forall|j: int| 0 <= j < i ==> a@[j] == b@[j],
            lex_lt(a@, b@) == lex_lt(a@.skip(i as int), b@.skip(i as int)),
        decreases a_len - i,
    {
        if i == b_len {
            proof {
                assert(b@.skip(i as int).len() == 0);
            }
            return false;
        }
        if i == a_len {
            proof {
                assert(a@.skip(i as int).len() == 0);
                assert(b@.skip(i as int).len() > 0);
            }
            return true;
        }
        let ca = a.get_char(i);
        let cb = b.get_char(i);
        proof {
            assert(a@.skip(i as int)[0] == a@[i as int]);
            assert(b@.skip(i as int)[0] == b@[i as int]);
            assert(a@.skip(i as int).drop_first() =~= a@.skip(i as int + 1));
            assert(b@.skip(i as int).drop_first() =~= b@.skip(i as int + 1));
        }
        if ca != cb {
            return ca < cb;
        }
        i = i + 1;
    }
}

/// Executable equality of two string slices' character sequences.
pub fn str_chars_eq(a: &str, b: &str) -> (r: bool)
    ensures
        r == (a@ =~= b@),
{
    let a_len = a.unicode_len();
    let b_len = b.unicode_len();
    if a_len != b_len {
        return false;
    }
    let mut i: usize = 0;
    while i < a_len
        invariant
            i <= a_len,
            a_len == a@.len(),
            a_len == b@.len(),
            forall|j: int| 0 <= j < i ==> a@[j] == b@[j],
        decreases a_len - i,
    {
        if a.get_char(i) != b.get_char(i) {
            return false;
        }
        i = i + 1;
    }
    true
}

/// Executable case-insensitive (ASCII) equality of two string slices.
pub fn str_eq_ignore_case(a: &str, b: &str) -> (r: bool)
    ensures
        r == (lower_seq(a@) =~= lower_seq(b@)),
{
    let a_len = a.unicode_len();
    let b_len = b.unicode_len();
    if a_len != b_len {
        return false;
    }
    let mut i: usize = 0;
    while i < a_len
        invariant
            i <= a_len,
            a_len == a@.len(),
            a_len == b@.len(),
            forall|j: int| 0 <= j < i ==> to_lower(a@[j]) == to_lower(b@[j]),
        decreases a_len - i,
    {
        let ca = exec_to_lower(a.get_char(i));
        let cb = exec_to_lower(b.get_char(i));
        if ca != cb {
            proof {
                assert(lower_seq(a@)[i as int] != lower_seq(b@)[i as int]);
            }
            return false;
        }
        i = i + 1;
    }
    proof {
        assert(lower_seq(a@) =~= lower_seq(b@));
    }
    true
}

/// Executable test that `s` begins with `prefix` (by characters).
pub fn str_starts_with(s: &str, prefix: &str) -> (r: bool)
    ensures
        r == (s@.len() >= prefix@.len() && s@.take(prefix@.len() as int) =~= prefix@),
{
    let s_len = s.unicode_len();
    let p_len = prefix.unicode_len();
    if s_len < p_len {
        return false;
    }
    let mut i: usize = 0;
    while i < p_len
        invariant
            i <= p_len,
            p_len <= s_len,
            s_len == s@.len(),
            p_len == prefix@.len(),
            forall|j: int| 0 <= j < i ==> s@[j] == prefix@[j],
        decreases p_len - i,
    {
        if s.get_char(i) != prefix.get_char(i) {
            proof {
                assert(s@.take(p_len as int)[i as int] != prefix@[i as int]);
            }
            return false;
        }
        i = i + 1;
    }
    proof {
        assert(s@.take(p_len as int) =~= prefix@);
    }
    true
}

} // verus!
