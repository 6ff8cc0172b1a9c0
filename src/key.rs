//! Normalisation of a raw key field into a comparison key.
use vstd::prelude::*;

verus! {

/// The characters with the Unicode `White_Space` property.
pub open spec fn is_white_space(c: char) -> bool {
    ('\u{9}' <= c && c <= '\u{d}') || c == ' ' || c == '\u{85}' || c == '\u{a0}'
        || c == '\u{1680}' || ('\u{2000}' <= c && c <= '\u{200a}') || c == '\u{2028}'
        || c == '\u{2029}' || c == '\u{202f}' || c == '\u{205f}' || c == '\u{3000}'
}

/// `s` with its leading and trailing white space removed.
pub open spec fn trim_seq(s: Seq<char>) -> Seq<char>
    decreases s.len(),
{
    if s.len() == 0 {
        s
    } else if is_white_space(s[0]) {
        trim_seq(s.drop_first())
    } else if is_white_space(s.last()) {
        trim_seq(s.drop_last())
    } else {
        s
    }
}

/// Every character of `s` is ASCII.
pub open spec fn is_ascii_seq(s: Seq<char>) -> bool {
    forall|i: int| 0 <= i < s.len() ==> (#[trigger] s[i] as u32) < 128
}

/// The code of `c` with ASCII `A` to `Z` taken to `a` to `z`.
pub open spec fn ascii_folded(c: char) -> int {
    if 'A' <= c && c <= 'Z' {
        c as u32 + 32
    } else {
        c as u32 as int
    }
}

/// `r` is `s` with ASCII `A` to `Z` taken to `a` to `z`.
pub open spec fn is_ascii_lowered(s: Seq<char>, r: Seq<char>) -> bool {
    r.len() == s.len() && forall|i: int| 0 <= i < s.len() ==> r[i] as u32 == ascii_folded(#[trigger] s[i])
}

/// What `str::to_lowercase` makes of a string.
pub uninterp spec fn lower_of(s: Seq<char>) -> Seq<char>;

/// The comparison key of a raw field: `None` when the field is blank,
/// else the trimmed field in lower case.
pub open spec fn normalized(raw: Seq<char>) -> Option<Seq<char>> {
    if trim_seq(raw).len() == 0 {
        None
    } else {
        Some(lower_of(trim_seq(raw)))
    }
}

/// Relies on `str::trim`: it removes leading and trailing characters
/// that have the Unicode `White_Space` property.
#[verifier::external_body]
fn trim_str(s: &str) -> (r: &str)
    ensures
        r@ == trim_seq(s@),
{
    s.trim()
}

/// Relies on `str::to_lowercase`: the result depends on the characters
/// alone, each character lowers to one or more characters, and on ASCII
/// only `A` to `Z` change, to `a` to `z`.
#[verifier::external_body]
fn to_lower(s: &str) -> (r: String)
    ensures
        r@ == lower_of(s@),
        s@.len() == 0 <==> r@.len() == 0,
        is_ascii_seq(s@) ==> is_ascii_lowered(s@, r@),
{
    s.to_lowercase()
}

/// The comparison key of `raw`, or `None` when `raw` is empty or white space only.
pub fn normalize(raw: &str) -> (r: Option<String>)
    ensures
        r matches Some(k) ==> normalized(raw@) == Some(k@),
        r is None <==> normalized(raw@) is None,
        is_ascii_seq(raw@) ==> (r matches Some(k) ==> is_ascii_lowered(trim_seq(raw@), k@)),
{
    let t = trim_str(raw);
    proof {
        lemma_trim_keeps_ascii(raw@);
    }
    if t.is_empty() {
        None
    } else {
        Some(to_lower(t))
    }
}

proof fn lemma_trim_keeps_ascii(s: Seq<char>)
    ensures
        is_ascii_seq(s) ==> is_ascii_seq(trim_seq(s)),
    decreases s.len(),
{
    if s.len() > 0 && is_ascii_seq(s) {
        let f = s.drop_first();
        let l = s.drop_last();
        assert forall|i: int| 0 <= i < f.len() implies (#[trigger] f[i] as u32) < 128 by {
            assert(f[i] == s[i + 1]);
        }
        assert forall|i: int| 0 <= i < l.len() implies (#[trigger] l[i] as u32) < 128 by {
            assert(l[i] == s[i]);
        }
        lemma_trim_keeps_ascii(f);
        lemma_trim_keeps_ascii(l);
    }
}

/// White space added at either end of a field leaves its key unchanged.
pub proof fn lemma_normalize_ignores_padding(s: Seq<char>, c: char)
    requires
        is_white_space(c),
    ensures
        normalized(seq![c] + s) == normalized(s),
        normalized(s.push(c)) == normalized(s),
{
    lemma_trim_drops_leading(s, c);
    lemma_trim_drops_trailing(s, c);
}

proof fn lemma_trim_drops_leading(s: Seq<char>, c: char)
    requires
        is_white_space(c),
    ensures
        trim_seq(seq![c] + s) == trim_seq(s),
{
    assert((seq![c] + s).drop_first() =~= s);
}

proof fn lemma_trim_drops_trailing(s: Seq<char>, c: char)
    requires
        is_white_space(c),
    ensures
        trim_seq(s.push(c)) == trim_seq(s),
    decreases s.len(),
{
    if s.len() == 0 {
        assert(s.push(c).drop_first() =~= s);
    } else if is_white_space(s[0]) {
        assert(s.push(c).drop_first() =~= s.drop_first().push(c));
        lemma_trim_drops_trailing(s.drop_first(), c);
    } else {
        assert(s.push(c).drop_last() =~= s);
    }
}

/// `s` and `t` are ASCII and differ at most in the case of letters.
pub open spec fn equal_ignoring_ascii_case(s: Seq<char>, t: Seq<char>) -> bool {
    &&& s.len() == t.len()
    &&& is_ascii_seq(s)
    &&& is_ascii_seq(t)
    &&& forall|i: int| 0 <= i < s.len() ==> ascii_folded(#[trigger] s[i]) == ascii_folded(t[i])
}

proof fn lemma_fold_keeps_white_space(c: char, d: char)
    requires
        (c as u32) < 128,
        (d as u32) < 128,
        ascii_folded(c) == ascii_folded(d),
    ensures
        is_white_space(c) == is_white_space(d),
{
}

proof fn lemma_trim_pair(s: Seq<char>, t: Seq<char>)
    requires
        equal_ignoring_ascii_case(s, t),
    ensures
        equal_ignoring_ascii_case(trim_seq(s), trim_seq(t)),
    decreases s.len(),
{
    if s.len() > 0 {
        let n = s.len() - 1;
        lemma_fold_keeps_white_space(s[0], t[0]);
        lemma_fold_keeps_white_space(s[n], t[n]);
        let (sf, tf) = (s.drop_first(), t.drop_first());
        let (sl, tl) = (s.drop_last(), t.drop_last());
        assert forall|i: int| 0 <= i < sf.len() implies ascii_folded(#[trigger] sf[i]) == ascii_folded(
            tf[i],
        ) && (sf[i] as u32) < 128 && (tf[i] as u32) < 128 by {
            assert(sf[i] == s[i + 1] && tf[i] == t[i + 1]);
        }
        assert forall|i: int| 0 <= i < sl.len() implies ascii_folded(#[trigger] sl[i]) == ascii_folded(
            tl[i],
        ) && (sl[i] as u32) < 128 && (tl[i] as u32) < 128 by {
            assert(sl[i] == s[i] && tl[i] == t[i]);
        }
        if is_white_space(s[0]) {
            lemma_trim_pair(sf, tf);
        } else if is_white_space(s.last()) {
            lemma_trim_pair(sl, tl);
        }
    }
}

/// Two ASCII fields that differ only in the case of letters are both blank
/// or both not.
pub proof fn lemma_blank_ignores_ascii_case(s: Seq<char>, t: Seq<char>)
    requires
        equal_ignoring_ascii_case(s, t),
    ensures
        (normalized(s) is None) == (normalized(t) is None),
{
    lemma_trim_pair(s, t);
}

/// Two ASCII fields that differ only in the case of letters have equal keys,
/// as `normalize` gives them on ASCII.
pub proof fn lemma_keys_ignore_ascii_case(s: Seq<char>, t: Seq<char>, ks: Seq<char>, kt: Seq<char>)
    requires
        equal_ignoring_ascii_case(s, t),
        is_ascii_lowered(trim_seq(s), ks),
        is_ascii_lowered(trim_seq(t), kt),
    ensures
        ks == kt,
{
    lemma_trim_pair(s, t);
    let (a, b) = (trim_seq(s), trim_seq(t));
    assert forall|i: int| 0 <= i < ks.len() implies ks[i] == kt[i] by {
        assert(ks[i] as u32 == ascii_folded(a[i]));
        assert(kt[i] as u32 == ascii_folded(b[i]));
        vstd::utf8::char_u32_cast(ks[i], ks[i] as u32);
        vstd::utf8::char_u32_cast(kt[i], kt[i] as u32);
    }
    assert(ks =~= kt);
}

} // verus!
