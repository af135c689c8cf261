//! Text primitives shared by the parser, the validator and the search filter:
//! trimming, splitting on a separator, substring search and ordinal ordering,
//! all stated over sequences of characters.
use vstd::prelude::*;
use vstd::string::StrSliceExecFns;

verus! {

/// Whether `c` counts as white space when text is trimmed.
///
/// This names the answer of `char::is_whitespace`, which follows the Unicode
/// `White_Space` property; nothing else is assumed about it.
pub uninterp spec fn is_whitespace(c: char) -> bool;

/// The lower-case form of a whole text.
///
/// This names the result of `str::to_lowercase`, which applies the Unicode
/// lower-case mapping (it is not a character-by-character map, so it is named
/// on whole texts).
pub uninterp spec fn lowercase(s: Seq<char>) -> Seq<char>;

/// Every character of `s` is white space (the empty text included).
pub open spec fn is_blank(s: Seq<char>) -> bool {
    forall|i: int| 0 <= i < s.len() ==> is_whitespace(#[trigger] s[i])
}

/// How many white-space characters `s` starts with.
pub open spec fn leading_blanks(s: Seq<char>) -> nat
    decreases s.len(),
{
    if s.len() > 0 && is_whitespace(s[0]) {
        1 + leading_blanks(s.drop_first())
    } else {
        0
    }
}

/// How many white-space characters `s` ends with.
pub open spec fn trailing_blanks(s: Seq<char>) -> nat
    decreases s.len(),
{
    if s.len() > 0 && is_whitespace(s.last()) {
        1 + trailing_blanks(s.drop_last())
    } else {
        0
    }
}

/// `s` without its leading and trailing white space.
pub open spec fn trimmed(s: Seq<char>) -> Seq<char> {
    if leading_blanks(s) >= s.len() {
        Seq::empty()
    } else {
        s.subrange(leading_blanks(s) as int, s.len() - trailing_blanks(s))
    }
}

/// Position of the first `c` in `s`, or `s.len()` when there is none.
pub open spec fn first_index(s: Seq<char>, c: char) -> int
    decreases s.len(),
{
    if s.len() == 0 {
        0
    } else if s[0] == c {
        0
    } else {
        1 + first_index(s.drop_first(), c)
    }
}

/// The pieces of `s` that lie between occurrences of `sep`, in order. A text
/// without `sep` is its own single piece.
pub open spec fn split_on(s: Seq<char>, sep: char) -> Seq<Seq<char>>
    decreases s.len(),
{
    let i = first_index(s, sep);
    if 0 <= i < s.len() {
        seq![s.take(i)] + split_on(s.skip(i + 1), sep)
    } else {
        seq![s]
    }
}

/// `needle` occurs in `hay` as a contiguous run of characters.
pub open spec fn occurs_in(needle: Seq<char>, hay: Seq<char>) -> bool {
    exists|i: int|
        0 <= i && i + needle.len() <= hay.len() && #[trigger] hay.subrange(
            i,
            i + needle.len(),
        ) == needle
}

/// Strict ordinal order of texts: the first differing character decides by its
/// code point, and a proper prefix comes first.
pub open spec fn lex_less(a: Seq<char>, b: Seq<char>) -> bool
    decreases a.len(),
{
    if b.len() == 0 {
        false
    } else if a.len() == 0 {
        true
    } else if a[0] != b[0] {
        (a[0] as u32) < (b[0] as u32)
    } else {
        lex_less(a.drop_first(), b.drop_first())
    }
}

/// Calls `char::is_whitespace`; the contract only names its answer.
#[verifier::external_body]
pub(crate) fn char_is_whitespace(c: char) -> (b: bool)
    ensures
        b == is_whitespace(c),
{
    c.is_whitespace()
}

/// Calls `str::to_lowercase`; the contract only names its result.
#[verifier::external_body]
pub(crate) fn to_lowercase(s: &str) -> (lower: String)
    ensures
        lower@ == lowercase(s@),
{
    s.to_lowercase()
}

/// Calls `str::contains` with a text pattern, which reports whether the
/// pattern matches a sub-slice of the text.
#[verifier::external_body]
pub(crate) fn contains_text(hay: &str, needle: &str) -> (found: bool)
    ensures
        found == occurs_in(needle@, hay@),
{
    hay.contains(needle)
}

/// Compares two texts with `<` on `str`, which orders texts lexicographically
/// by their bytes and thereby by their code points.
#[verifier::external_body]
pub(crate) fn text_less(a: &str, b: &str) -> (less: bool)
    ensures
        less == lex_less(a@, b@),
{
    a < b
}

/// The characters of `s`, for indexed access.
pub fn chars_of(s: &str) -> (v: Vec<char>)
    ensures
        v@ == s@,
{
    let mut v: Vec<char> = Vec::new();
    for c in it: s.chars()
        invariant
            v@ == s@.take(it.index() as int),
            it.seq() == s@,
    {
        v.push(c);
    }
    v
}

/// `leading_blanks` is the position of the first character that is not
/// white space.
pub proof fn lemma_leading_blanks(s: Seq<char>, a: int)
    requires
        0 <= a <= s.len(),
        forall|i: int| 0 <= i < a ==> is_whitespace(#[trigger] s[i]),
        a == s.len() || !is_whitespace(s[a]),
    ensures
        leading_blanks(s) == a,
    decreases s.len(),
{
    if a > 0 {
        let t = s.drop_first();
        assert forall|i: int| 0 <= i < a - 1 implies is_whitespace(#[trigger] t[i]) by {
            assert(t[i] == s[i + 1]);
        }
        lemma_leading_blanks(t, a - 1);
    }
}

/// `trailing_blanks` counts back to the last character that is not white
/// space.
pub proof fn lemma_trailing_blanks(s: Seq<char>, b: int)
    requires
        0 <= b <= s.len(),
        forall|i: int| b <= i < s.len() ==> is_whitespace(#[trigger] s[i]),
        b == 0 || !is_whitespace(s[b - 1]),
    ensures
        trailing_blanks(s) == s.len() - b,
    decreases s.len(),
{
    if b < s.len() {
        let t = s.drop_last();
        assert forall|i: int| b <= i < t.len() implies is_whitespace(#[trigger] t[i]) by {
            assert(t[i] == s[i]);
        }
        lemma_trailing_blanks(t, b);
    }
}

/// `first_index` is the first position that holds `c`.
pub proof fn lemma_first_index(s: Seq<char>, c: char, i: int)
    requires
        0 <= i <= s.len(),
        forall|j: int| 0 <= j < i ==> #[trigger] s[j] != c,
        i == s.len() || s[i] == c,
    ensures
        first_index(s, c) == i,
    decreases s.len(),
{
    if i > 0 {
        let t = s.drop_first();
        assert forall|j: int| 0 <= j < i - 1 implies #[trigger] t[j] != c by {
            assert(t[j] == s[j + 1]);
        }
        lemma_first_index(t, c, i - 1);
    }
}

/// The bounds of the trimmed part of `v[lo..hi]`.
pub fn trim_range(v: &Vec<char>, lo: usize, hi: usize) -> (r: (usize, usize))
    requires
        lo <= hi <= v.len(),
    ensures
        lo <= r.0 <= r.1 <= hi,
        v@.subrange(r.0 as int, r.1 as int) == trimmed(v@.subrange(lo as int, hi as int)),
{
    let ghost s = v@.subrange(lo as int, hi as int);
    let mut a: usize = lo;
    while a < hi && char_is_whitespace(v[a])
        invariant
            lo <= a <= hi <= v.len(),
            s == v@.subrange(lo as int, hi as int),
            forall|i: int| 0 <= i < a - lo ==> is_whitespace(#[trigger] s[i]),
        decreases hi - a,
    {
        a += 1;
    }
    proof {
        lemma_leading_blanks(s, a - lo);
    }
    if a == hi {
        assert(v@.subrange(a as int, a as int) =~= Seq::<char>::empty());
        return (a, a);
    }
    let mut b: usize = hi;
    while b > a + 1 && char_is_whitespace(v[b - 1])
        invariant
            lo <= a < b <= hi <= v.len(),
            s == v@.subrange(lo as int, hi as int),
            forall|i: int| b - lo <= i < s.len() ==> is_whitespace(#[trigger] s[i]),
        decreases b,
    {
        b -= 1;
    }
    proof {
        assert(!is_whitespace(s[a - lo]));
        lemma_trailing_blanks(s, b - lo);
        assert(v@.subrange(a as int, b as int) =~= s.subrange(a - lo, b - lo));
    }
    (a, b)
}

/// `s` without its leading and trailing white space.
pub fn trim(s: &str) -> (r: &str)
    ensures
        r@ == trimmed(s@),
{
    let v = chars_of(s);
    let (a, b) = trim_range(&v, 0, v.len());
    assert(v@.subrange(0, v.len() as int) =~= v@);
    s.substring_char(a, b)
}

} // verus!

verus! {

/// Position of the first `c` in `v[lo..hi]`, or `hi` when there is none.
pub fn find_char(v: &Vec<char>, lo: usize, hi: usize, c: char) -> (at: usize)
    requires
        lo <= hi <= v.len(),
    ensures
        lo <= at <= hi,
        at - lo == first_index(v@.subrange(lo as int, hi as int), c),
{
    let ghost s = v@.subrange(lo as int, hi as int);
    let mut at: usize = lo;
    while at < hi && v[at] != c
        invariant
            lo <= at <= hi <= v.len(),
            s == v@.subrange(lo as int, hi as int),
            forall|j: int| 0 <= j < at - lo ==> #[trigger] s[j] != c,
        decreases hi - at,
    {
        at += 1;
    }
    proof {
        lemma_first_index(s, c, at - lo);
    }
    at
}

/// The views of the pieces that a list of bounds cuts out of `s`.
pub open spec fn cut(s: Seq<char>, bounds: Seq<(usize, usize)>) -> Seq<Seq<char>> {
    Seq::new(bounds.len(), |k: int| s.subrange(bounds[k].0 as int, bounds[k].1 as int))
}

/// The bounds of the pieces of `v` between occurrences of `sep`.
pub fn split_ranges(v: &Vec<char>, sep: char) -> (bounds: Vec<(usize, usize)>)
    ensures
        forall|k: int| 0 <= k < bounds@.len() ==> (#[trigger] bounds@[k]).0 <= bounds@[k].1 <= v.len(),
        cut(v@, bounds@) == split_on(v@, sep),
{
    let n = v.len();
    let mut bounds: Vec<(usize, usize)> = Vec::new();
    let mut start: usize = 0;
    let mut i: usize = 0;
    proof {
        assert(v@.skip(0) =~= v@);
        assert(cut(v@, bounds@) + split_on(v@.skip(0), sep) =~= split_on(v@, sep));
    }
    while i < n
        invariant
            start <= i <= n == v.len(),
            forall|k: int| 0 <= k < bounds@.len() ==> (#[trigger] bounds@[k]).0 <= bounds@[k].1 <= n,
            forall|j: int| start <= j < i ==> #[trigger] v@[j] != sep,
            cut(v@, bounds@) + split_on(v@.skip(start as int), sep) == split_on(v@, sep),
        decreases n - i,
    {
        if v[i] == sep {
            let ghost rest = v@.skip(start as int);
            let ghost old_bounds = bounds@;
            proof {
                assert forall|j: int| 0 <= j < i - start implies #[trigger] rest[j] != sep by {
                    assert(rest[j] == v@[start + j]);
                }
                lemma_first_index(rest, sep, i - start);
                assert(rest.take(i - start) =~= v@.subrange(start as int, i as int));
                assert(rest.skip(i - start + 1) =~= v@.skip(i + 1));
            }
            bounds.push((start, i));
            proof {
                assert(cut(v@, bounds@) =~= cut(v@, old_bounds) + seq![
                    v@.subrange(start as int, i as int),
                ]);
                assert(cut(v@, bounds@) + split_on(v@.skip(i + 1), sep) =~= cut(v@, old_bounds)
                    + split_on(rest, sep));
            }
            start = i + 1;
        }
        i += 1;
    }
    let ghost rest = v@.skip(start as int);
    let ghost old_bounds = bounds@;
    proof {
        assert forall|j: int| 0 <= j < n - start implies #[trigger] rest[j] != sep by {
            assert(rest[j] == v@[start + j]);
        }
        lemma_first_index(rest, sep, n - start);
        assert(rest =~= v@.subrange(start as int, n as int));
    }
    bounds.push((start, n));
    proof {
        assert(cut(v@, bounds@) =~= cut(v@, old_bounds) + seq![rest]);
    }
    bounds
}

} // verus!

verus! {

/// No text comes before itself.
pub proof fn lemma_lex_irreflexive(a: Seq<char>)
    ensures
        !lex_less(a, a),
    decreases a.len(),
{
    if a.len() > 0 {
        lemma_lex_irreflexive(a.drop_first());
    }
}

/// The ordinal order is transitive.
pub proof fn lemma_lex_transitive(a: Seq<char>, b: Seq<char>, c: Seq<char>)
    requires
        lex_less(a, b),
        lex_less(b, c),
    ensures
        lex_less(a, c),
    decreases a.len(),
{
    if a.len() > 0 && b.len() > 0 && c.len() > 0 {
        if a[0] == b[0] && b[0] == c[0] {
            lemma_lex_transitive(a.drop_first(), b.drop_first(), c.drop_first());
        }
    }
}

/// Of two different texts one comes before the other.
pub proof fn lemma_lex_total(a: Seq<char>, b: Seq<char>)
    ensures
        lex_less(a, b) || a == b || lex_less(b, a),
    decreases a.len(),
{
    if a.len() > 0 && b.len() > 0 {
        if a[0] == b[0] {
            lemma_lex_total(a.drop_first(), b.drop_first());
            if a.drop_first() == b.drop_first() {
                assert(a =~= seq![a[0]] + a.drop_first());
                assert(b =~= seq![b[0]] + b.drop_first());
            }
        } else {
            vstd::utf8::char_u32_cast(a[0], a[0] as u32);
            vstd::utf8::char_u32_cast(b[0], b[0] as u32);
        }
    } else if a.len() == 0 && b.len() == 0 {
        assert(a =~= b);
    }
}

/// If `a` is not before `b` and `b` is not before `c`, then `a` is not
/// before `c`.
pub proof fn lemma_lex_not_less_transitive(a: Seq<char>, b: Seq<char>, c: Seq<char>)
    requires
        !lex_less(a, b),
        !lex_less(b, c),
    ensures
        !lex_less(a, c),
{
    lemma_lex_total(a, b);
    if lex_less(a, c) {
        if lex_less(b, a) {
            lemma_lex_transitive(b, a, c);
        }
    }
}

} // verus!

verus! {

/// Every text comes before all that follow it.
pub open spec fn ascending(s: Seq<Seq<char>>) -> bool {
    forall|i: int, j: int| 0 <= i < j < s.len() ==> lex_less(#[trigger] s[i], #[trigger] s[j])
}

/// Puts `text` into an ascending list, unless the list holds it already.
pub fn insert_sorted(list: &mut Vec<String>, text: &String)
    requires
        ascending(crate::stock_data::texts(old(list)@)),
    ensures
        ascending(crate::stock_data::texts(final(list)@)),
        forall|c: Seq<char>|
            #[trigger] crate::stock_data::texts(final(list)@).contains(c) <==> (
            crate::stock_data::texts(old(list)@).contains(c) || c == text@),
{
    let ghost before = crate::stock_data::texts(list@);
    let mut p: usize = 0;
    while p < list.len() && text_less(list[p].as_str(), text.as_str())
        invariant
            p <= list@.len(),
            list@ == old(list)@,
            before == crate::stock_data::texts(list@),
            forall|i: int| 0 <= i < p ==> lex_less(#[trigger] before[i], text@),
        decreases list@.len() - p,
    {
        p += 1;
    }
    if p < list.len() && list[p] == *text {
        proof {
            assert(before[p as int] == text@);
        }
        return ;
    }
    list.insert(p, text.clone());
    proof {
        let after = crate::stock_data::texts(list@);
        assert(after =~= before.insert(p as int, text@));
        if p < before.len() {
            lemma_lex_total(before[p as int], text@);
        }
        assert forall|i: int, j: int| 0 <= i < j < after.len() implies lex_less(
            #[trigger] after[i],
            #[trigger] after[j],
        ) by {
            if j == p {
                assert(after[i] == before[i]);
            } else if i == p {
                assert(after[j] == before[j - 1]);
                if j - 1 > p {
                    assert(lex_less(before[p as int], before[j - 1]));
                    lemma_lex_transitive(text@, before[p as int], before[j - 1]);
                }
            } else {
                let a = if i < p { i } else { i - 1 };
                let b = if j < p { j } else { j - 1 };
                assert(after[i] == before[a] && after[j] == before[b]);
            }
        }
        assert forall|c: Seq<char>| #[trigger]
            after.contains(c) <==> (before.contains(c) || c == text@) by {
            if after.contains(c) {
                let i = after.index_of(c);
                if i < p {
                    assert(before[i] == c);
                } else if i > p {
                    assert(before[i - 1] == c);
                }
            }
            if before.contains(c) {
                let i = before.index_of(c);
                if i < p {
                    assert(after[i] == c);
                } else {
                    assert(after[i + 1] == c);
                }
            }
            if c == text@ {
                assert(after[p as int] == c);
            }
        }
    }
}

} // verus!
