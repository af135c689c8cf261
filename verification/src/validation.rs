//! The format rules for a single tag, and the shared cache of verdicts.
use vstd::prelude::*;
use crate::text::{
    char_is_whitespace, chars_of, is_blank, is_whitespace, leading_blanks, trailing_blanks,
    trimmed,
};

verus! {

/// How a tag fares against the naming rules.
#[derive(Debug, Clone, Copy, PartialEq, Eq, Structural)]
pub enum ValidationStatus {
    Valid,
    Warning,
    Error,
    Special,
}

impl ValidationStatus {
    /// The lower-case name of the status.
    pub open spec fn name(&self) -> Seq<char> {
        match self {
            ValidationStatus::Valid => "valid"@,
            ValidationStatus::Warning => "warning"@,
            ValidationStatus::Error => "error"@,
            ValidationStatus::Special => "special"@,
        }
    }

    /// Severity as a sort key: the graver the status, the larger the weight.
    pub open spec fn spec_weight(&self) -> u8 {
        match self {
            ValidationStatus::Error => 4,
            ValidationStatus::Warning => 3,
            ValidationStatus::Special => 2,
            ValidationStatus::Valid => 1,
        }
    }

    /// The status that a stored weight stands for; anything unknown reads as
    /// `Valid`.
    pub open spec fn spec_from_weight(w: u8) -> ValidationStatus {
        if w == 4 {
            ValidationStatus::Error
        } else if w == 3 {
            ValidationStatus::Warning
        } else if w == 2 {
            ValidationStatus::Special
        } else {
            ValidationStatus::Valid
        }
    }

    /// The lower-case name of the status.
    pub fn as_str(&self) -> (s: &'static str)
        ensures
            s@ == self.name(),
    {
        match self {
            ValidationStatus::Valid => "valid",
            ValidationStatus::Warning => "warning",
            ValidationStatus::Error => "error",
            ValidationStatus::Special => "special",
        }
    }

    /// Severity as a sort key.
    #[verifier::when_used_as_spec(spec_weight)]
    pub fn weight(&self) -> (w: u8)
        ensures
            w == self.spec_weight(),
            1 <= w <= 4,
    {
        match self {
            ValidationStatus::Error => 4,
            ValidationStatus::Warning => 3,
            ValidationStatus::Special => 2,
            ValidationStatus::Valid => 1,
        }
    }

    /// The status that a stored weight stands for.
    #[verifier::when_used_as_spec(spec_from_weight)]
    pub fn from_weight(w: u8) -> (status: ValidationStatus)
        ensures
            status == Self::spec_from_weight(w),
    {
        if w == 4 {
            ValidationStatus::Error
        } else if w == 3 {
            ValidationStatus::Warning
        } else if w == 2 {
            ValidationStatus::Special
        } else {
            ValidationStatus::Valid
        }
    }
}

/// Reading a weight back gives the status it came from.
pub proof fn lemma_weight_round_trip(status: ValidationStatus)
    ensures
        ValidationStatus::spec_from_weight(status.spec_weight()) == status,
{
}

/// The longest detail, in characters, that the rules accept.
pub const MAX_DETAIL_CHARS: usize = 100;

/// The characters that belong to the tag syntax and may not occur inside a
/// name or a detail.
pub open spec fn is_reserved(c: char) -> bool {
    c == ':' || c == '{' || c == '}'
}

/// `s` holds a reserved character.
pub open spec fn has_reserved(s: Seq<char>) -> bool {
    exists|i: int| 0 <= i < s.len() && is_reserved(#[trigger] s[i])
}

/// A name is in order when it is not blank, holds no reserved character and
/// has no white space at either end.
pub open spec fn name_in_order(name: Seq<char>) -> bool {
    !is_blank(name) && !has_reserved(name) && trimmed(name) == name
}

/// A detail is in order when it holds no reserved character, has no white
/// space at either end and is at most `MAX_DETAIL_CHARS` characters long.
pub open spec fn detail_in_order(detail: Seq<char>) -> bool {
    !has_reserved(detail) && trimmed(detail) == detail && detail.len() <= MAX_DETAIL_CHARS
}

/// The verdict on a tag: `Error` as soon as the name or a present detail is
/// out of order, `Valid` otherwise.
pub open spec fn tag_verdict(name: Seq<char>, detail: Option<Seq<char>>) -> ValidationStatus {
    if name_in_order(name) && (detail is None || detail_in_order(detail->0)) {
        ValidationStatus::Valid
    } else {
        ValidationStatus::Error
    }
}

/// The text of an optional string slice.
pub open spec fn opt_text(d: Option<&str>) -> Option<Seq<char>> {
    match d {
        Some(s) => Some(s@),
        None => None,
    }
}

/// A missing detail counts as the empty text wherever tags are keyed.
pub open spec fn detail_or_empty(d: Option<Seq<char>>) -> Seq<char> {
    match d {
        Some(s) => s,
        None => Seq::empty(),
    }
}

/// Tags are told apart by their name and their detail, a missing detail
/// counting as an empty one.
pub open spec fn tag_key(name: Seq<char>, detail: Option<Seq<char>>) -> (Seq<char>, Seq<char>) {
    (name, detail_or_empty(detail))
}

/// The blank runs at both ends lie inside the text, hold white space only
/// and end at a character that is not white space.
pub proof fn lemma_blank_bounds(s: Seq<char>)
    ensures
        leading_blanks(s) <= s.len(),
        trailing_blanks(s) <= s.len(),
        forall|i: int| 0 <= i < leading_blanks(s) ==> is_whitespace(#[trigger] s[i]),
        forall|i: int| s.len() - trailing_blanks(s) <= i < s.len() ==> is_whitespace(#[trigger] s[i]),
        leading_blanks(s) < s.len() ==> !is_whitespace(s[leading_blanks(s) as int]),
        trailing_blanks(s) < s.len() ==> !is_whitespace(s[s.len() - trailing_blanks(s) - 1]),
    decreases s.len(),
{
    if s.len() > 0 {
        if is_whitespace(s[0]) {
            let t = s.drop_first();
            lemma_blank_bounds(t);
            assert forall|i: int| 0 <= i < leading_blanks(s) implies is_whitespace(#[trigger] s[i]) by {
                if i > 0 {
                    assert(s[i] == t[i - 1]);
                }
            }
            if leading_blanks(s) < s.len() {
                assert(s[leading_blanks(s) as int] == t[leading_blanks(t) as int]);
            }
        }
        if is_whitespace(s.last()) {
            let t = s.drop_last();
            lemma_blank_bounds(t);
            assert forall|i: int| s.len() - trailing_blanks(s) <= i < s.len() implies is_whitespace(
                #[trigger] s[i],
            ) by {
                if i < s.len() - 1 {
                    assert(s[i] == t[i]);
                }
            }
            if trailing_blanks(s) < s.len() {
                assert(s[s.len() - trailing_blanks(s) - 1] == t[t.len() - trailing_blanks(t) - 1]);
            }
        }
    }
}

/// A text equals its trimmed form exactly when it is empty or neither its
/// first nor its last character is white space.
pub proof fn lemma_trimmed_is_self(s: Seq<char>)
    ensures
        trimmed(s) == s <==> (s.len() == 0 || (!is_whitespace(s[0]) && !is_whitespace(s.last()))),
{
    lemma_blank_bounds(s);
    if s.len() == 0 {
        assert(trimmed(s) =~= s);
    } else {
        let a = leading_blanks(s);
        let t = trailing_blanks(s);
        if a < s.len() {
            if a + t > s.len() - 1 {
                assert(is_whitespace(s[a as int]));
            }
            assert(trimmed(s).len() == s.len() - t - a);
            if !is_whitespace(s[0]) && !is_whitespace(s.last()) {
                assert(trimmed(s) =~= s);
            }
        } else {
            assert(is_whitespace(s[0]));
        }
    }
}

/// A missing detail and an empty detail get the same verdict, so both may
/// share one cache entry.
pub proof fn lemma_empty_detail_is_harmless(name: Seq<char>)
    ensures
        tag_verdict(name, None) == tag_verdict(name, Some(Seq::<char>::empty())),
{
    let e = Seq::<char>::empty();
    lemma_trimmed_is_self(e);
}

/// What one pass over a text finds out about it.
pub struct TextShape {
    pub blank: bool,
    pub reserved: bool,
    pub trim: bool,
    pub len: usize,
}

/// Looks at every character of `s` once.
pub fn survey(s: &str) -> (shape: TextShape)
    ensures
        shape.blank == is_blank(s@),
        shape.reserved == has_reserved(s@),
        shape.trim == (trimmed(s@) == s@),
        shape.len == s@.len(),
{
    let v = chars_of(s);
    let n = v.len();
    let mut blank = true;
    let mut reserved = false;
    let mut i: usize = 0;
    while i < n
        invariant
            i <= n == v.len(),
            blank == is_blank(v@.take(i as int)),
            reserved == has_reserved(v@.take(i as int)),
        decreases n - i,
    {
        let c = v[i];
        let ghost before = v@.take(i as int);
        let ghost after = v@.take(i + 1);
        proof {
            assert(after =~= before.push(c));
            assert forall|j: int| 0 <= j < before.len() implies before[j] == after[j] by {}
            if has_reserved(before) {
                let j = choose|j: int| 0 <= j < before.len() && is_reserved(#[trigger] before[j]);
                assert(is_reserved(after[j]));
            }
            if has_reserved(after) && !is_reserved(c) {
                let j = choose|j: int| 0 <= j < after.len() && is_reserved(#[trigger] after[j]);
                assert(is_reserved(before[j]));
            }
            if is_reserved(c) {
                assert(is_reserved(after[i as int]));
            }
            if is_blank(after) {
                assert forall|j: int| 0 <= j < before.len() implies is_whitespace(
                    #[trigger] before[j],
                ) by {
                    assert(is_whitespace(after[j]));
                }
                assert(is_whitespace(after[i as int]));
            }
        }
        if !char_is_whitespace(c) {
            blank = false;
        }
        if c == ':' || c == '{' || c == '}' {
            reserved = true;
        }
        i += 1;
    }
    proof {
        assert(v@.take(n as int) =~= v@);
        lemma_trimmed_is_self(v@);
    }
    let trim = n == 0 || (!char_is_whitespace(v[0]) && !char_is_whitespace(v[n - 1]));
    TextShape { blank, reserved, trim, len: n }
}

/// Classifies a tag by the format rules, without any cache.
pub fn classify_tag(tag_name: &str, tag_detail: Option<&str>) -> (status: ValidationStatus)
    ensures
        status == tag_verdict(tag_name@, opt_text(tag_detail)),
{
    let name = survey(tag_name);
    let mut in_order = !name.blank && !name.reserved && name.trim;
    match tag_detail {
        Some(detail) => {
            let d = survey(detail);
            if d.reserved || !d.trim || d.len > MAX_DETAIL_CHARS {
                in_order = false;
            }
        },
        None => {},
    }
    if in_order {
        ValidationStatus::Valid
    } else {
        ValidationStatus::Error
    }
}

} // verus!
