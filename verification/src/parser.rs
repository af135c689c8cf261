//! The tag micro-syntax: `category:tag{detail}` clauses separated by `;`.
//! Parsing is permissive; judging names and details is left to the validator.
use vstd::prelude::*;
use vstd::string::StrSliceExecFns;
use regex::Regex;
use crate::stock_data::{item_views, TagItem, TagItemView};
use crate::text::{
    chars_of, cut, find_char, first_index, split_on, split_ranges, trim, trim_range, trimmed,
};

verus! {

/// The pattern that tells a value with a detail, `tag{detail}`, from a plain
/// one.
pub const DETAIL_PATTERN: &'static str = "^(.+?)\\{(.+?)\\}$";

/// `regex::Regex`, a compiled regular expression, opaque to the verifier.
#[verifier::external_type_specification]
#[verifier::external_body]
pub struct ExRegex(regex::Regex);

/// The pattern that a regex was compiled from.
///
/// This names the result of `regex::Regex::as_str`, which gives back the
/// text that was handed to `Regex::new`.
pub uninterp spec fn regex_source(re: Regex) -> Seq<char>;

/// What a regular expression captures in a text: `None` where `pattern` does
/// not compile or finds no match in `haystack`, else one entry per capture
/// group, the whole match first, each the matched text or `None` for a group
/// that took no part.
///
/// This names the result of `regex::Regex::captures` on a regex that
/// `regex::Regex::new` compiled from `pattern`; nothing else is assumed about
/// it.
pub uninterp spec fn regex_captures(pattern: Seq<char>, haystack: Seq<char>) -> Option<
    Seq<Option<Seq<char>>>,
>;

/// Calls `regex::Regex::new`, which compiles `pattern` or refuses it. A regex
/// that comes back was made from `pattern`; where none comes back, the
/// pattern does not compile, and by the meaning of `regex_captures` it then
/// captures nothing anywhere.
#[verifier::external_body]
fn compile(pattern: &str) -> (compiled: Option<Regex>)
    ensures
        compiled matches Some(re) ==> regex_source(re) == pattern@,
        compiled is None ==> forall|h: Seq<char>| #[trigger] regex_captures(pattern@, h) is None,
{
    Regex::new(pattern).ok()
}

/// Calls `regex::Regex::captures` on `haystack` and copies out the text of
/// every group that `Captures::iter` yields. The contract only names the
/// result.
#[verifier::external_body]
fn captures_with(re: &Regex, haystack: &str) -> (groups: Option<Vec<Option<String>>>)
    ensures
        groups.deep_view() == regex_captures(regex_source(*re), haystack@),
{
    re.captures(haystack).map(
        |caps| caps.iter().map(|group| group.map(|m| m.as_str().to_string())).collect(),
    )
}

/// The view of an optional tag.
pub open spec fn tag_view(tag: Option<TagItem>) -> Option<TagItemView> {
    match tag {
        Some(t) => Some(t@),
        None => None,
    }
}

/// The name and detail parts of a successful capture: the first and second
/// group, where both took part in the match.
pub open spec fn detail_parts(groups: Option<Seq<Option<Seq<char>>>>) -> Option<
    (Seq<char>, Seq<char>),
> {
    match groups {
        Some(g) => if g.len() >= 3 && g[1] is Some && g[2] is Some {
            Some((g[1]->0, g[2]->0))
        } else {
            None
        },
        None => None,
    }
}

/// The tag that a trimmed value stands for, given what the detail pattern
/// captured in it: name and detail, both trimmed, where it captured both;
/// else the whole value as a name without detail; no tag for an empty value.
pub open spec fn spec_tag_from_captures(
    value: Seq<char>,
    groups: Option<Seq<Option<Seq<char>>>>,
) -> Option<TagItemView> {
    match detail_parts(groups) {
        Some((name, detail)) => Some(
            TagItemView { name: trimmed(name), detail: Some(trimmed(detail)) },
        ),
        None => if value.len() > 0 {
            Some(TagItemView { name: value, detail: None })
        } else {
            None
        },
    }
}

/// The tag that a trimmed value stands for.
pub open spec fn spec_read_tag(value: Seq<char>) -> Option<TagItemView> {
    spec_tag_from_captures(value, regex_captures(DETAIL_PATTERN@, value))
}

/// Builds the tag of a trimmed value from what the detail pattern captured.
pub fn tag_from_captures(value: &str, groups: &Option<Vec<Option<String>>>) -> (tag: Option<TagItem>)
    ensures
        tag_view(tag) == spec_tag_from_captures(value@, groups.deep_view()),
{
    match groups {
        Some(g) => {
            if g.len() >= 3 {
                proof {
                    assert(g.deep_view()[1] == g@[1].deep_view());
                    assert(g.deep_view()[2] == g@[2].deep_view());
                }
                match &g[1] {
                    Some(name) => {
                        match &g[2] {
                            Some(detail) => {
                                let name = trim(name.as_str()).to_owned();
                                let detail = trim(detail.as_str()).to_owned();
                                return Some(TagItem { name, detail: Some(detail) });
                            },
                            None => {},
                        }
                    },
                    None => {},
                }
            }
        },
        None => {},
    }
    if !value.is_empty() {
        Some(TagItem { name: value.to_owned(), detail: None })
    } else {
        None
    }
}

/// The detail pattern, compiled once and used for every value.
pub struct DetailPattern {
    compiled: Option<Regex>,
}

impl DetailPattern {
    /// The pattern that the held regex was compiled from, if one is held.
    pub closed spec fn source(&self) -> Option<Seq<char>> {
        match self.compiled {
            Some(re) => Some(regex_source(re)),
            None => None,
        }
    }

    /// Compiles the detail pattern.
    pub fn new() -> (pattern: Self)
        ensures
            pattern.wf(),
    {
        DetailPattern { compiled: compile(DETAIL_PATTERN) }
    }

    /// The pattern is ready for use: it holds the regex that was compiled
    /// from the detail pattern, or it holds none because the detail pattern
    /// does not compile, and then the detail pattern captures nothing in any
    /// text.
    pub open spec fn wf(&self) -> bool {
        match self.source() {
            Some(p) => p == DETAIL_PATTERN@,
            None => forall|h: Seq<char>| #[trigger] regex_captures(DETAIL_PATTERN@, h) is None,
        }
    }

    /// What the pattern captures in `value`.
    pub fn captures(&self, value: &str) -> (groups: Option<Vec<Option<String>>>)
        requires
            self.wf(),
        ensures
            groups.deep_view() == regex_captures(DETAIL_PATTERN@, value@),
    {
        match &self.compiled {
            Some(re) => captures_with(re, value),
            None => None,
        }
    }

    /// Reads the tag of a trimmed value.
    pub fn read_tag(&self, value: &str) -> (tag: Option<TagItem>)
        requires
            self.wf(),
        ensures
            tag_view(tag) == spec_read_tag(value@),
    {
        let groups = self.captures(value);
        tag_from_captures(value, &groups)
    }
}

/// Reads the tag of a trimmed value.
pub fn read_tag(value: &str) -> (tag: Option<TagItem>)
    ensures
        tag_view(tag) == spec_read_tag(value@),
{
    DetailPattern::new().read_tag(value)
}

/// One well-formed clause of a tag text.
pub ghost struct Clause {
    pub category: Seq<char>,
    pub tag: Option<TagItemView>,
}

/// Reads one `;`-separated piece. A piece counts only if, once trimmed, it
/// has a `:` that is not its first character: the text before the first `:`
/// is the category, the text after it the value, both trimmed.
pub open spec fn read_clause(piece: Seq<char>) -> Option<Clause> {
    let section = trimmed(piece);
    let colon = first_index(section, ':');
    if 0 < colon < section.len() {
        Some(
            Clause {
                category: trimmed(section.take(colon)),
                tag: spec_read_tag(trimmed(section.skip(colon + 1))),
            },
        )
    } else {
        None
    }
}

/// The clauses among `pieces`, in order.
pub open spec fn clauses_of(pieces: Seq<Seq<char>>) -> Seq<Clause>
    decreases pieces.len(),
{
    if pieces.len() == 0 {
        Seq::empty()
    } else {
        match read_clause(pieces.last()) {
            Some(c) => clauses_of(pieces.drop_last()).push(c),
            None => clauses_of(pieces.drop_last()),
        }
    }
}

/// The clauses of a raw tag text, in order.
pub open spec fn clauses(raw: Seq<char>) -> Seq<Clause> {
    clauses_of(split_on(raw, ';'))
}

/// The distinct categories of some clauses, in order of first appearance.
pub open spec fn categories_of(cl: Seq<Clause>) -> Seq<Seq<char>>
    decreases cl.len(),
{
    if cl.len() == 0 {
        Seq::empty()
    } else {
        let rest = categories_of(cl.drop_last());
        if rest.contains(cl.last().category) {
            rest
        } else {
            rest.push(cl.last().category)
        }
    }
}

/// The tags that some clauses give to `category`, in order.
pub open spec fn tags_under(cl: Seq<Clause>, category: Seq<char>) -> Seq<TagItemView>
    decreases cl.len(),
{
    if cl.len() == 0 {
        Seq::empty()
    } else {
        let rest = tags_under(cl.drop_last(), category);
        if cl.last().category == category && cl.last().tag is Some {
            rest.push(cl.last().tag->0)
        } else {
            rest
        }
    }
}

/// Clauses gathered by category: every distinct category once, in order of
/// first appearance, with its tags in order.
pub open spec fn grouped(cl: Seq<Clause>) -> Seq<(Seq<char>, Seq<TagItemView>)> {
    Seq::new(
        categories_of(cl).len(),
        |k: int| (categories_of(cl)[k], tags_under(cl, categories_of(cl)[k])),
    )
}

/// The categories of a raw tag text, in order of first appearance.
pub open spec fn tag_categories(raw: Seq<char>) -> Seq<Seq<char>> {
    categories_of(clauses(raw))
}

/// The tags that a raw tag text gives to `category`, in order.
pub open spec fn category_tags(raw: Seq<char>, category: Seq<char>) -> Seq<TagItemView> {
    tags_under(clauses(raw), category)
}

} // verus!

verus! {

/// The view of what one piece was read as.
pub open spec fn clause_view(piece: Option<(String, Option<TagItem>)>) -> Option<Clause> {
    match piece {
        Some((category, tag)) => Some(Clause { category: category@, tag: tag_view(tag) }),
        None => None,
    }
}

/// Reads the piece `v[lo..hi]` of the raw text.
pub fn read_piece(pattern: &DetailPattern, raw: &str, v: &Vec<char>, lo: usize, hi: usize) -> (piece: Option<
    (String, Option<TagItem>),
>)
    requires
        pattern.wf(),
        v@ == raw@,
        lo <= hi <= v.len(),
    ensures
        clause_view(piece) == read_clause(v@.subrange(lo as int, hi as int)),
{
    let (a, b) = trim_range(v, lo, hi);
    let colon = find_char(v, a, b, ':');
    if colon == a || colon == b {
        return None;
    }
    let ghost section = v@.subrange(a as int, b as int);
    proof {
        assert(section.take(colon - a) =~= v@.subrange(a as int, colon as int));
        assert(section.skip(colon - a + 1) =~= v@.subrange(colon + 1, b as int));
    }
    let (ca, cb) = trim_range(v, a, colon);
    let (va, vb) = trim_range(v, colon + 1, b);
    let category = raw.substring_char(ca, cb).to_owned();
    let value = raw.substring_char(va, vb);
    let tag = pattern.read_tag(value);
    Some((category, tag))
}

/// Where `category` stands among grouped clauses, or their number when it
/// does not occur.
pub open spec fn slot_of(g: Seq<(Seq<char>, Seq<TagItemView>)>, category: Seq<char>) -> int
    decreases g.len(),
{
    if g.len() == 0 {
        0
    } else if g[0].0 == category {
        0
    } else {
        1 + slot_of(g.drop_first(), category)
    }
}

/// `tags` with one more tag, if there is one.
pub open spec fn with_tag(tags: Seq<TagItemView>, tag: Option<TagItemView>) -> Seq<TagItemView> {
    match tag {
        Some(t) => tags.push(t),
        None => tags,
    }
}

/// Grouped clauses after one more clause: its tag joins its category's tags,
/// and a category not seen before is added at the end.
pub open spec fn add_clause(
    g: Seq<(Seq<char>, Seq<TagItemView>)>,
    category: Seq<char>,
    tag: Option<TagItemView>,
) -> Seq<(Seq<char>, Seq<TagItemView>)> {
    let k = slot_of(g, category);
    if 0 <= k < g.len() {
        g.update(k, (category, with_tag(g[k].1, tag)))
    } else {
        g.push((category, with_tag(Seq::empty(), tag)))
    }
}

/// `slot_of` is the first position that holds `category`.
pub proof fn lemma_slot_of(g: Seq<(Seq<char>, Seq<TagItemView>)>, category: Seq<char>, k: int)
    requires
        0 <= k <= g.len(),
        forall|j: int| 0 <= j < k ==> (#[trigger] g[j]).0 != category,
        k == g.len() || g[k].0 == category,
    ensures
        slot_of(g, category) == k,
    decreases g.len(),
{
    if k > 0 {
        let t = g.drop_first();
        assert forall|j: int| 0 <= j < k - 1 implies (#[trigger] t[j]).0 != category by {
            assert(t[j] == g[j + 1]);
        }
        lemma_slot_of(t, category, k - 1);
    }
}

/// A category is listed exactly when a clause names it; listed categories are
/// pairwise distinct; a category that no clause names has no tags.
pub proof fn lemma_categories_of(cl: Seq<Clause>)
    ensures
        categories_of(cl).no_duplicates(),
        forall|c: Seq<char>| #[trigger]
            categories_of(cl).contains(c) <==> exists|i: int|
                0 <= i < cl.len() && (#[trigger] cl[i]).category == c,
        forall|c: Seq<char>|
            !categories_of(cl).contains(c) ==> #[trigger] tags_under(cl, c) == Seq::<
                TagItemView,
            >::empty(),
    decreases cl.len(),
{
    if cl.len() > 0 {
        let front = cl.drop_last();
        let rest = categories_of(front);
        let last = cl.last().category;
        lemma_categories_of(front);
        assert forall|c: Seq<char>| #[trigger]
            categories_of(cl).contains(c) <==> exists|i: int|
                0 <= i < cl.len() && (#[trigger] cl[i]).category == c by {
            if categories_of(cl).contains(c) {
                if rest.contains(c) {
                    let i = choose|i: int| 0 <= i < front.len() && (#[trigger] front[i]).category == c;
                    assert(cl[i].category == c);
                } else {
                    assert(c == last);
                    assert(cl[cl.len() - 1].category == c);
                }
            }
            if exists|i: int| 0 <= i < cl.len() && (#[trigger] cl[i]).category == c {
                let i = choose|i: int| 0 <= i < cl.len() && (#[trigger] cl[i]).category == c;
                if i < cl.len() - 1 {
                    assert(front[i].category == c);
                    assert(rest.contains(c));
                    if !rest.contains(last) {
                        assert(rest.push(last)[rest.index_of(c)] == c);
                    }
                } else {
                    if !rest.contains(last) {
                        assert(rest.push(last)[rest.len() as int] == last);
                    }
                }
            }
        }
        assert forall|c: Seq<char>| !categories_of(cl).contains(c) implies #[trigger] tags_under(
            cl,
            c,
        ) == Seq::<TagItemView>::empty() by {
            if rest.contains(last) {
                assert(c != last);
            } else {
                assert(rest.push(last)[rest.len() as int] == last);
                if rest.contains(c) {
                    assert(rest.push(last)[rest.index_of(c)] == c);
                }
            }
            assert(!rest.contains(c));
            assert(tags_under(front, c) == Seq::<TagItemView>::empty());
        }
    }
}

/// Grouping one more clause is adding it to the groups.
pub proof fn lemma_grouped_push(cl: Seq<Clause>, x: Clause)
    ensures
        grouped(cl.push(x)) == add_clause(grouped(cl), x.category, x.tag),
{
    let more = cl.push(x);
    assert(more.drop_last() =~= cl);
    assert(more.last() == x);
    let cats = categories_of(cl);
    let g = grouped(cl);
    lemma_categories_of(cl);
    assert forall|c: Seq<char>| #[trigger]
        tags_under(more, c) == (if c == x.category {
            with_tag(tags_under(cl, c), x.tag)
        } else {
            tags_under(cl, c)
        }) by {}
    if cats.contains(x.category) {
        let k = cats.index_of(x.category);
        assert forall|j: int| 0 <= j < k implies (#[trigger] g[j]).0 != x.category by {
            assert(cats[j] != cats[k]);
        }
        lemma_slot_of(g, x.category, k);
        assert forall|j: int| 0 <= j < cats.len() && j != k implies cats[j] != x.category by {
            assert(cats[j] != cats[k]);
        }
        assert(grouped(more) =~= add_clause(g, x.category, x.tag));
    } else {
        assert forall|j: int| 0 <= j < g.len() implies (#[trigger] g[j]).0 != x.category by {
            assert(cats.contains(cats[j]));
        }
        lemma_slot_of(g, x.category, g.len() as int);
        assert(grouped(more) =~= add_clause(g, x.category, x.tag));
    }
}

/// The tags that grouped clauses hold for `category`, if they name it.
pub open spec fn lookup(g: Seq<(Seq<char>, Seq<TagItemView>)>, category: Seq<char>) -> Option<
    Seq<TagItemView>,
> {
    if 0 <= slot_of(g, category) < g.len() {
        Some(g[slot_of(g, category)].1)
    } else {
        None
    }
}

/// The views of the tags that a look-up found.
pub open spec fn items_view(tags: Option<&Vec<TagItem>>) -> Option<Seq<TagItemView>> {
    match tags {
        Some(t) => Some(item_views(t@)),
        None => None,
    }
}

/// Looking a category up among grouped clauses gives exactly the tags that
/// the clauses give it, and nothing for a category that no clause names.
pub proof fn lemma_grouped_lookup(cl: Seq<Clause>, category: Seq<char>)
    ensures
        lookup(grouped(cl), category) == (if categories_of(cl).contains(category) {
            Some(tags_under(cl, category))
        } else {
            None
        }),
        !categories_of(cl).contains(category) ==> tags_under(cl, category) == Seq::<
            TagItemView,
        >::empty(),
{
    let cats = categories_of(cl);
    let g = grouped(cl);
    lemma_categories_of(cl);
    if cats.contains(category) {
        let k = cats.index_of(category);
        assert forall|j: int| 0 <= j < k implies (#[trigger] g[j]).0 != category by {
            assert(cats[j] != cats[k]);
        }
        lemma_slot_of(g, category, k);
    } else {
        assert forall|j: int| 0 <= j < g.len() implies (#[trigger] g[j]).0 != category by {
            assert(cats.contains(cats[j]));
        }
        lemma_slot_of(g, category, g.len() as int);
    }
}

/// The tags of one stock, gathered by category. Categories keep the order in
/// which the text first names them, each category's tags the order in which
/// the text gives them.
#[derive(Debug)]
pub struct ParsedTags {
    entries: Vec<(String, Vec<TagItem>)>,
}

impl View for ParsedTags {
    type V = Seq<(Seq<char>, Seq<TagItemView>)>;

    closed spec fn view(&self) -> Seq<(Seq<char>, Seq<TagItemView>)> {
        Seq::new(
            self.entries@.len(),
            |k: int| (self.entries@[k].0@, item_views(self.entries@[k].1@)),
        )
    }
}

impl ParsedTags {
    /// No categories at all.
    pub fn new() -> (parsed: Self)
        ensures
            parsed@ == Seq::<(Seq<char>, Seq<TagItemView>)>::empty(),
    {
        let parsed = ParsedTags { entries: Vec::new() };
        proof {
            assert(parsed@ =~= Seq::<(Seq<char>, Seq<TagItemView>)>::empty());
        }
        parsed
    }

    /// The number of categories.
    pub fn len(&self) -> (n: usize)
        ensures
            n == self@.len(),
    {
        self.entries.len()
    }

    /// Whether no category was found.
    pub fn is_empty(&self) -> (empty: bool)
        ensures
            empty == (self@.len() == 0),
    {
        self.entries.len() == 0
    }

    /// The name of the `k`-th category.
    pub fn category(&self, k: usize) -> (name: &String)
        requires
            k < self@.len(),
        ensures
            name@ == self@[k as int].0,
    {
        &self.entries[k].0
    }

    /// The tags of the `k`-th category.
    pub fn tags(&self, k: usize) -> (tags: &Vec<TagItem>)
        requires
            k < self@.len(),
        ensures
            item_views(tags@) == self@[k as int].1,
    {
        &self.entries[k].1
    }

    /// Where `category` stands, if it occurs.
    pub fn position(&self, category: &String) -> (at: Option<usize>)
        ensures
            match at {
                Some(k) => k < self@.len() && k == slot_of(self@, category@) && self@[k as int].0
                    == category@,
                None => slot_of(self@, category@) == self@.len(),
            },
    {
        let mut k: usize = 0;
        while k < self.entries.len()
            invariant
                k <= self.entries@.len(),
                forall|j: int| 0 <= j < k ==> (#[trigger] self@[j]).0 != category@,
            decreases self.entries@.len() - k,
        {
            if self.entries[k].0 == *category {
                proof {
                    lemma_slot_of(self@, category@, k as int);
                }
                return Some(k);
            }
            k += 1;
        }
        proof {
            lemma_slot_of(self@, category@, k as int);
        }
        None
    }

    /// The tags of `category`, if the text names it.
    pub fn find(&self, category: &String) -> (tags: Option<&Vec<TagItem>>)
        ensures
            items_view(tags) == lookup(self@, category@),
    {
        match self.position(category) {
            Some(k) => Some(&self.entries[k].1),
            None => None,
        }
    }

    /// The tags of `category`, if the text names it.
    pub fn get(&self, category: &str) -> (tags: Option<&Vec<TagItem>>)
        ensures
            items_view(tags) == lookup(self@, category@),
    {
        let owned = category.to_owned();
        self.find(&owned)
    }

    /// Takes one more clause in.
    pub fn add(&mut self, category: String, tag: Option<TagItem>)
        ensures
            final(self)@ == add_clause(old(self)@, category@, tag_view(tag)),
    {
        let ghost before = self@;
        match self.position(&category) {
            Some(k) => {
                match tag {
                    Some(t) => {
                        let ghost tv = t@;
                        let ghost old_tags = self.entries@[k as int].1@;
                        let ghost old_entries = self.entries@;
                        self.entries[k].1.push(t);
                        proof {
                            assert(self.entries@.len() == old_entries.len());
                            assert(self.entries@[k as int].0 == old_entries[k as int].0);
                            assert(forall|j: int|
                                0 <= j < old_entries.len() && j != k ==> self.entries@[j]
                                    == old_entries[j]);
                            assert(self.entries@[k as int].1@ == old_tags.push(t));
                            assert(item_views(old_tags.push(t)) =~= item_views(old_tags).push(tv));
                            assert(self@ =~= add_clause(before, category@, Some(tv)));
                        }
                    },
                    None => {
                        proof {
                            assert(self@ =~= add_clause(before, category@, None));
                        }
                    },
                }
            },
            None => {
                let mut tags: Vec<TagItem> = Vec::new();
                match tag {
                    Some(t) => {
                        tags.push(t);
                    },
                    None => {},
                }
                proof {
                    assert(item_views(tags@) =~= with_tag(Seq::empty(), tag_view(tag)));
                }
                self.entries.push((category, tags));
                proof {
                    assert(self@ =~= add_clause(before, category@, tag_view(tag)));
                }
            },
        }
    }

    /// The categories with their tags, in order.
    pub fn into_entries(self) -> (entries: Vec<(String, Vec<TagItem>)>)
        ensures
            entries@.len() == self@.len(),
            forall|k: int|
                0 <= k < entries@.len() ==> (#[trigger] entries@[k]).0@ == self@[k].0 && item_views(
                    entries@[k].1@,
                ) == self@[k].1,
    {
        self.entries
    }
}

/// Parses one stock's raw tag text.
pub fn parse_custom_tags(tags: &str) -> (parsed: ParsedTags)
    ensures
        parsed@ == grouped(clauses(tags@)),
{
    let pattern = DetailPattern::new();
    parse_with(&pattern, tags)
}

/// Parses one stock's raw tag text with a pattern that is compiled already.
pub fn parse_with(pattern: &DetailPattern, tags: &str) -> (parsed: ParsedTags)
    requires
        pattern.wf(),
    ensures
        parsed@ == grouped(clauses(tags@)),
{
    let v = chars_of(tags);
    let bounds = split_ranges(&v, ';');
    let ghost pieces = split_on(tags@, ';');
    let mut parsed = ParsedTags::new();
    let mut k: usize = 0;
    proof {
        assert(parsed@ =~= grouped(clauses_of(pieces.take(0))));
    }
    while k < bounds.len()
        invariant
            k <= bounds@.len(),
            pattern.wf(),
            v@ == tags@,
            pieces == split_on(tags@, ';'),
            cut(v@, bounds@) == pieces,
            forall|j: int|
                0 <= j < bounds@.len() ==> (#[trigger] bounds@[j]).0 <= bounds@[j].1 <= v.len(),
            parsed@ == grouped(clauses_of(pieces.take(k as int))),
        decreases bounds@.len() - k,
    {
        let (lo, hi) = bounds[k];
        let ghost done = clauses_of(pieces.take(k as int));
        proof {
            assert(pieces.take(k + 1).drop_last() =~= pieces.take(k as int));
            assert(pieces.take(k + 1).last() == pieces[k as int]);
            assert(pieces[k as int] == v@.subrange(lo as int, hi as int));
        }
        match read_piece(pattern, tags, &v, lo, hi) {
            Some((category, tag)) => {
                proof {
                    lemma_grouped_push(
                        done,
                        Clause { category: category@, tag: tag_view(tag) },
                    );
                }
                parsed.add(category, tag);
            },
            None => {},
        }
        k += 1;
    }
    proof {
        assert(pieces.take(k as int) =~= pieces);
    }
    parsed
}

} // verus!
