//! The search filter: a query matches a text when the text, lower-cased,
//! holds the lower-cased query. A missing or blank query filters nothing.
use vstd::prelude::*;
use crate::aggregate::Sighting;
use crate::ranking::detail_str;
use crate::stock_data::{tag_views, TagDetails, TagDetailsView, TagItem, TagItemView};
use crate::text::{contains_text, is_blank, lowercase, occurs_in, to_lowercase};
use crate::validation::{opt_text, survey};

verus! {

/// The text to look for: the lower-cased query, or `None` where the query is
/// missing or blank.
pub open spec fn needle_of(query: Option<Seq<char>>) -> Option<Seq<char>> {
    match query {
        Some(q) => if is_blank(q) {
            None
        } else {
            Some(lowercase(q))
        },
        None => None,
    }
}

/// The text of an optional string.
pub open spec fn opt_string_text(s: Option<String>) -> Option<Seq<char>> {
    match s {
        Some(s) => Some(s@),
        None => None,
    }
}

/// `text`, lower-cased, holds `needle`.
pub open spec fn text_matches(text: Seq<char>, needle: Seq<char>) -> bool {
    occurs_in(needle, lowercase(text))
}

/// The name or the detail of a tag matches.
pub open spec fn tag_matches(name: Seq<char>, detail: Option<Seq<char>>, needle: Seq<char>) -> bool {
    text_matches(name, needle) || (detail is Some && text_matches(detail->0, needle))
}

/// Some occurrence has a matching tag.
pub open spec fn any_sighting_matches(s: Seq<Sighting>, needle: Seq<char>) -> bool {
    exists|k: int|
        0 <= k < s.len() && tag_matches((#[trigger] s[k]).tag.name, s[k].tag.detail, needle)
}

/// A tag of `category` passes the filter: without a needle always, else when
/// its name, its detail or the name of the category matches.
pub open spec fn passes(t: TagDetailsView, category: Seq<char>, needle: Option<Seq<char>>) -> bool {
    match needle {
        Some(n) => tag_matches(t.name, t.detail, n) || text_matches(category, n),
        None => true,
    }
}

/// The tags that pass the filter, in their order.
pub open spec fn matching(tags: Seq<TagDetailsView>, category: Seq<char>, needle: Option<Seq<char>>) -> Seq<
    TagDetailsView,
>
    decreases tags.len(),
{
    if tags.len() == 0 {
        Seq::empty()
    } else if passes(tags.last(), category, needle) {
        matching(tags.drop_last(), category, needle).push(tags.last())
    } else {
        matching(tags.drop_last(), category, needle)
    }
}

/// Where every tag passes, the filter changes nothing.
pub proof fn lemma_matching_all(tags: Seq<TagDetailsView>, category: Seq<char>, needle: Option<Seq<char>>)
    requires
        forall|k: int| 0 <= k < tags.len() ==> passes(#[trigger] tags[k], category, needle),
    ensures
        matching(tags, category, needle) == tags,
    decreases tags.len(),
{
    if tags.len() > 0 {
        let front = tags.drop_last();
        assert forall|k: int| 0 <= k < front.len() implies passes(
            #[trigger] front[k],
            category,
            needle,
        ) by {
            assert(front[k] == tags[k]);
        }
        lemma_matching_all(front, category, needle);
        assert(tags.last() == tags[tags.len() - 1]);
        assert(front.push(tags.last()) =~= tags);
    }
}

/// The needle of a query.
pub fn make_needle(query: Option<&str>) -> (needle: Option<String>)
    ensures
        opt_string_text(needle) == needle_of(opt_text(query)),
{
    match query {
        Some(q) => {
            if survey(q).blank {
                None
            } else {
                Some(to_lowercase(q))
            }
        },
        None => None,
    }
}

/// Whether `text` matches `needle`.
pub fn matches_text(text: &str, needle: &str) -> (hit: bool)
    ensures
        hit == text_matches(text@, needle@),
{
    let lower = to_lowercase(text);
    contains_text(lower.as_str(), needle)
}

/// Whether the name or the detail of a tag matches `needle`.
pub fn matches_tag(name: &str, detail: Option<&str>, needle: &str) -> (hit: bool)
    ensures
        hit == tag_matches(name@, opt_text(detail), needle@),
{
    if matches_text(name, needle) {
        return true;
    }
    match detail {
        Some(d) => matches_text(d, needle),
        None => false,
    }
}

/// Keeps the tags of `category` that pass the filter.
pub fn keep_matching(tags: Vec<TagDetails>, category: &str, needle: &Option<String>) -> (kept: Vec<
    TagDetails,
>)
    ensures
        tag_views(kept@) == matching(tag_views(tags@), category@, opt_string_text(*needle)),
{
    let ghost all = tag_views(tags@);
    let ghost n = opt_string_text(*needle);
    match needle {
        None => {
            proof {
                lemma_matching_all(all, category@, n);
            }
            tags
        },
        Some(text) => {
            if matches_text(category, text.as_str()) {
                proof {
                    lemma_matching_all(all, category@, n);
                }
                return tags;
            }
            let mut kept: Vec<TagDetails> = Vec::new();
            proof {
                assert(all.take(0) =~= Seq::<TagDetailsView>::empty());
                assert(tag_views(kept@) =~= matching(all.take(0), category@, n));
            }
            let ghost total = all.len();
            for tag in it: tags
                invariant
                    it.seq() == tags@,
                    all == tag_views(tags@),
                    n == Some(text@),
                    !text_matches(category@, text@),
                    tag_views(kept@) == matching(all.take(it.index() as int), category@, n),
            {
                let ghost i = it.index() as int;
                proof {
                    assert(tag@ == all[i]);
                    assert(all.take(i + 1).drop_last() =~= all.take(i));
                    assert(all.take(i + 1).last() == all[i]);
                }
                let ghost old_kept = tag_views(kept@);
                if matches_tag(tag.name.as_str(), detail_str(&tag.detail), text.as_str()) {
                    kept.push(tag);
                    proof {
                        assert(tag_views(kept@) =~= old_kept.push(all[i]));
                    }
                }
            }
            proof {
                assert(all.take(total as int) =~= all);
            }
            kept
        },
    }
}

} // verus!
