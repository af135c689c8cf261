//! Properties that hold across operations, each proved from the definitions
//! that the operations' contracts use.
use vstd::prelude::*;
use crate::aggregate::{
    lemma_sightings_len, lemma_tally, occurrences, sightings, sum_counts, tally, total_uses,
};
use crate::pagination::clamp_u32;
use crate::parser::{
    category_tags, clauses, grouped, lemma_categories_of, tag_categories, ParsedTags,
};
use crate::ranking::{
    in_order, lemma_ranked_fixes_ordered, lemma_ranked_in_order, lemma_ranking, outranks, place,
    rank_weight, ranked, ranking,
};
use crate::search::{any_sighting_matches, matching, needle_of, passes, text_matches};
use crate::stock_data::{StockView, TagDetailsView};
use crate::tag_processor::{category_listed, listed_tags, names_category};
use crate::text::lex_less;
use crate::validation::{tag_verdict, ValidationStatus};

verus! {

/// Parsing is a function of the text: whatever two runs of the parser return
/// for one text, they hold the same categories with the same tags, in the
/// same order.
pub proof fn parse_is_deterministic(raw: Seq<char>, first: ParsedTags, second: ParsedTags)
    requires
        first@ == grouped(clauses(raw)),
        second@ == grouped(clauses(raw)),
    ensures
        first@ == second@,
{
}

/// Validation is a function of its arguments: two verdicts on the same name
/// and detail are the same, whether they came from the cache or not.
pub proof fn validation_is_pure(
    name: Seq<char>,
    detail: Option<Seq<char>>,
    first: ValidationStatus,
    second: ValidationStatus,
)
    requires
        first == tag_verdict(name, detail),
        second == tag_verdict(name, detail),
    ensures
        first == second,
{
}

/// The rules know two verdicts only: a tag is valid or in error.
pub proof fn verdict_is_valid_or_error(name: Seq<char>, detail: Option<Seq<char>>)
    ensures
        tag_verdict(name, detail) == ValidationStatus::Valid || tag_verdict(name, detail)
            == ValidationStatus::Error,
{
}

/// The display order, pair by pair: of two listed tags the earlier one has
/// the graver or the same verdict; with the same verdict it has at least as
/// many uses, whatever the names; with the same verdict and the same number of
/// uses its name does not come after the other's.
pub proof fn ranked_order(tags: Seq<TagDetailsView>, i: int, j: int)
    requires
        0 <= i < j < ranked(tags).len(),
    ensures
        rank_weight(ranked(tags)[i]) >= rank_weight(ranked(tags)[j]),
        rank_weight(ranked(tags)[i]) == rank_weight(ranked(tags)[j]) ==> ranked(tags)[i].count
            >= ranked(tags)[j].count,
        rank_weight(ranked(tags)[i]) == rank_weight(ranked(tags)[j]) && ranked(tags)[i].count
            == ranked(tags)[j].count ==> !lex_less(ranked(tags)[j].name, ranked(tags)[i].name),
{
    lemma_ranked_in_order(tags);
    assert(!outranks(ranked(tags)[j], ranked(tags)[i]));
}

/// Tags that tie keep the order they came in: where the earlier of two listed
/// tags does not outrank the later one, it stood before the later one in the
/// sequence that was ranked.
pub proof fn ties_keep_their_order(tags: Seq<TagDetailsView>, k: int, l: int)
    requires
        0 <= k < l < tags.len(),
        !outranks(ranked(tags)[k], ranked(tags)[l]),
    ensures
        0 <= ranking(tags)[k] < ranking(tags)[l] < tags.len(),
        ranked(tags)[k] == tags[ranking(tags)[k]],
        ranked(tags)[l] == tags[ranking(tags)[l]],
{
    lemma_ranking(tags);
}

/// Placing a tag adds its stocks and its count to the totals.
pub proof fn lemma_totals_place(sorted: Seq<TagDetailsView>, x: TagDetailsView)
    ensures
        total_uses(place(sorted, x)) == total_uses(sorted) + x.stocks.len(),
        sum_counts(place(sorted, x)) == sum_counts(sorted) + x.count,
    decreases sorted.len(),
{
    if sorted.len() > 0 && outranks(x, sorted.last()) {
        let front = sorted.drop_last();
        lemma_totals_place(front, x);
        assert(place(front, x).push(sorted.last()).drop_last() =~= place(front, x));
    } else {
        assert(sorted.push(x).drop_last() =~= sorted);
    }
}

/// Ranking changes neither the total of the stocks nor the total of the
/// counts.
pub proof fn lemma_totals_ranked(tags: Seq<TagDetailsView>)
    ensures
        total_uses(ranked(tags)) == total_uses(tags),
        sum_counts(ranked(tags)) == sum_counts(tags),
    decreases tags.len(),
{
    if tags.len() > 0 {
        lemma_totals_ranked(tags.drop_last());
        lemma_totals_place(ranked(tags.drop_last()), tags.last());
    }
}

/// Where every count is the saturated number of stocks and all stocks
/// together fit a counter, the counts add up to the number of stocks.
pub proof fn lemma_counts_exact(tags: Seq<TagDetailsView>)
    requires
        forall|k: int|
            0 <= k < tags.len() ==> (#[trigger] tags[k]).count == clamp_u32(
                tags[k].stocks.len() as int,
            ),
        total_uses(tags) <= u32::MAX,
    ensures
        sum_counts(tags) == total_uses(tags),
    decreases tags.len(),
{
    if tags.len() > 0 {
        let front = tags.drop_last();
        assert forall|k: int| 0 <= k < front.len() implies (#[trigger] front[k]).count
            == clamp_u32(front[k].stocks.len() as int) by {
            assert(front[k] == tags[k]);
        }
        lemma_counts_exact(front);
        assert(tags.last() == tags[tags.len() - 1]);
    }
}

/// For every category, the use counts of its listed tags add up to the
/// number of times that the stocks' tag texts give the category a tag. A
/// total beyond `u32::MAX` is left out: there a count saturates.
pub proof fn counts_add_up(stocks: Seq<StockView>, category: Seq<char>)
    requires
        occurrences(stocks, category) <= u32::MAX,
    ensures
        sum_counts(ranked(tally(sightings(stocks, category)))) == occurrences(stocks, category),
        total_uses(ranked(tally(sightings(stocks, category)))) == occurrences(stocks, category),
{
    let seen = sightings(stocks, category);
    lemma_sightings_len(stocks, category);
    lemma_tally(seen);
    lemma_counts_exact(tally(seen));
    lemma_totals_ranked(tally(seen));
}

/// Every tag that passes the filter is one of the tags that went in.
pub proof fn lemma_matching_members(tags: Seq<TagDetailsView>, category: Seq<char>, needle: Option<Seq<char>>)
    ensures
        forall|i: int|
            0 <= i < matching(tags, category, needle).len() ==> tags.contains(
                #[trigger] matching(tags, category, needle)[i],
            ),
    decreases tags.len(),
{
    if tags.len() > 0 {
        let front = tags.drop_last();
        lemma_matching_members(front, category, needle);
        let kept = matching(tags, category, needle);
        assert forall|i: int| 0 <= i < kept.len() implies tags.contains(#[trigger] kept[i]) by {
            if i < matching(front, category, needle).len() {
                let k = front.index_of(matching(front, category, needle)[i]);
                assert(tags[k] == front[k]);
            } else {
                assert(tags[tags.len() - 1] == kept[i]);
            }
        }
    }
}

/// Filtering tags that are in order leaves them in order.
pub proof fn lemma_matching_in_order(tags: Seq<TagDetailsView>, category: Seq<char>, needle: Option<Seq<char>>)
    requires
        in_order(tags),
    ensures
        in_order(matching(tags, category, needle)),
    decreases tags.len(),
{
    if tags.len() > 0 {
        let front = tags.drop_last();
        assert forall|i: int, j: int| 0 <= i < j < front.len() implies !outranks(
            #[trigger] front[j],
            #[trigger] front[i],
        ) by {
            assert(front[i] == tags[i] && front[j] == tags[j]);
        }
        lemma_matching_in_order(front, category, needle);
        lemma_matching_members(front, category, needle);
        let kept = matching(tags, category, needle);
        let before = matching(front, category, needle);
        assert forall|i: int, j: int| 0 <= i < j < kept.len() implies !outranks(
            #[trigger] kept[j],
            #[trigger] kept[i],
        ) by {
            if j < before.len() {
                assert(kept[i] == before[i] && kept[j] == before[j]);
            } else {
                let k = front.index_of(before[i]);
                assert(kept[i] == tags[k]);
                assert(kept[j] == tags[tags.len() - 1]);
            }
        }
    }
}

/// The tags that a search lists are in display order, so that sorting them
/// once more would change nothing.
pub proof fn listed_tags_stay_ranked(stocks: Seq<StockView>, category: Seq<char>, query: Option<Seq<char>>)
    ensures
        in_order(listed_tags(stocks, category, query)),
        ranked(listed_tags(stocks, category, query)) == listed_tags(stocks, category, query),
{
    let all = ranked(tally(sightings(stocks, category)));
    lemma_ranked_in_order(tally(sightings(stocks, category)));
    lemma_matching_in_order(all, category, needle_of(query));
    lemma_ranked_fixes_ordered(listed_tags(stocks, category, query));
}

/// A category that has a tag somewhere is named by some stock.
pub proof fn lemma_sighting_names_category(stocks: Seq<StockView>, category: Seq<char>)
    requires
        sightings(stocks, category).len() > 0,
    ensures
        names_category(stocks, category),
    decreases stocks.len(),
{
    if stocks.len() > 0 {
        let front = stocks.drop_last();
        let last = stocks.last();
        if category_tags(last.custom_tags, category).len() > 0 {
            lemma_categories_of(clauses(last.custom_tags));
            assert(tag_categories(stocks[stocks.len() - 1].custom_tags).contains(category));
        } else {
            lemma_sighting_names_category(front, category);
            let i = choose|i: int|
                0 <= i < front.len() && tag_categories((#[trigger] front[i]).custom_tags).contains(
                    category,
                );
            assert(stocks[i] == front[i]);
        }
    }
}

/// A search lists every category that has a tag whose name matches, though
/// the name of the category itself may not match.
pub proof fn matching_tag_lists_category(
    stocks: Seq<StockView>,
    category: Seq<char>,
    needle: Seq<char>,
    k: int,
)
    requires
        0 <= k < sightings(stocks, category).len(),
        text_matches(sightings(stocks, category)[k].tag.name, needle),
    ensures
        category_listed(stocks, category, Some(needle)),
{
    lemma_sighting_names_category(stocks, category);
    assert(any_sighting_matches(sightings(stocks, category), needle));
}

} // verus!
