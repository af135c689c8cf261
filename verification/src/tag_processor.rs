//! The views served to callers: the list of categories, one category's page
//! of tags, one tag's page of stocks, and the counters beside them.
use vstd::prelude::*;
pub use crate::aggregate::get_category_data;
pub use crate::cache::{validate_tag_format, ValidationCache};
pub use crate::parser::{parse_custom_tags, ParsedTags};
pub use crate::validation::ValidationStatus;
use crate::aggregate::{
    parse_all, parsed_from, sightings, stock_sightings, tally, tally_category, Sighting,
};
use crate::pagination::{
    clamp_u32, count_u32, lemma_page_of, page_bounds, page_count, page_of, total_pages,
};
use crate::parser::{category_tags, clauses, grouped, lemma_grouped_lookup, tag_categories};
use crate::ranking::{detail_str, outranks, place, ranked};
use crate::search::{
    any_sighting_matches, keep_matching, make_needle, matches_tag, matches_text, matching,
    needle_of, opt_string_text, passes, tag_matches, text_matches,
};
use crate::stock_data::{
    clone_stocks, item_views, stock_views, tag_views, texts, CategoryListResult, SearchParams,
    SelectedTag, StockCompanyInfo, StockListResult, StockView, TagDetails, TagDetailsView,
    TagListResult, TagStatistics,
};
use crate::text::{ascending, insert_sorted, lex_less};
use crate::validation::{opt_text, tag_verdict};

verus! {

/// How many of `tags` are in error.
pub open spec fn count_errors(tags: Seq<TagDetailsView>) -> nat
    decreases tags.len(),
{
    if tags.len() == 0 {
        0
    } else {
        count_errors(tags.drop_last()) + if tag_verdict(tags.last().name, tags.last().detail)
            == ValidationStatus::Error {
            1nat
        } else {
            0nat
        }
    }
}

/// How many of `tags` carry a warning.
pub open spec fn count_warnings(tags: Seq<TagDetailsView>) -> nat
    decreases tags.len(),
{
    if tags.len() == 0 {
        0
    } else {
        count_warnings(tags.drop_last()) + if tag_verdict(tags.last().name, tags.last().detail)
            == ValidationStatus::Warning {
            1nat
        } else {
            0nat
        }
    }
}

/// How many of `tags` are valid, special ones included.
pub open spec fn count_valid(tags: Seq<TagDetailsView>) -> nat
    decreases tags.len(),
{
    if tags.len() == 0 {
        0
    } else {
        count_valid(tags.drop_last()) + if tag_verdict(tags.last().name, tags.last().detail)
            == ValidationStatus::Valid || tag_verdict(tags.last().name, tags.last().detail)
            == ValidationStatus::Special {
            1nat
        } else {
            0nat
        }
    }
}

/// Every tag is counted once: in error or valid. The rules give no warning.
pub proof fn lemma_counts_cover(tags: Seq<TagDetailsView>)
    ensures
        count_errors(tags) + count_valid(tags) == tags.len(),
        count_warnings(tags) == 0,
    decreases tags.len(),
{
    if tags.len() > 0 {
        lemma_counts_cover(tags.drop_last());
    }
}

/// One more, saturating.
pub fn bump_u32(n: u32) -> (m: u32)
    ensures
        m == crate::aggregate::bump(n),
{
    if n < u32::MAX {
        n + 1
    } else {
        n
    }
}

/// Tells how many of `tags` the rules reject, how many they warn about and
/// how many they accept. Each number saturates.
pub fn count_statuses(tags: &[TagDetails], cache: &ValidationCache) -> (counts: (u32, u32, u32))
    ensures
        counts.0 == clamp_u32(count_errors(tag_views(tags@)) as int),
        counts.1 == clamp_u32(count_warnings(tag_views(tags@)) as int),
        counts.2 == clamp_u32(count_valid(tag_views(tags@)) as int),
{
    let ghost all = tag_views(tags@);
    let mut errors: u32 = 0;
    let mut warnings: u32 = 0;
    let mut valid: u32 = 0;
    let mut i: usize = 0;
    proof {
        assert(all.take(0) =~= Seq::<TagDetailsView>::empty());
    }
    while i < tags.len()
        invariant
            i <= tags@.len(),
            all == tag_views(tags@),
            errors == clamp_u32(count_errors(all.take(i as int)) as int),
            warnings == clamp_u32(count_warnings(all.take(i as int)) as int),
            valid == clamp_u32(count_valid(all.take(i as int)) as int),
        decreases tags@.len() - i,
    {
        let tag = &tags[i];
        proof {
            assert(all.take(i + 1).drop_last() =~= all.take(i as int));
            assert(all.take(i + 1).last() == tag@);
        }
        match validate_tag_format(cache, tag.name.as_str(), detail_str(&tag.detail)) {
            ValidationStatus::Error => {
                errors = bump_u32(errors);
            },
            ValidationStatus::Warning => {
                warnings = bump_u32(warnings);
            },
            ValidationStatus::Valid | ValidationStatus::Special => {
                valid = bump_u32(valid);
            },
        }
        i += 1;
    }
    proof {
        assert(all.take(i as int) =~= all);
    }
    (errors, warnings, valid)
}

/// The counters for a page of tags. The first argument is not looked at; the
/// three given totals are handed through.
pub fn calculate_tag_statistics(
    _stock_data: &[StockCompanyInfo],
    tags: &[TagDetails],
    filtered_categories_count: u32,
    total_tags_count: u32,
    selected_category_tags_count: u32,
    cache: &ValidationCache,
) -> (statistics: TagStatistics)
    ensures
        statistics.total_tags == total_tags_count,
        statistics.total_categories == filtered_categories_count,
        statistics.selected_category_tags_count == selected_category_tags_count,
        statistics.current_page_tags_count == clamp_u32(tags@.len() as int),
        statistics.error_tags_count == clamp_u32(count_errors(tag_views(tags@)) as int),
        statistics.warning_tags_count == clamp_u32(count_warnings(tag_views(tags@)) as int),
        statistics.valid_tags_count == clamp_u32(count_valid(tag_views(tags@)) as int),
{
    let counts = count_statuses(tags, cache);
    TagStatistics {
        total_tags: total_tags_count,
        total_categories: filtered_categories_count,
        selected_category_tags_count,
        current_page_tags_count: count_u32(tags.len()),
        error_tags_count: counts.0,
        warning_tags_count: counts.1,
        valid_tags_count: counts.2,
    }
}

/// All tags of `category` that pass the search, in display order.
pub open spec fn listed_tags(stocks: Seq<StockView>, category: Seq<char>, query: Option<Seq<char>>) -> Seq<
    TagDetailsView,
> {
    matching(ranked(tally(sightings(stocks, category))), category, needle_of(query))
}

/// One page of a category's tags. The counters speak of all the tags that
/// pass the search, not only of those on the page. Without a chosen category
/// the result is empty, with all counters zero.
pub fn get_tag_list(stock_data: &[StockCompanyInfo], params: &SearchParams, cache: &ValidationCache) -> (result:
    TagListResult)
    requires
        params.category_name is Some ==> params.tags_page >= 1 && params.tags_per_page >= 1,
    ensures
        result.current_page == params.tags_page,
        params.category_name is None ==> {
            &&& result.tags@.len() == 0
            &&& result.total_tags == 0
            &&& result.total_pages == 0
            &&& result.error_tags_count == 0
            &&& result.warning_tags_count == 0
            &&& result.valid_tags_count == 0
        },
        params.category_name matches Some(category) ==> {
            let all = listed_tags(
                stock_views(stock_data@),
                category@,
                opt_string_text(params.search_query),
            );
            &&& tag_views(result.tags@) == page_of(
                all,
                params.tags_page as int,
                params.tags_per_page as int,
            )
            &&& result.total_tags == clamp_u32(all.len() as int)
            &&& result.total_pages == page_count(
                result.total_tags as int,
                params.tags_per_page as int,
            )
            &&& result.error_tags_count == clamp_u32(count_errors(all) as int)
            &&& result.warning_tags_count == clamp_u32(count_warnings(all) as int)
            &&& result.valid_tags_count == clamp_u32(count_valid(all) as int)
        },
{
    let category_name = match &params.category_name {
        Some(name) => name,
        None => {
            return TagListResult {
                tags: Vec::new(),
                total_tags: 0,
                total_pages: 0,
                current_page: params.tags_page,
                error_tags_count: 0,
                warning_tags_count: 0,
                valid_tags_count: 0,
            };
        },
    };
    let category = get_category_data(stock_data, category_name.as_str(), cache);
    let needle = make_needle(detail_str(&params.search_query));
    let mut tags = keep_matching(category.tags, category_name.as_str(), &needle);
    let ghost all = tag_views(tags@);
    let counts = count_statuses(tags.as_slice(), cache);
    let total_tags = count_u32(tags.len());
    let pages = total_pages(total_tags, params.tags_per_page);
    let (start, end) = page_bounds(tags.len(), params.tags_page, params.tags_per_page);
    tags.truncate(end);
    let page = tags.split_off(start);
    proof {
        lemma_page_of(all, params.tags_page as int, params.tags_per_page as int);
        assert(tag_views(page@) =~= page_of(
            all,
            params.tags_page as int,
            params.tags_per_page as int,
        ));
    }
    TagListResult {
        tags: page,
        total_tags,
        total_pages: pages,
        current_page: params.tags_page,
        error_tags_count: counts.0,
        warning_tags_count: counts.1,
        valid_tags_count: counts.2,
    }
}

/// One page of the stocks that carry the selected tag.
pub fn get_stock_list(selected_tag: &SelectedTag, params: &SearchParams) -> (result: StockListResult)
    requires
        params.stocks_page >= 1,
        params.stocks_per_page >= 1,
    ensures
        stock_views(result.stocks@) == page_of(
            stock_views(selected_tag.stocks@),
            params.stocks_page as int,
            params.stocks_per_page as int,
        ),
        result.total_stocks == clamp_u32(selected_tag.stocks@.len() as int),
        result.total_pages == page_count(
            result.total_stocks as int,
            params.stocks_per_page as int,
        ),
        result.current_page == params.stocks_page,
{
    let total_stocks = count_u32(selected_tag.stocks.len());
    let pages = total_pages(total_stocks, params.stocks_per_page);
    let (start, end) = page_bounds(
        selected_tag.stocks.len(),
        params.stocks_page,
        params.stocks_per_page,
    );
    let stocks = clone_stocks(selected_tag.stocks.as_slice(), start, end);
    proof {
        lemma_page_of(
            stock_views(selected_tag.stocks@),
            params.stocks_page as int,
            params.stocks_per_page as int,
        );
        assert(stock_views(stocks@) =~= page_of(
            stock_views(selected_tag.stocks@),
            params.stocks_page as int,
            params.stocks_per_page as int,
        ));
    }
    StockListResult { stocks, total_stocks, total_pages: pages, current_page: params.stocks_page }
}

} // verus!

verus! {

/// Some stock's tag text names `category`.
pub open spec fn names_category(stocks: Seq<StockView>, category: Seq<char>) -> bool {
    exists|i: int|
        0 <= i < stocks.len() && tag_categories((#[trigger] stocks[i]).custom_tags).contains(
            category,
        )
}

/// `category` belongs on the list: some stock names it and, where a search is
/// on, its name matches or one of its tags does, in any stock.
pub open spec fn category_listed(stocks: Seq<StockView>, category: Seq<char>, needle: Option<Seq<char>>) -> bool {
    names_category(stocks, category) && match needle {
        Some(n) => text_matches(category, n) || any_sighting_matches(
            sightings(stocks, category),
            n,
        ),
        None => true,
    }
}

/// The tags of `categories` that pass the search, all together.
pub open spec fn total_listed(stocks: Seq<StockView>, categories: Seq<Seq<char>>, needle: Option<Seq<char>>) -> nat
    decreases categories.len(),
{
    if categories.len() == 0 {
        0
    } else {
        total_listed(stocks, categories.drop_last(), needle) + matching(
            ranked(tally(sightings(stocks, categories.last()))),
            categories.last(),
            needle,
        ).len()
    }
}

/// The occurrences in the first stocks of a collection come first among the
/// occurrences in all of it.
pub proof fn lemma_sightings_prefix(stocks: Seq<StockView>, category: Seq<char>, i: int)
    requires
        0 <= i <= stocks.len(),
    ensures
        sightings(stocks.take(i), category).is_prefix_of(sightings(stocks, category)),
    decreases stocks.len(),
{
    if i == stocks.len() {
        assert(stocks.take(i) =~= stocks);
    } else {
        let front = stocks.drop_last();
        assert(stocks.take(i) =~= front.take(i));
        lemma_sightings_prefix(front, category, i);
    }
}

/// Filtering one more tag: it is kept at the end, or dropped.
pub proof fn lemma_matching_push(
    tags: Seq<TagDetailsView>,
    x: TagDetailsView,
    category: Seq<char>,
    needle: Option<Seq<char>>,
)
    ensures
        matching(tags.push(x), category, needle) == (if passes(x, category, needle) {
            matching(tags, category, needle).push(x)
        } else {
            matching(tags, category, needle)
        }),
{
    assert(tags.push(x).drop_last() =~= tags);
    assert(tags.push(x).last() == x);
}

/// Placing a tag, like appending it, lets one more tag pass the filter or
/// none.
pub proof fn lemma_matching_len_place(
    sorted: Seq<TagDetailsView>,
    x: TagDetailsView,
    category: Seq<char>,
    needle: Option<Seq<char>>,
)
    ensures
        matching(place(sorted, x), category, needle).len() == matching(
            sorted.push(x),
            category,
            needle,
        ).len(),
    decreases sorted.len(),
{
    if sorted.len() > 0 && outranks(x, sorted.last()) {
        let front = sorted.drop_last();
        lemma_matching_len_place(front, x, category, needle);
        lemma_matching_push(place(front, x), sorted.last(), category, needle);
        lemma_matching_push(front, x, category, needle);
        lemma_matching_push(front, sorted.last(), category, needle);
        assert(front.push(sorted.last()) =~= sorted);
        lemma_matching_push(sorted, x, category, needle);
    }
}

/// Ranking changes nothing about how many tags pass the search.
pub proof fn lemma_matching_len_ranked(tags: Seq<TagDetailsView>, category: Seq<char>, needle: Option<Seq<char>>)
    ensures
        matching(ranked(tags), category, needle).len() == matching(tags, category, needle).len(),
    decreases tags.len(),
{
    if tags.len() > 0 {
        let front = tags.drop_last();
        lemma_matching_len_ranked(front, category, needle);
        lemma_matching_len_place(ranked(front), tags.last(), category, needle);
        lemma_matching_push(ranked(front), tags.last(), category, needle);
        lemma_matching_push(front, tags.last(), category, needle);
        assert(front.push(tags.last()) =~= tags);
    }
}

/// Whether some tag of `category`, in any stock, matches `needle`.
pub(crate) fn has_matching_tags_in_category(
    stock_data: &[StockCompanyInfo],
    parsed: &Vec<ParsedTags>,
    category: &String,
    needle: &str,
) -> (found: bool)
    requires
        parsed_from(parsed@, stock_data@),
    ensures
        found == any_sighting_matches(sightings(stock_views(stock_data@), category@), needle@),
{
    let ghost all = stock_views(stock_data@);
    let mut i: usize = 0;
    proof {
        assert(all.take(0) =~= Seq::<StockView>::empty());
    }
    while i < stock_data.len()
        invariant
            i <= stock_data@.len(),
            all == stock_views(stock_data@),
            parsed_from(parsed@, stock_data@),
            !any_sighting_matches(sightings(all.take(i as int), category@), needle@),
        decreases stock_data@.len() - i,
    {
        let ghost seen = sightings(all.take(i as int), category@);
        let ghost here = stock_sightings(all[i as int], category@);
        proof {
            assert(all.take(i + 1).drop_last() =~= all.take(i as int));
            assert(all.take(i + 1).last() == all[i as int]);
            assert(all[i as int] == stock_data@[i as int]@);
            lemma_grouped_lookup(clauses(stock_data@[i as int].custom_tags@), category@);
        }
        match parsed[i].find(category) {
            Some(items) => {
                let mut j: usize = 0;
                while j < items.len()
                    invariant
                        j <= items@.len(),
                        0 <= i < all.len(),
                        all == stock_views(stock_data@),
                        seen == sightings(all.take(i as int), category@),
                        item_views(items@) == category_tags(all[i as int].custom_tags, category@),
                        here == stock_sightings(all[i as int], category@),
                        sightings(all.take(i + 1), category@) == seen + here,
                        !any_sighting_matches(seen, needle@),
                        forall|k: int|
                            0 <= k < j ==> !tag_matches(
                                (#[trigger] here[k]).tag.name,
                                here[k].tag.detail,
                                needle@,
                            ),
                    decreases items@.len() - j,
                {
                    let item = &items[j];
                    proof {
                        assert(here[j as int].tag == item_views(items@)[j as int]);
                        assert(item_views(items@)[j as int] == item@);
                    }
                    if matches_tag(item.name.as_str(), detail_str(&item.detail), needle) {
                        proof {
                            lemma_sightings_prefix(all, category@, i + 1);
                            let whole = sightings(all, category@);
                            let part = seen + here;
                            let k = seen.len() + j;
                            assert(part[k] == here[j as int]);
                            assert(part =~= whole.subrange(0, part.len() as int));
                            assert(whole.subrange(0, part.len() as int)[k] == whole[k]);
                            assert(0 <= k < whole.len());
                            assert(tag_matches(whole[k].tag.name, whole[k].tag.detail, needle@));
                            assert(any_sighting_matches(whole, needle@));
                        }
                        return true;
                    }
                    j += 1;
                }
                proof {
                    if any_sighting_matches(seen + here, needle@) {
                        let k = choose|k: int|
                            0 <= k < (seen + here).len() && tag_matches(
                                (#[trigger] (seen + here)[k]).tag.name,
                                (seen + here)[k].tag.detail,
                                needle@,
                            );
                        if k < seen.len() {
                            assert(seen[k] == (seen + here)[k]);
                        } else {
                            assert(here[k - seen.len()] == (seen + here)[k]);
                        }
                    }
                }
            },
            None => {
                proof {
                    assert(here =~= Seq::<Sighting>::empty());
                    assert(seen + here =~= seen);
                }
            },
        }
        i += 1;
    }
    proof {
        assert(all.take(i as int) =~= all);
    }
    false
}

/// The sum of two counters, saturating.
pub fn add_u32(a: u32, b: u32) -> (sum: u32)
    ensures
        sum == clamp_u32(a + b),
{
    if b > u32::MAX - a {
        u32::MAX
    } else {
        a + b
    }
}

/// How many tags of `categories` pass the search, all together.
pub(crate) fn count_total_tags(
    stock_data: &[StockCompanyInfo],
    parsed: &Vec<ParsedTags>,
    categories: &Vec<String>,
    needle: &Option<String>,
) -> (count: u32)
    requires
        parsed_from(parsed@, stock_data@),
    ensures
        count == clamp_u32(
            total_listed(stock_views(stock_data@), texts(categories@), opt_string_text(*needle)) as int,
        ),
{
    let ghost all = stock_views(stock_data@);
    let ghost names = texts(categories@);
    let ghost n = opt_string_text(*needle);
    let mut count: u32 = 0;
    let mut k: usize = 0;
    proof {
        assert(names.take(0) =~= Seq::<Seq<char>>::empty());
    }
    while k < categories.len()
        invariant
            k <= categories@.len(),
            all == stock_views(stock_data@),
            names == texts(categories@),
            n == opt_string_text(*needle),
            parsed_from(parsed@, stock_data@),
            count == clamp_u32(total_listed(all, names.take(k as int), n) as int),
        decreases categories@.len() - k,
    {
        let category = &categories[k];
        proof {
            assert(names.take(k + 1).drop_last() =~= names.take(k as int));
            assert(names.take(k + 1).last() == category@);
            lemma_matching_len_ranked(tally(sightings(all, category@)), category@, n);
        }
        let tags = tally_category(stock_data, parsed, category.as_str());
        let kept = keep_matching(tags, category.as_str(), needle);
        count = add_u32(count, count_u32(kept.len()));
        k += 1;
    }
    proof {
        assert(names.take(k as int) =~= names);
    }
    count
}

/// All categories that the collection names, in ascending order.
pub(crate) fn collect_categories(stock_data: &[StockCompanyInfo], parsed: &Vec<ParsedTags>) -> (categories: Vec<
    String,
>)
    requires
        parsed_from(parsed@, stock_data@),
    ensures
        ascending(texts(categories@)),
        forall|c: Seq<char>|
            texts(categories@).contains(c) <==> names_category(stock_views(stock_data@), c),
{
    let ghost all = stock_views(stock_data@);
    let mut categories: Vec<String> = Vec::new();
    let mut i: usize = 0;
    proof {
        assert(all.take(0) =~= Seq::<StockView>::empty());
    }
    while i < stock_data.len()
        invariant
            i <= stock_data@.len(),
            all == stock_views(stock_data@),
            parsed_from(parsed@, stock_data@),
            ascending(texts(categories@)),
            forall|c: Seq<char>|
                #[trigger] texts(categories@).contains(c) <==> names_category(
                    all.take(i as int),
                    c,
                ),
        decreases stock_data@.len() - i,
    {
        let entry = &parsed[i];
        let ghost here = tag_categories(all[i as int].custom_tags);
        let ghost before = texts(categories@);
        proof {
            assert(all[i as int] == stock_data@[i as int]@);
            assert(entry@.len() == here.len());
        }
        let mut k: usize = 0;
        while k < entry.len()
            invariant
                k <= entry@.len(),
                0 <= i < all.len(),
                entry@ == grouped(clauses(all[i as int].custom_tags)),
                here == tag_categories(all[i as int].custom_tags),
                ascending(texts(categories@)),
                forall|c: Seq<char>|
                    #[trigger] texts(categories@).contains(c) <==> (before.contains(c)
                        || here.take(k as int).contains(c)),
            decreases entry@.len() - k,
        {
            let ghost listed = texts(categories@);
            let name = entry.category(k);
            insert_sorted(&mut categories, name);
            proof {
                assert(name@ == here[k as int]);
                assert(here.take(k + 1) =~= here.take(k as int).push(name@));
                assert forall|c: Seq<char>|
                    #[trigger] texts(categories@).contains(c) <==> (before.contains(c)
                        || here.take(k + 1).contains(c)) by {
                    assert(listed.contains(c) <==> (before.contains(c) || here.take(
                        k as int,
                    ).contains(c)));
                    assert(texts(categories@).contains(c) <==> (listed.contains(c) || c == name@));
                    if here.take(k + 1).contains(c) {
                        let m = here.take(k + 1).index_of(c);
                        if m < k {
                            assert(here.take(k as int)[m] == c);
                        }
                    }
                    if here.take(k as int).contains(c) {
                        let m = here.take(k as int).index_of(c);
                        assert(here.take(k + 1)[m] == c);
                    }
                    if c == name@ {
                        assert(here.take(k + 1)[k as int] == c);
                    }
                }
            }
            k += 1;
        }
        proof {
            assert(here.take(k as int) =~= here);
            let next = all.take(i + 1);
            assert forall|c: Seq<char>|
                #[trigger] texts(categories@).contains(c) <==> names_category(next, c) by {
                assert(texts(categories@).contains(c) <==> (before.contains(c) || here.contains(c)));
                assert(before.contains(c) <==> names_category(all.take(i as int), c));
                if names_category(next, c) {
                    let m = choose|m: int|
                        0 <= m < next.len() && tag_categories(
                            (#[trigger] next[m]).custom_tags,
                        ).contains(c);
                    if m < i {
                        assert(all.take(i as int)[m] == next[m]);
                    }
                }
                if names_category(all.take(i as int), c) {
                    let m = choose|m: int|
                        0 <= m < all.take(i as int).len() && tag_categories(
                            (#[trigger] all.take(i as int)[m]).custom_tags,
                        ).contains(c);
                    assert(next[m] == all.take(i as int)[m]);
                }
                if here.contains(c) {
                    assert(next[i as int] == all[i as int]);
                }
            }
        }
        i += 1;
    }
    proof {
        assert(all.take(i as int) =~= all);
    }
    categories
}

/// The categories of the collection that survive the search, in ascending
/// order, with the number of their tags that pass it.
pub fn get_category_list(stock_data: &[StockCompanyInfo], search_query: Option<&str>) -> (result:
    CategoryListResult)
    ensures
        ascending(texts(result.categories@)),
        forall|c: Seq<char>|
            texts(result.categories@).contains(c) <==> category_listed(
                stock_views(stock_data@),
                c,
                needle_of(opt_text(search_query)),
            ),
        result.statistics.total_tags == clamp_u32(
            total_listed(
                stock_views(stock_data@),
                texts(result.categories@),
                needle_of(opt_text(search_query)),
            ) as int,
        ),
        result.statistics.total_categories == clamp_u32(result.categories@.len() as int),
        result.statistics.selected_category_tags_count == 0,
        result.statistics.current_page_tags_count == 0,
        result.statistics.error_tags_count == 0,
        result.statistics.warning_tags_count == 0,
        result.statistics.valid_tags_count == 0,
{
    let ghost all = stock_views(stock_data@);
    let parsed = parse_all(stock_data);
    let named = collect_categories(stock_data, &parsed);
    let needle = make_needle(search_query);
    let categories = match &needle {
        Some(text) => {
            let ghost names = texts(named@);
            let mut kept: Vec<String> = Vec::new();
            let ghost mut origin: Seq<int> = Seq::empty();
            let mut k: usize = 0;
            while k < named.len()
                invariant
                    k <= named@.len(),
                    all == stock_views(stock_data@),
                    names == texts(named@),
                    parsed_from(parsed@, stock_data@),
                    ascending(names),
                    origin.len() == kept@.len(),
                    forall|m: int|
                        0 <= m < origin.len() ==> 0 <= #[trigger] origin[m] < k && texts(kept@)[m]
                            == names[origin[m]],
                    forall|a: int, b: int|
                        0 <= a < b < origin.len() ==> #[trigger] origin[a] < #[trigger] origin[b],
                    forall|j: int|
                        0 <= j < k && category_listed(all, #[trigger] names[j], Some(text@))
                            ==> texts(kept@).contains(names[j]),
                    forall|m: int|
                        0 <= m < kept@.len() ==> category_listed(
                            all,
                            #[trigger] texts(kept@)[m],
                            Some(text@),
                        ),
                    forall|c: Seq<char>| names.contains(c) <==> names_category(all, c),
                decreases named@.len() - k,
            {
                let name = &named[k];
                let ghost old_kept = texts(kept@);
                proof {
                    assert(names[k as int] == name@);
                    assert(names.contains(name@));
                }
                if matches_text(name.as_str(), text.as_str()) || has_matching_tags_in_category(
                    stock_data,
                    &parsed,
                    name,
                    text.as_str(),
                ) {
                    kept.push(name.clone());
                    proof {
                        origin = origin.push(k as int);
                        assert(texts(kept@) =~= old_kept.push(name@));
                        assert forall|j: int|
                            0 <= j < k + 1 && category_listed(
                                all,
                                #[trigger] names[j],
                                Some(text@),
                            ) implies texts(kept@).contains(names[j]) by {
                            if j < k {
                                let m = old_kept.index_of(names[j]);
                                assert(texts(kept@)[m] == names[j]);
                            } else {
                                assert(texts(kept@)[old_kept.len() as int] == names[j]);
                            }
                        }
                    }
                }
                k += 1;
            }
            proof {
                let out = texts(kept@);
                assert forall|a: int, b: int| 0 <= a < b < out.len() implies lex_less(
                    #[trigger] out[a],
                    #[trigger] out[b],
                ) by {
                    assert(origin[a] < origin[b]);
                    assert(lex_less(names[origin[a]], names[origin[b]]));
                }
                assert forall|c: Seq<char>|
                    out.contains(c) <==> category_listed(all, c, Some(text@)) by {
                    if out.contains(c) {
                        let m = out.index_of(c);
                        assert(category_listed(all, out[m], Some(text@)));
                    }
                    if category_listed(all, c, Some(text@)) {
                        assert(names.contains(c));
                        let j = names.index_of(c);
                        assert(category_listed(all, names[j], Some(text@)));
                    }
                }
            }
            kept
        },
        None => named,
    };
    let total_tags = count_total_tags(stock_data, &parsed, &categories, &needle);
    let total_categories = count_u32(categories.len());
    CategoryListResult {
        categories,
        statistics: TagStatistics {
            total_tags,
            total_categories,
            selected_category_tags_count: 0,
            current_page_tags_count: 0,
            error_tags_count: 0,
            warning_tags_count: 0,
            valid_tags_count: 0,
        },
    }
}

} // verus!
