//! The operations offered to the outside, one per request, over the
//! collection that the application holds. Guarding the collection against
//! concurrent replacement is the caller's business.
use vstd::prelude::*;
use crate::aggregate::{get_category_data, parse_all, sightings, tally};
use crate::cache::{validate_tag_format, ValidationCache};
use crate::pagination::{clamp_u32, count_u32, page_count, page_of};
use crate::parser::{grouped, clauses, parse_custom_tags, ParsedTags};
use crate::ranking::{detail_str, ranked};
use crate::search::{needle_of, opt_string_text};
use crate::stock_data::{
    detail_view, stock_views, tag_views, texts, CategoryListResult, SearchParams, SelectedTag,
    StockCompanyInfo, StockListResult, StockView, TagDetails, TagDetailsView, TagListResult,
    TagStatistics,
};
use crate::tag_processor::{
    bump_u32, calculate_tag_statistics, category_listed, collect_categories, count_errors,
    count_valid, count_warnings, get_category_list, get_stock_list, get_tag_list, listed_tags,
    names_category, total_listed,
};
use crate::text::ascending;
use crate::validation::{opt_text, tag_verdict};

verus! {

/// The collection that the queries run over.
pub struct AppState {
    pub stock_data: Vec<StockCompanyInfo>,
}

impl AppState {
    /// A state without stocks.
    pub fn new() -> (state: Self)
        ensures
            state.stock_data@.len() == 0,
    {
        AppState { stock_data: Vec::new() }
    }
}

/// Why a request could not be served.
#[derive(Debug, Clone, Copy, PartialEq, Eq, Structural)]
pub enum LookupError {
    /// The category has no tag with the given name and detail.
    TagNotFound,
}

impl LookupError {
    /// The message shown for the error.
    pub fn message(&self) -> (text: String)
        ensures
            text@ == "Tag not found"@,
    {
        match self {
            LookupError::TagNotFound => "Tag not found".to_owned(),
        }
    }
}

/// Replaces the whole collection.
pub fn set_stock_data(state: &mut AppState, stock_data: Vec<StockCompanyInfo>)
    ensures
        final(state).stock_data == stock_data,
{
    state.stock_data = stock_data;
}

/// The categories of the held collection that survive the search. An empty
/// query counts as none.
pub fn get_categories(state: &AppState, search_query: Option<&str>) -> (result: CategoryListResult)
    ensures
        ascending(texts(result.categories@)),
        forall|c: Seq<char>|
            texts(result.categories@).contains(c) <==> category_listed(
                stock_views(state.stock_data@),
                c,
                needle_of(opt_text(search_query)),
            ),
        result.statistics.total_tags == clamp_u32(
            total_listed(
                stock_views(state.stock_data@),
                texts(result.categories@),
                needle_of(opt_text(search_query)),
            ) as int,
        ),
        result.statistics.total_categories == clamp_u32(result.categories@.len() as int),
        result.statistics.selected_category_tags_count == 0,
        result.statistics.current_page_tags_count == 0,
        result.statistics.error_tags_count == 0,
        result.statistics.warning_tags_count == 0,
        result.statistics.valid_tags_count == 0,
{
    let query = match search_query {
        Some(q) => if q.is_empty() {
            None
        } else {
            Some(q)
        },
        None => None,
    };
    get_category_list(state.stock_data.as_slice(), query)
}

/// One page of the tags of the chosen category.
pub fn get_tags_by_category(state: &AppState, params: &SearchParams, cache: &ValidationCache) -> (result:
    TagListResult)
    requires
        params.category_name is Some ==> params.tags_page >= 1 && params.tags_per_page >= 1,
    ensures
        result.current_page == params.tags_page,
        params.category_name is None ==> {
            &&& result.tags@.len() == 0
            &&& result.total_tags == 0
            &&& result.total_pages == 0
            &&& result.error_tags_count == 0
            &&& result.warning_tags_count == 0
            &&& result.valid_tags_count == 0
        },
        params.category_name matches Some(category) ==> {
            let all = listed_tags(
                stock_views(state.stock_data@),
                category@,
                opt_string_text(params.search_query),
            );
            &&& tag_views(result.tags@) == page_of(
                all,
                params.tags_page as int,
                params.tags_per_page as int,
            )
            &&& result.total_tags == clamp_u32(all.len() as int)
            &&& result.total_pages == page_count(
                result.total_tags as int,
                params.tags_per_page as int,
            )
            &&& result.error_tags_count == clamp_u32(count_errors(all) as int)
            &&& result.warning_tags_count == clamp_u32(count_warnings(all) as int)
            &&& result.valid_tags_count == clamp_u32(count_valid(all) as int)
        },
{
    get_tag_list(state.stock_data.as_slice(), params, cache)
}

/// One page of the stocks that carry the selected tag.
pub fn get_stocks_by_tag(selected_tag: &SelectedTag, params: &SearchParams) -> (result: StockListResult)
    requires
        params.stocks_page >= 1,
        params.stocks_per_page >= 1,
    ensures
        stock_views(result.stocks@) == page_of(
            stock_views(selected_tag.stocks@),
            params.stocks_page as int,
            params.stocks_per_page as int,
        ),
        result.total_stocks == clamp_u32(selected_tag.stocks@.len() as int),
        result.total_pages == page_count(
            result.total_stocks as int,
            params.stocks_per_page as int,
        ),
        result.current_page == params.stocks_page,
{
    get_stock_list(selected_tag, params)
}

/// The counters for a page of tags; the three given totals are handed
/// through.
pub fn calculate_statistics(
    tags: &Vec<TagDetails>,
    filtered_categories_count: u32,
    total_tags_count: u32,
    selected_category_tags_count: u32,
    cache: &ValidationCache,
) -> (statistics: TagStatistics)
    ensures
        statistics.total_tags == total_tags_count,
        statistics.total_categories == filtered_categories_count,
        statistics.selected_category_tags_count == selected_category_tags_count,
        statistics.current_page_tags_count == clamp_u32(tags@.len() as int),
        statistics.error_tags_count == clamp_u32(count_errors(tag_views(tags@)) as int),
        statistics.warning_tags_count == clamp_u32(count_warnings(tag_views(tags@)) as int),
        statistics.valid_tags_count == clamp_u32(count_valid(tag_views(tags@)) as int),
{
    let none: Vec<StockCompanyInfo> = Vec::new();
    calculate_tag_statistics(
        none.as_slice(),
        tags.as_slice(),
        filtered_categories_count,
        total_tags_count,
        selected_category_tags_count,
        cache,
    )
}

/// Parses a raw tag text.
pub fn parse_tags(tags: &str) -> (parsed: ParsedTags)
    ensures
        parsed@ == grouped(clauses(tags@)),
{
    parse_custom_tags(tags)
}

/// The name of the verdict on a tag.
pub fn validate_tag(tag_name: &str, tag_detail: Option<&str>, cache: &ValidationCache) -> (status: String)
    ensures
        status@ == tag_verdict(tag_name@, opt_text(tag_detail)).name(),
{
    validate_tag_format(cache, tag_name, tag_detail).as_str().to_owned()
}

/// Where the tag with exactly this name and detail stands in `tags`, or
/// `tags.len()` when there is none.
pub open spec fn find_tag(tags: Seq<TagDetailsView>, name: Seq<char>, detail: Option<Seq<char>>) -> int
    decreases tags.len(),
{
    if tags.len() == 0 {
        0
    } else if tags[0].name == name && tags[0].detail == detail {
        0
    } else {
        1 + find_tag(tags.drop_first(), name, detail)
    }
}

/// `find_tag` is the first position with exactly this name and detail.
pub proof fn lemma_find_tag(tags: Seq<TagDetailsView>, name: Seq<char>, detail: Option<Seq<char>>, k: int)
    requires
        0 <= k <= tags.len(),
        forall|j: int|
            0 <= j < k ==> !((#[trigger] tags[j]).name == name && tags[j].detail == detail),
        k == tags.len() || (tags[k].name == name && tags[k].detail == detail),
    ensures
        find_tag(tags, name, detail) == k,
    decreases tags.len(),
{
    if k > 0 {
        let rest = tags.drop_first();
        assert forall|j: int| 0 <= j < k - 1 implies !((#[trigger] rest[j]).name == name
            && rest[j].detail == detail) by {
            assert(rest[j] == tags[j + 1]);
        }
        lemma_find_tag(rest, name, detail, k - 1);
    }
}

/// Whether two optional strings hold the same.
pub fn same_detail(a: &Option<String>, b: &Option<String>) -> (same: bool)
    ensures
        same == (detail_view(*a) == detail_view(*b)),
{
    match a {
        Some(x) => match b {
            Some(y) => *x == *y,
            None => false,
        },
        None => match b {
            Some(_) => false,
            None => true,
        },
    }
}

/// The tag of `category_name` with exactly this name and detail, with the
/// stocks that carry it. Fails when the category has no such tag.
pub fn get_tag_details(
    state: &AppState,
    category_name: String,
    tag_name: String,
    tag_detail: Option<String>,
    cache: &ValidationCache,
) -> (result: Result<SelectedTag, LookupError>)
    ensures
        ({
            let tags = ranked(tally(sightings(stock_views(state.stock_data@), category_name@)));
            let at = find_tag(tags, tag_name@, detail_view(tag_detail));
            match result {
                Ok(selected) => {
                    &&& 0 <= at < tags.len()
                    &&& selected.category_name@ == category_name@
                    &&& selected.tag_name@ == tag_name@
                    &&& detail_view(selected.tag_detail) == detail_view(tag_detail)
                    &&& stock_views(selected.stocks@) == tags[at].stocks
                },
                Err(error) => at == tags.len() && error == LookupError::TagNotFound,
            }
        }),
{
    let category = get_category_data(state.stock_data.as_slice(), category_name.as_str(), cache);
    let ghost tags = tag_views(category.tags@);
    let found = category.tags;
    for tag in it: found
        invariant
            it.seq() == found@,
            tags == tag_views(found@),
            tags == ranked(tally(sightings(stock_views(state.stock_data@), category_name@))),
            forall|j: int|
                0 <= j < it.index() ==> !((#[trigger] tags[j]).name == tag_name@ && tags[j].detail
                    == detail_view(tag_detail)),
    {
        proof {
            assert(tags[it.index() as int] == tag@);
        }
        if tag.name == tag_name && same_detail(&tag.detail, &tag_detail) {
            proof {
                lemma_find_tag(tags, tag_name@, detail_view(tag_detail), it.index() as int);
            }
            return Ok(SelectedTag { category_name, tag_name, tag_detail, stocks: tag.stocks });
        }
    }
    proof {
        lemma_find_tag(tags, tag_name@, detail_view(tag_detail), tags.len() as int);
    }
    Err(LookupError::TagNotFound)
}

/// The category list and the tag list of one search, both over the held
/// collection.
pub fn search_and_filter(state: &AppState, params: &SearchParams, cache: &ValidationCache) -> (result: (
    CategoryListResult,
    TagListResult,
))
    requires
        params.category_name is Some ==> params.tags_page >= 1 && params.tags_per_page >= 1,
    ensures
        ascending(texts(result.0.categories@)),
        forall|c: Seq<char>|
            texts(result.0.categories@).contains(c) <==> category_listed(
                stock_views(state.stock_data@),
                c,
                needle_of(opt_string_text(params.search_query)),
            ),
        result.0.statistics.total_tags == clamp_u32(
            total_listed(
                stock_views(state.stock_data@),
                texts(result.0.categories@),
                needle_of(opt_string_text(params.search_query)),
            ) as int,
        ),
        result.0.statistics.total_categories == clamp_u32(result.0.categories@.len() as int),
        result.1.current_page == params.tags_page,
        params.category_name is None ==> result.1.tags@.len() == 0 && result.1.total_tags == 0
            && result.1.total_pages == 0,
        params.category_name matches Some(category) ==> {
            let all = listed_tags(
                stock_views(state.stock_data@),
                category@,
                opt_string_text(params.search_query),
            );
            &&& tag_views(result.1.tags@) == page_of(
                all,
                params.tags_page as int,
                params.tags_per_page as int,
            )
            &&& result.1.total_tags == clamp_u32(all.len() as int)
            &&& result.1.total_pages == page_count(
                result.1.total_tags as int,
                params.tags_per_page as int,
            )
            &&& result.1.error_tags_count == clamp_u32(count_errors(all) as int)
            &&& result.1.warning_tags_count == clamp_u32(count_warnings(all) as int)
            &&& result.1.valid_tags_count == clamp_u32(count_valid(all) as int)
        },
{
    let categories = get_category_list(
        state.stock_data.as_slice(),
        detail_str(&params.search_query),
    );
    let tags = get_tag_list(state.stock_data.as_slice(), params, cache);
    (categories, tags)
}

/// How many of `stocks` have a tag text at all.
pub open spec fn count_tagged(stocks: Seq<StockView>) -> nat
    decreases stocks.len(),
{
    if stocks.len() == 0 {
        0
    } else {
        count_tagged(stocks.drop_last()) + if stocks.last().custom_tags.len() > 0 {
            1nat
        } else {
            0nat
        }
    }
}

/// The categories that the collection names.
pub open spec fn category_set(stocks: Seq<StockView>) -> Set<Seq<char>> {
    Set::new(|c: Seq<char>| names_category(stocks, c))
}

/// Three numbers about the held collection: its stocks, those among them with
/// a tag text, and the distinct categories that they name. Each saturates.
pub fn get_data_statistics(state: &AppState) -> (numbers: (u32, u32, u32))
    ensures
        numbers.0 == clamp_u32(state.stock_data@.len() as int),
        numbers.1 == clamp_u32(count_tagged(stock_views(state.stock_data@)) as int),
        category_set(stock_views(state.stock_data@)).finite(),
        numbers.2 == clamp_u32(category_set(stock_views(state.stock_data@)).len() as int),
{
    let stock_data = state.stock_data.as_slice();
    let ghost all = stock_views(stock_data@);
    let total_stocks = count_u32(stock_data.len());
    let mut tagged: u32 = 0;
    let mut i: usize = 0;
    proof {
        assert(all.take(0) =~= Seq::<StockView>::empty());
    }
    while i < stock_data.len()
        invariant
            i <= stock_data@.len(),
            all == stock_views(stock_data@),
            tagged == clamp_u32(count_tagged(all.take(i as int)) as int),
        decreases stock_data@.len() - i,
    {
        proof {
            assert(all.take(i + 1).drop_last() =~= all.take(i as int));
            assert(all.take(i + 1).last() == stock_data@[i as int]@);
        }
        if !stock_data[i].custom_tags.as_str().is_empty() {
            tagged = bump_u32(tagged);
        }
        i += 1;
    }
    proof {
        assert(all.take(i as int) =~= all);
    }
    let parsed = parse_all(stock_data);
    let categories = collect_categories(stock_data, &parsed);
    proof {
        let names = texts(categories@);
        assert forall|a: int, b: int| 0 <= a < names.len() && 0 <= b < names.len() && a
            != b implies names[a] != names[b] by {
            if a < b {
                assert(crate::text::lex_less(names[a], names[b]));
            } else {
                assert(crate::text::lex_less(names[b], names[a]));
            }
            crate::text::lemma_lex_irreflexive(names[a]);
        }
        assert(names.no_duplicates());
        names.unique_seq_to_set();
        assert(names.to_set() =~= category_set(all)) by {
            assert forall|c: Seq<char>| names.to_set().contains(c) <==> category_set(
                all,
            ).contains(c) by {
                assert(names.contains(c) <==> names_category(all, c));
            }
        }
        vstd::seq_lib::seq_to_set_is_finite(names);
    }
    (total_stocks, tagged, count_u32(categories.len()))
}

} // verus!
