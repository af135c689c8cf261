use stock_tags::cache::ValidationCache;
use stock_tags::commands::{
    calculate_statistics, get_categories, get_data_statistics, get_stocks_by_tag, get_tag_details,
    get_tags_by_category, parse_tags, search_and_filter, set_stock_data, validate_tag, AppState,
    LookupError,
};
use stock_tags::stock_data::{SearchParams, StockCompanyInfo, TagDetails};

fn stock(code: &str, tags: &str) -> StockCompanyInfo {
    StockCompanyInfo {
        stock_code: code.to_string(),
        stock_name: String::new(),
        company_name: String::new(),
        exchange: String::new(),
        business_scope: String::new(),
        custom_tags: tags.to_string(),
        official_website: String::new(),
        company_description: String::new(),
        underwriting_method: String::new(),
        created_at: String::new(),
        updated_at: String::new(),
        sectors_concepts: Vec::new(),
    }
}

fn params(query: Option<&str>, category: Option<&str>, page: u32, per_page: u32) -> SearchParams {
    SearchParams {
        search_query: query.map(|q| q.to_string()),
        category_name: category.map(|c| c.to_string()),
        tags_page: page,
        stocks_page: page,
        tags_per_page: per_page,
        stocks_per_page: per_page,
    }
}

fn filled() -> AppState {
    let mut state = AppState::new();
    set_stock_data(
        &mut state,
        vec![
            stock("1", "行业:银行"),
            stock("2", "行业:银行;概念:AI"),
            stock("3", ""),
            stock("4", "行业:银行{国有}; 概念:AI"),
        ],
    );
    state
}

#[test]
fn new_state_is_empty() {
    let state = AppState::new();
    assert!(state.stock_data.is_empty());
    assert_eq!(get_data_statistics(&state), (0, 0, 0));
    assert!(get_categories(&state, None).categories.is_empty());
}

#[test]
fn setting_replaces_the_collection() {
    let mut state = filled();
    assert_eq!(state.stock_data.len(), 4);
    set_stock_data(&mut state, vec![stock("9", "X:y")]);
    assert_eq!(state.stock_data.len(), 1);
    assert_eq!(state.stock_data[0].stock_code, "9");
    assert_eq!(get_categories(&state, None).categories, vec!["X".to_string()]);
}

#[test]
fn data_statistics() {
    let state = filled();
    assert_eq!(get_data_statistics(&state), (4, 3, 2));
}

#[test]
fn empty_query_is_no_query() {
    let state = filled();
    let all = get_categories(&state, None);
    let empty = get_categories(&state, Some(""));
    assert_eq!(all.categories, empty.categories);
    assert_eq!(all.categories, vec!["概念".to_string(), "行业".to_string()]);
    assert_eq!(all.statistics.total_tags, 3);
    assert_eq!(empty.statistics.total_tags, 3);
    let ai = get_categories(&state, Some("ai"));
    assert_eq!(ai.categories, vec!["概念".to_string()]);
}

#[test]
fn tag_details_found() {
    let state = filled();
    let cache = ValidationCache::new();
    let selected =
        get_tag_details(&state, "行业".to_string(), "银行".to_string(), None, &cache).unwrap();
    assert_eq!(selected.category_name, "行业");
    assert_eq!(selected.tag_name, "银行");
    assert_eq!(selected.tag_detail, None);
    let codes: Vec<String> = selected.stocks.iter().map(|s| s.stock_code.clone()).collect();
    assert_eq!(codes, vec!["1", "2"]);
    let selected = get_tag_details(
        &state,
        "行业".to_string(),
        "银行".to_string(),
        Some("国有".to_string()),
        &cache,
    )
    .unwrap();
    assert_eq!(selected.tag_detail, Some("国有".to_string()));
    let codes: Vec<String> = selected.stocks.iter().map(|s| s.stock_code.clone()).collect();
    assert_eq!(codes, vec!["4"]);
}

#[test]
fn tag_details_not_found() {
    let state = filled();
    let cache = ValidationCache::new();
    let missing = get_tag_details(&state, "行业".to_string(), "保险".to_string(), None, &cache);
    assert_eq!(missing.err(), Some(LookupError::TagNotFound));
    let missing = get_tag_details(&state, "没有".to_string(), "银行".to_string(), None, &cache);
    assert_eq!(missing.err(), Some(LookupError::TagNotFound));
    // The detail must match exactly: an empty detail is not a missing one.
    let missing = get_tag_details(
        &state,
        "行业".to_string(),
        "银行".to_string(),
        Some(String::new()),
        &cache,
    );
    assert_eq!(missing.err(), Some(LookupError::TagNotFound));
    assert_eq!(LookupError::TagNotFound.message(), "Tag not found");
}

#[test]
fn tags_by_category_and_stocks_by_tag() {
    let state = filled();
    let cache = ValidationCache::new();
    let tags = get_tags_by_category(&state, &params(None, Some("行业"), 1, 10), &cache);
    assert_eq!(tags.total_tags, 2);
    assert_eq!(tags.tags[0].name, "银行");
    assert_eq!(tags.tags[0].count, 2);
    assert_eq!(tags.tags[1].detail, Some("国有".to_string()));
    let selected =
        get_tag_details(&state, "概念".to_string(), "AI".to_string(), None, &cache).unwrap();
    let page = get_stocks_by_tag(&selected, &params(None, None, 1, 1));
    assert_eq!(page.total_stocks, 2);
    assert_eq!(page.total_pages, 2);
    assert_eq!(page.stocks.len(), 1);
    assert_eq!(page.stocks[0].stock_code, "2");
    let page = get_stocks_by_tag(&selected, &params(None, None, 2, 1));
    assert_eq!(page.stocks[0].stock_code, "4");
}

#[test]
fn search_and_filter_serves_both_lists() {
    let state = filled();
    let cache = ValidationCache::new();
    let (categories, tags) =
        search_and_filter(&state, &params(Some("国有"), Some("行业"), 1, 10), &cache);
    assert_eq!(categories.categories, vec!["行业".to_string()]);
    assert_eq!(categories.statistics.total_tags, 1);
    assert_eq!(tags.total_tags, 1);
    assert_eq!(tags.tags[0].detail, Some("国有".to_string()));
    let (categories, tags) = search_and_filter(&state, &params(None, None, 3, 10), &cache);
    assert_eq!(categories.categories.len(), 2);
    assert!(tags.tags.is_empty());
    assert_eq!(tags.current_page, 3);
}

#[test]
fn statistics_command() {
    let cache = ValidationCache::new();
    let tags = vec![
        TagDetails { name: "a".to_string(), detail: None, count: 1, stocks: Vec::new() },
        TagDetails { name: "a:b".to_string(), detail: None, count: 1, stocks: Vec::new() },
    ];
    let s = calculate_statistics(&tags, 1, 2, 3, &cache);
    assert_eq!(
        (s.total_categories, s.total_tags, s.selected_category_tags_count),
        (1, 2, 3)
    );
    assert_eq!(s.current_page_tags_count, 2);
    assert_eq!((s.error_tags_count, s.warning_tags_count, s.valid_tags_count), (1, 0, 1));
}

#[test]
fn parse_and_validate_commands() {
    let cache = ValidationCache::new();
    let parsed = parse_tags("A:x{y}");
    assert_eq!(parsed.get("A").unwrap()[0].detail, Some("y".to_string()));
    assert_eq!(validate_tag("x", None, &cache), "valid");
    assert_eq!(validate_tag("x:", None, &cache), "error");
    assert_eq!(validate_tag("x", Some("d}"), &cache), "error");
}
