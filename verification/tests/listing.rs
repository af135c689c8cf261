use stock_tags::cache::ValidationCache;
use stock_tags::pagination::{count_u32, page_bounds, total_pages};
use stock_tags::stock_data::{SearchParams, SelectedTag, StockCompanyInfo, TagDetails};
use stock_tags::tag_processor::{
    calculate_tag_statistics, get_category_list, get_stock_list, get_tag_list,
};

fn stock(code: &str, tags: &str) -> StockCompanyInfo {
    StockCompanyInfo {
        stock_code: code.to_string(),
        stock_name: String::new(),
        company_name: String::new(),
        exchange: String::new(),
        business_scope: String::new(),
        custom_tags: tags.to_string(),
        official_website: String::new(),
        company_description: String::new(),
        underwriting_method: String::new(),
        created_at: String::new(),
        updated_at: String::new(),
        sectors_concepts: Vec::new(),
    }
}

fn params(query: Option<&str>, category: Option<&str>, page: u32, per_page: u32) -> SearchParams {
    SearchParams {
        search_query: query.map(|q| q.to_string()),
        category_name: category.map(|c| c.to_string()),
        tags_page: page,
        stocks_page: page,
        tags_per_page: per_page,
        stocks_per_page: per_page,
    }
}

fn tag(name: &str, detail: Option<&str>) -> TagDetails {
    TagDetails { name: name.to_string(), detail: detail.map(|d| d.to_string()), count: 1, stocks: Vec::new() }
}

#[test]
fn two_stocks_end_to_end() {
    let cache = ValidationCache::new();
    let stocks = vec![stock("1", "行业:银行"), stock("2", "行业:银行;概念:AI")];
    let list = get_category_list(&stocks, None);
    assert_eq!(list.categories, vec!["概念".to_string(), "行业".to_string()]);
    assert_eq!(list.statistics.total_tags, 2);
    assert_eq!(list.statistics.total_categories, 2);
    assert_eq!(list.statistics.selected_category_tags_count, 0);
    assert_eq!(list.statistics.current_page_tags_count, 0);
    assert_eq!(list.statistics.error_tags_count, 0);
    assert_eq!(list.statistics.warning_tags_count, 0);
    assert_eq!(list.statistics.valid_tags_count, 0);

    let tags = get_tag_list(&stocks, &params(None, Some("行业"), 1, 10), &cache);
    assert_eq!(tags.tags.len(), 1);
    assert_eq!(tags.tags[0].name, "银行");
    assert_eq!(tags.tags[0].detail, None);
    assert_eq!(tags.tags[0].count, 2);
    assert_eq!(tags.total_tags, 1);
    assert_eq!(tags.total_pages, 1);
    assert_eq!(tags.current_page, 1);
    assert_eq!(tags.valid_tags_count, 1);
    assert_eq!(tags.error_tags_count, 0);
    assert_eq!(tags.warning_tags_count, 0);
}

#[test]
fn search_finds_category_through_its_tag() {
    let stocks = vec![stock("1", "行业:互联网{核心}; 概念:AI"), stock("2", "地区:上海")];
    let list = get_category_list(&stocks, Some("互联网"));
    assert_eq!(list.categories, vec!["行业".to_string()]);
    assert_eq!(list.statistics.total_tags, 1);
    assert_eq!(list.statistics.total_categories, 1);
}

#[test]
fn search_finds_category_through_a_detail() {
    let stocks = vec![stock("1", "行业:互联网{核心}; 概念:AI"), stock("2", "地区:上海")];
    let list = get_category_list(&stocks, Some("核心"));
    assert_eq!(list.categories, vec!["行业".to_string()]);
}

#[test]
fn search_by_category_name_counts_all_its_tags() {
    let stocks = vec![stock("1", "Tech:a; Tech:b; Other:tech stuff; Other:z")];
    let list = get_category_list(&stocks, Some("tech"));
    assert_eq!(list.categories, vec!["Other".to_string(), "Tech".to_string()]);
    // Tech matches by its name, so both of its tags count; Other only by one tag.
    assert_eq!(list.statistics.total_tags, 3);
}

#[test]
fn search_ignores_case() {
    let stocks = vec![stock("1", "Sector:Internet; Idea:ai")];
    assert_eq!(get_category_list(&stocks, Some("INTERNET")).categories, vec!["Sector".to_string()]);
    assert_eq!(get_category_list(&stocks, Some("AI")).categories, vec!["Idea".to_string()]);
    assert_eq!(get_category_list(&stocks, Some("sector")).categories, vec!["Sector".to_string()]);
    assert!(get_category_list(&stocks, Some("none")).categories.is_empty());
}

#[test]
fn blank_search_filters_nothing() {
    let stocks = vec![stock("1", "B:x; A:y"), stock("2", "C:z")];
    for q in [None, Some(""), Some("   "), Some("\t")] {
        let list = get_category_list(&stocks, q);
        assert_eq!(list.categories, vec!["A".to_string(), "B".to_string(), "C".to_string()]);
        assert_eq!(list.statistics.total_tags, 3);
    }
}

#[test]
fn search_text_is_not_trimmed() {
    let stocks = vec![stock("1", "A:x y; B:xy")];
    let list = get_category_list(&stocks, Some("x "));
    assert_eq!(list.categories, vec!["A".to_string()]);
}

#[test]
fn categories_are_distinct_and_sorted_by_code_point() {
    let stocks = vec![
        stock("1", "b:1; a:1; B:1"),
        stock("2", "a:2; 行业:x; Z:1"),
        stock("3", ""),
        stock("4", "概念:y; b:2"),
    ];
    let list = get_category_list(&stocks, None);
    assert_eq!(
        list.categories,
        vec!["B", "Z", "a", "b", "概念", "行业"].iter().map(|s| s.to_string()).collect::<Vec<_>>()
    );
    assert_eq!(list.statistics.total_categories, 6);
    assert_eq!(list.statistics.total_tags, 8);
}

#[test]
fn category_without_tags_is_listed() {
    let stocks = vec![stock("1", "A:; B:x")];
    let list = get_category_list(&stocks, None);
    assert_eq!(list.categories, vec!["A".to_string(), "B".to_string()]);
    assert_eq!(list.statistics.total_tags, 1);
}

#[test]
fn empty_collection_has_no_categories() {
    let none: Vec<StockCompanyInfo> = Vec::new();
    let list = get_category_list(&none, Some("x"));
    assert!(list.categories.is_empty());
    assert_eq!(list.statistics.total_tags, 0);
    assert_eq!(list.statistics.total_categories, 0);
}

#[test]
fn total_counts_distinct_tags_per_category() {
    let stocks = vec![stock("1", "A:x; A:x; A:y{d}"), stock("2", "A:x; B:x")];
    let list = get_category_list(&stocks, None);
    assert_eq!(list.statistics.total_tags, 3);
}

#[test]
fn no_category_selected_gives_an_empty_list() {
    let cache = ValidationCache::new();
    let stocks = vec![stock("1", "A:x")];
    let result = get_tag_list(&stocks, &params(Some("x"), None, 7, 10), &cache);
    assert!(result.tags.is_empty());
    assert_eq!(result.total_tags, 0);
    assert_eq!(result.total_pages, 0);
    assert_eq!(result.current_page, 7);
    assert_eq!(result.error_tags_count, 0);
    assert_eq!(result.warning_tags_count, 0);
    assert_eq!(result.valid_tags_count, 0);
}

fn twenty_five() -> Vec<StockCompanyInfo> {
    (0..25).map(|i| stock(&format!("{}", i), &format!("A:t{:02}", i))).collect()
}

#[test]
fn twenty_five_tags_in_pages_of_ten() {
    let cache = ValidationCache::new();
    let stocks = twenty_five();
    let first = get_tag_list(&stocks, &params(None, Some("A"), 1, 10), &cache);
    assert_eq!(first.total_tags, 25);
    assert_eq!(first.total_pages, 3);
    assert_eq!(first.tags.len(), 10);
    assert_eq!(first.tags[0].name, "t00");
    assert_eq!(first.tags[9].name, "t09");
    let second = get_tag_list(&stocks, &params(None, Some("A"), 2, 10), &cache);
    assert_eq!(second.tags.len(), 10);
    assert_eq!(second.tags[0].name, "t10");
    let third = get_tag_list(&stocks, &params(None, Some("A"), 3, 10), &cache);
    assert_eq!(third.tags.len(), 5);
    assert_eq!(third.tags[0].name, "t20");
    assert_eq!(third.tags[4].name, "t24");
    assert_eq!(third.total_pages, 3);
    assert_eq!(third.current_page, 3);
    let fourth = get_tag_list(&stocks, &params(None, Some("A"), 4, 10), &cache);
    assert!(fourth.tags.is_empty());
    assert_eq!(fourth.total_pages, 3);
    assert_eq!(fourth.total_tags, 25);
    assert_eq!(fourth.current_page, 4);
    assert_eq!(fourth.valid_tags_count, 25);
}

#[test]
fn counters_cover_all_pages() {
    let cache = ValidationCache::new();
    let mut stocks = twenty_five();
    stocks.push(stock("e1", "A:bad:one"));
    stocks.push(stock("e2", "A:ok{bad{detail}"));
    let page = get_tag_list(&stocks, &params(None, Some("A"), 3, 10), &cache);
    assert_eq!(page.total_tags, 27);
    assert_eq!(page.total_pages, 3);
    assert_eq!(page.tags.len(), 7);
    assert_eq!(page.error_tags_count, 2);
    assert_eq!(page.warning_tags_count, 0);
    assert_eq!(page.valid_tags_count, 25);
    let first = get_tag_list(&stocks, &params(None, Some("A"), 1, 10), &cache);
    assert_eq!(first.tags[0].name, "bad:one");
    assert_eq!(first.tags[1].name, "ok");
    assert_eq!(first.tags[1].detail, Some("bad{detail".to_string()));
    assert_eq!(first.tags[2].name, "t00");
}

#[test]
fn tag_search_filters_before_paging() {
    let cache = ValidationCache::new();
    let stocks = vec![stock("1", "A:apple; A:banana{Yellow}; A:cherry; A:pineapple")];
    let result = get_tag_list(&stocks, &params(Some("APPLE"), Some("A"), 1, 10), &cache);
    let names: Vec<String> = result.tags.iter().map(|t| t.name.clone()).collect();
    assert_eq!(names, vec!["apple", "pineapple"]);
    assert_eq!(result.total_tags, 2);
    assert_eq!(result.total_pages, 1);
    assert_eq!(result.valid_tags_count, 2);
    let result = get_tag_list(&stocks, &params(Some("yellow"), Some("A"), 1, 10), &cache);
    assert_eq!(result.tags.len(), 1);
    assert_eq!(result.tags[0].name, "banana");
    let result = get_tag_list(&stocks, &params(Some("a"), Some("A"), 1, 10), &cache);
    assert_eq!(result.total_tags, 4);
    let result = get_tag_list(&stocks, &params(Some("zzz"), Some("A"), 1, 10), &cache);
    assert_eq!(result.total_tags, 0);
    assert_eq!(result.total_pages, 0);
    assert!(result.tags.is_empty());
    let result = get_tag_list(&stocks, &params(Some("  "), Some("A"), 1, 10), &cache);
    assert_eq!(result.total_tags, 4);
}

#[test]
fn page_of_one() {
    let cache = ValidationCache::new();
    let stocks = vec![stock("1", "A:a; A:b; A:c")];
    let result = get_tag_list(&stocks, &params(None, Some("A"), 2, 1), &cache);
    assert_eq!(result.total_pages, 3);
    assert_eq!(result.tags.len(), 1);
    assert_eq!(result.tags[0].name, "b");
}

#[test]
fn huge_page_numbers_give_empty_pages() {
    let cache = ValidationCache::new();
    let stocks = vec![stock("1", "A:a; A:b; A:c")];
    let result = get_tag_list(&stocks, &params(None, Some("A"), u32::MAX, u32::MAX), &cache);
    assert!(result.tags.is_empty());
    assert_eq!(result.total_pages, 1);
    assert_eq!(result.total_tags, 3);
    let result = get_tag_list(&stocks, &params(None, Some("A"), 1, u32::MAX), &cache);
    assert_eq!(result.tags.len(), 3);
}

fn selected(n: usize) -> SelectedTag {
    SelectedTag {
        category_name: "A".to_string(),
        tag_name: "x".to_string(),
        tag_detail: None,
        stocks: (0..n).map(|i| stock(&format!("{}", i), "A:x")).collect(),
    }
}

#[test]
fn stock_pages() {
    let tag = selected(25);
    let third = get_stock_list(&tag, &params(None, None, 3, 10));
    assert_eq!(third.total_stocks, 25);
    assert_eq!(third.total_pages, 3);
    assert_eq!(third.current_page, 3);
    let codes: Vec<String> = third.stocks.iter().map(|s| s.stock_code.clone()).collect();
    assert_eq!(codes, vec!["20", "21", "22", "23", "24"]);
    let fourth = get_stock_list(&tag, &params(None, None, 4, 10));
    assert!(fourth.stocks.is_empty());
    assert_eq!(fourth.total_pages, 3);
    let first = get_stock_list(&tag, &params(None, None, 1, 10));
    assert_eq!(first.stocks.len(), 10);
    assert_eq!(first.stocks[0].stock_code, "0");
}

#[test]
fn stock_page_of_an_empty_tag() {
    let tag = selected(0);
    let page = get_stock_list(&tag, &params(None, None, 1, 10));
    assert!(page.stocks.is_empty());
    assert_eq!(page.total_stocks, 0);
    assert_eq!(page.total_pages, 0);
}

#[test]
fn exact_multiple_fills_the_last_page() {
    let tag = selected(20);
    let second = get_stock_list(&tag, &params(None, None, 2, 10));
    assert_eq!(second.stocks.len(), 10);
    assert_eq!(second.total_pages, 2);
    let third = get_stock_list(&tag, &params(None, None, 3, 10));
    assert!(third.stocks.is_empty());
}

#[test]
fn page_arithmetic() {
    assert_eq!(total_pages(25, 10), 3);
    assert_eq!(total_pages(0, 10), 0);
    assert_eq!(total_pages(1, 10), 1);
    assert_eq!(total_pages(10, 10), 1);
    assert_eq!(total_pages(11, 10), 2);
    assert_eq!(total_pages(u32::MAX, 1), u32::MAX);
    assert_eq!(total_pages(u32::MAX, u32::MAX), 1);
    assert_eq!(page_bounds(25, 1, 10), (0, 10));
    assert_eq!(page_bounds(25, 3, 10), (20, 25));
    assert_eq!(page_bounds(25, 4, 10), (25, 25));
    assert_eq!(page_bounds(0, 1, 10), (0, 0));
    assert_eq!(page_bounds(5, u32::MAX, u32::MAX), (5, 5));
    assert_eq!(count_u32(0), 0);
    assert_eq!(count_u32(17), 17);
    assert_eq!(count_u32(u32::MAX as usize), u32::MAX);
    assert_eq!(count_u32(u32::MAX as usize + 5), u32::MAX);
}

#[test]
fn statistics_of_a_page() {
    let cache = ValidationCache::new();
    let tags = vec![tag("a", None), tag("b:c", None), tag("d", Some(" x")), tag("e", Some("f"))];
    let none: Vec<StockCompanyInfo> = Vec::new();
    let s = calculate_tag_statistics(&none, &tags, 3, 40, 12, &cache);
    assert_eq!(s.total_tags, 40);
    assert_eq!(s.total_categories, 3);
    assert_eq!(s.selected_category_tags_count, 12);
    assert_eq!(s.current_page_tags_count, 4);
    assert_eq!(s.error_tags_count, 2);
    assert_eq!(s.warning_tags_count, 0);
    assert_eq!(s.valid_tags_count, 2);
}
