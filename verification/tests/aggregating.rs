use stock_tags::aggregate::get_category_data;
use stock_tags::cache::ValidationCache;
use stock_tags::ranking::rank_tags;
use stock_tags::stock_data::{StockCompanyInfo, TagDetails};

fn stock(code: &str, tags: &str) -> StockCompanyInfo {
    StockCompanyInfo {
        stock_code: code.to_string(),
        stock_name: format!("name-{}", code),
        company_name: format!("company-{}", code),
        exchange: "SSE".to_string(),
        business_scope: String::new(),
        custom_tags: tags.to_string(),
        official_website: String::new(),
        company_description: String::new(),
        underwriting_method: String::new(),
        created_at: "2024-01-01".to_string(),
        updated_at: "2024-01-02".to_string(),
        sectors_concepts: vec!["s1".to_string(), "s2".to_string()],
    }
}

fn tag(name: &str, detail: Option<&str>, count: u32) -> TagDetails {
    TagDetails {
        name: name.to_string(),
        detail: detail.map(|d| d.to_string()),
        count,
        stocks: Vec::new(),
    }
}

fn summary(tags: &Vec<TagDetails>) -> Vec<(String, Option<String>, u32, Vec<String>)> {
    tags.iter()
        .map(|t| {
            (
                t.name.clone(),
                t.detail.clone(),
                t.count,
                t.stocks.iter().map(|s| s.stock_code.clone()).collect(),
            )
        })
        .collect()
}

fn row(name: &str, detail: Option<&str>, count: u32, codes: &[&str]) -> (String, Option<String>, u32, Vec<String>) {
    (
        name.to_string(),
        detail.map(|d| d.to_string()),
        count,
        codes.iter().map(|c| c.to_string()).collect(),
    )
}

#[test]
fn equal_tags_merge_with_count_and_stocks() {
    let cache = ValidationCache::new();
    let stocks = vec![
        stock("1", "行业:银行"),
        stock("2", "行业:银行;概念:AI"),
        stock("3", ""),
        stock("4", "概念:AI; 行业:保险{寿险}"),
    ];
    let category = get_category_data(&stocks, "行业", &cache);
    assert_eq!(category.name, "行业");
    assert_eq!(
        summary(&category.tags),
        vec![row("银行", None, 2, &["1", "2"]), row("保险", Some("寿险"), 1, &["4"])]
    );
}

#[test]
fn carried_stocks_are_whole_copies() {
    let cache = ValidationCache::new();
    let stocks = vec![stock("7", "A:x")];
    let category = get_category_data(&stocks, "A", &cache);
    let copy = &category.tags[0].stocks[0];
    assert_eq!(copy.stock_code, "7");
    assert_eq!(copy.stock_name, "name-7");
    assert_eq!(copy.company_name, "company-7");
    assert_eq!(copy.exchange, "SSE");
    assert_eq!(copy.custom_tags, "A:x");
    assert_eq!(copy.created_at, "2024-01-01");
    assert_eq!(copy.updated_at, "2024-01-02");
    assert_eq!(copy.sectors_concepts, vec!["s1".to_string(), "s2".to_string()]);
}

#[test]
fn unknown_category_has_no_tags() {
    let cache = ValidationCache::new();
    let stocks = vec![stock("1", "A:x")];
    let category = get_category_data(&stocks, "B", &cache);
    assert_eq!(category.name, "B");
    assert!(category.tags.is_empty());
    let none: Vec<StockCompanyInfo> = Vec::new();
    assert!(get_category_data(&none, "A", &cache).tags.is_empty());
}

#[test]
fn a_stock_counts_once_per_occurrence() {
    let cache = ValidationCache::new();
    let stocks = vec![stock("1", "A:x; A:x; A:y"), stock("2", "A:y")];
    let category = get_category_data(&stocks, "A", &cache);
    assert_eq!(
        summary(&category.tags),
        vec![row("x", None, 2, &["1", "1"]), row("y", None, 2, &["1", "2"])]
    );
}

#[test]
fn detail_tells_tags_apart() {
    let cache = ValidationCache::new();
    let stocks = vec![stock("1", "A:x{d1}"), stock("2", "A:x{d2}"), stock("3", "A:x{d1}")];
    let category = get_category_data(&stocks, "A", &cache);
    assert_eq!(
        summary(&category.tags),
        vec![row("x", Some("d1"), 2, &["1", "3"]), row("x", Some("d2"), 1, &["2"])]
    );
}

#[test]
fn missing_and_empty_detail_are_one_tag() {
    let cache = ValidationCache::new();
    let stocks = vec![stock("1", "A:x"), stock("2", "A:x{ }")];
    let category = get_category_data(&stocks, "A", &cache);
    assert_eq!(summary(&category.tags), vec![row("x", None, 2, &["1", "2"])]);
    let stocks = vec![stock("1", "A:x{ }"), stock("2", "A:x")];
    let category = get_category_data(&stocks, "A", &cache);
    assert_eq!(summary(&category.tags), vec![row("x", Some(""), 2, &["1", "2"])]);
}

#[test]
fn name_and_detail_are_not_glued_into_one_key() {
    let cache = ValidationCache::new();
    let stocks = vec![stock("1", "A:a:b"), stock("2", "A:a{b:}")];
    let category = get_category_data(&stocks, "A", &cache);
    assert_eq!(category.tags.len(), 2);
    let stocks = vec![stock("1", "A:a:b"), stock("2", "A:a{:b}")];
    let category = get_category_data(&stocks, "A", &cache);
    assert_eq!(category.tags.len(), 2);
}

#[test]
fn counts_add_up_to_occurrences() {
    let cache = ValidationCache::new();
    let stocks = vec![
        stock("1", "A:x; A:y; B:x"),
        stock("2", "A:x{d}; A:x"),
        stock("3", "B:q; A:"),
        stock("4", "A:y; A:y; A:z"),
    ];
    let category = get_category_data(&stocks, "A", &cache);
    let sum: u32 = category.tags.iter().map(|t| t.count).sum();
    assert_eq!(sum, 7);
    for t in &category.tags {
        assert_eq!(t.count as usize, t.stocks.len());
    }
    let category = get_category_data(&stocks, "B", &cache);
    let sum: u32 = category.tags.iter().map(|t| t.count).sum();
    assert_eq!(sum, 2);
}

#[test]
fn errors_come_first() {
    let cache = ValidationCache::new();
    let stocks = vec![
        stock("1", "A:good"),
        stock("2", "A:good"),
        stock("3", "A:good"),
        stock("4", "A:bad:name"),
    ];
    let category = get_category_data(&stocks, "A", &cache);
    assert_eq!(
        summary(&category.tags),
        vec![row("bad:name", None, 1, &["4"]), row("good", None, 3, &["1", "2", "3"])]
    );
}

#[test]
fn higher_count_comes_first_whatever_the_name() {
    let cache = ValidationCache::new();
    let stocks = vec![stock("1", "A:a"), stock("2", "A:z"), stock("3", "A:z")];
    let category = get_category_data(&stocks, "A", &cache);
    assert_eq!(
        summary(&category.tags),
        vec![row("z", None, 2, &["2", "3"]), row("a", None, 1, &["1"])]
    );
}

#[test]
fn equal_weight_and_count_sort_by_name() {
    let cache = ValidationCache::new();
    let stocks = vec![stock("1", "A:m; A:b; A:z; A:a; A:银行; A:B")];
    let category = get_category_data(&stocks, "A", &cache);
    let order: Vec<String> = category.tags.iter().map(|t| t.name.clone()).collect();
    assert_eq!(order, vec!["B", "a", "b", "m", "z", "银行"]);
}

#[test]
fn shorter_name_comes_before_its_extension() {
    let cache = ValidationCache::new();
    let ranked = rank_tags(vec![tag("abc", None, 1), tag("ab", None, 1), tag("", None, 1)], &cache);
    let order: Vec<String> = ranked.iter().map(|t| t.name.clone()).collect();
    assert_eq!(order, vec!["", "ab", "abc"]);
}

#[test]
fn ties_keep_their_order() {
    let cache = ValidationCache::new();
    let ranked = rank_tags(
        vec![
            tag("x", Some("second"), 1),
            tag("x", Some("first"), 1),
            tag("a", None, 1),
            tag("x", Some("third"), 1),
        ],
        &cache,
    );
    let order: Vec<(String, Option<String>)> =
        ranked.iter().map(|t| (t.name.clone(), t.detail.clone())).collect();
    assert_eq!(
        order,
        vec![
            ("a".to_string(), None),
            ("x".to_string(), Some("second".to_string())),
            ("x".to_string(), Some("first".to_string())),
            ("x".to_string(), Some("third".to_string())),
        ]
    );
}

#[test]
fn ranking_uses_all_three_keys() {
    let cache = ValidationCache::new();
    let ranked = rank_tags(
        vec![
            tag("b", None, 5),
            tag("a", None, 5),
            tag("c", None, 9),
            tag(" bad", None, 1),
            tag("x{", None, 7),
            tag("d", Some("too:bad"), 100),
        ],
        &cache,
    );
    let order: Vec<(String, u32)> = ranked.iter().map(|t| (t.name.clone(), t.count)).collect();
    assert_eq!(
        order,
        vec![
            ("d".to_string(), 100),
            ("x{".to_string(), 7),
            (" bad".to_string(), 1),
            ("c".to_string(), 9),
            ("a".to_string(), 5),
            ("b".to_string(), 5),
        ]
    );
}

#[test]
fn ranking_nothing_gives_nothing() {
    let cache = ValidationCache::new();
    assert!(rank_tags(Vec::new(), &cache).is_empty());
}

#[test]
fn many_stocks_keep_scan_order() {
    let cache = ValidationCache::new();
    let stocks: Vec<StockCompanyInfo> =
        (0..300).map(|i| stock(&format!("{}", i), "A:x; B:y")).collect();
    let category = get_category_data(&stocks, "A", &cache);
    assert_eq!(category.tags.len(), 1);
    assert_eq!(category.tags[0].count, 300);
    let codes: Vec<String> = category.tags[0].stocks.iter().map(|s| s.stock_code.clone()).collect();
    let expected: Vec<String> = (0..300).map(|i| format!("{}", i)).collect();
    assert_eq!(codes, expected);
}
