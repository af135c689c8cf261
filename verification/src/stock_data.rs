//! The records that flow through the library, each with the mathematical view
//! that the contracts speak of.
use vstd::prelude::*;

verus! {

/// The texts held by a sequence of strings.
pub open spec fn texts(v: Seq<String>) -> Seq<Seq<char>> {
    v.map_values(|s: String| s@)
}

/// A copy of `v`, string by string.
pub fn clone_strings(v: &Vec<String>) -> (r: Vec<String>)
    ensures
        texts(r@) == texts(v@),
{
    let mut r: Vec<String> = Vec::new();
    let mut i: usize = 0;
    while i < v.len()
        invariant
            i <= v.len(),
            r@.len() == i,
            forall|k: int| 0 <= k < i ==> (#[trigger] r@[k])@ == v@[k]@,
        decreases v.len() - i,
    {
        r.push(v[i].clone());
        i += 1;
    }
    proof {
        assert(texts(r@) =~= texts(v@));
    }
    r
}

/// Clones an optional string.
pub fn clone_detail(d: &Option<String>) -> (r: Option<String>)
    ensures
        detail_view(r) == detail_view(*d),
{
    match d {
        Some(s) => Some(s.clone()),
        None => None,
    }
}

/// The text of an optional string.
pub open spec fn detail_view(d: Option<String>) -> Option<Seq<char>> {
    match d {
        Some(s) => Some(s@),
        None => None,
    }
}

/// Basic facts about one listed company. Only `custom_tags` matters to the tag
/// logic; the rest is carried along unchanged.
#[derive(Debug)]
pub struct StockCompanyInfo {
    pub stock_code: String,
    pub stock_name: String,
    pub company_name: String,
    pub exchange: String,
    pub business_scope: String,
    /// Free-form tags, `category:tag{detail}` clauses separated by `;`.
    pub custom_tags: String,
    pub official_website: String,
    pub company_description: String,
    pub underwriting_method: String,
    pub created_at: String,
    pub updated_at: String,
    pub sectors_concepts: Vec<String>,
}

/// A whole collection of stocks.
pub type StockInfoArray = Vec<StockCompanyInfo>;

/// What a [`StockCompanyInfo`] holds, as plain texts.
pub ghost struct StockView {
    pub stock_code: Seq<char>,
    pub stock_name: Seq<char>,
    pub company_name: Seq<char>,
    pub exchange: Seq<char>,
    pub business_scope: Seq<char>,
    pub custom_tags: Seq<char>,
    pub official_website: Seq<char>,
    pub company_description: Seq<char>,
    pub underwriting_method: Seq<char>,
    pub created_at: Seq<char>,
    pub updated_at: Seq<char>,
    pub sectors_concepts: Seq<Seq<char>>,
}

impl View for StockCompanyInfo {
    type V = StockView;

    open spec fn view(&self) -> StockView {
        StockView {
            stock_code: self.stock_code@,
            stock_name: self.stock_name@,
            company_name: self.company_name@,
            exchange: self.exchange@,
            business_scope: self.business_scope@,
            custom_tags: self.custom_tags@,
            official_website: self.official_website@,
            company_description: self.company_description@,
            underwriting_method: self.underwriting_method@,
            created_at: self.created_at@,
            updated_at: self.updated_at@,
            sectors_concepts: texts(self.sectors_concepts@),
        }
    }
}

impl Clone for StockCompanyInfo {
    fn clone(&self) -> (r: Self)
        ensures
            r@ == self@,
    {
        StockCompanyInfo {
            stock_code: self.stock_code.clone(),
            stock_name: self.stock_name.clone(),
            company_name: self.company_name.clone(),
            exchange: self.exchange.clone(),
            business_scope: self.business_scope.clone(),
            custom_tags: self.custom_tags.clone(),
            official_website: self.official_website.clone(),
            company_description: self.company_description.clone(),
            underwriting_method: self.underwriting_method.clone(),
            created_at: self.created_at.clone(),
            updated_at: self.updated_at.clone(),
            sectors_concepts: clone_strings(&self.sectors_concepts),
        }
    }
}

/// The views of a sequence of stocks.
pub open spec fn stock_views(v: Seq<StockCompanyInfo>) -> Seq<StockView> {
    v.map_values(|s: StockCompanyInfo| s@)
}

/// A copy of the stocks `v[from..to]`.
pub fn clone_stocks(v: &[StockCompanyInfo], from: usize, to: usize) -> (r: Vec<StockCompanyInfo>)
    requires
        from <= to <= v@.len(),
    ensures
        stock_views(r@) == stock_views(v@).subrange(from as int, to as int),
{
    let mut r: Vec<StockCompanyInfo> = Vec::new();
    let mut i: usize = from;
    while i < to
        invariant
            from <= i <= to <= v@.len(),
            r@.len() == i - from,
            forall|k: int| 0 <= k < i - from ==> (#[trigger] r@[k])@ == v@[from + k]@,
        decreases to - i,
    {
        r.push(v[i].clone());
        i += 1;
    }
    proof {
        assert(stock_views(r@) =~= stock_views(v@).subrange(from as int, to as int));
    }
    r
}

/// One tag as written in one stock's tag text.
#[derive(Debug)]
pub struct TagItem {
    pub name: String,
    pub detail: Option<String>,
}

/// What a [`TagItem`] holds.
pub ghost struct TagItemView {
    pub name: Seq<char>,
    pub detail: Option<Seq<char>>,
}

impl View for TagItem {
    type V = TagItemView;

    open spec fn view(&self) -> TagItemView {
        TagItemView { name: self.name@, detail: detail_view(self.detail) }
    }
}

impl Clone for TagItem {
    fn clone(&self) -> (r: Self)
        ensures
            r@ == self@,
    {
        TagItem { name: self.name.clone(), detail: clone_detail(&self.detail) }
    }
}

/// The views of a sequence of tag items.
pub open spec fn item_views(v: Seq<TagItem>) -> Seq<TagItemView> {
    v.map_values(|t: TagItem| t@)
}

/// One distinct tag of a category with the stocks that carry it.
#[derive(Debug)]
pub struct TagDetails {
    pub name: String,
    pub detail: Option<String>,
    /// How often the tag occurs, saturating at `u32::MAX`.
    pub count: u32,
    /// The owning stocks, one per occurrence, in scan order.
    pub stocks: Vec<StockCompanyInfo>,
}

/// What a [`TagDetails`] holds.
pub ghost struct TagDetailsView {
    pub name: Seq<char>,
    pub detail: Option<Seq<char>>,
    pub count: u32,
    pub stocks: Seq<StockView>,
}

impl View for TagDetails {
    type V = TagDetailsView;

    open spec fn view(&self) -> TagDetailsView {
        TagDetailsView {
            name: self.name@,
            detail: detail_view(self.detail),
            count: self.count,
            stocks: stock_views(self.stocks@),
        }
    }
}

impl Clone for TagDetails {
    fn clone(&self) -> (r: Self)
        ensures
            r@ == self@,
    {
        let stocks = clone_stocks(self.stocks.as_slice(), 0, self.stocks.len());
        proof {
            assert(stock_views(self.stocks@).subrange(0, self.stocks@.len() as int) =~= stock_views(
                self.stocks@,
            ));
        }
        TagDetails {
            name: self.name.clone(),
            detail: clone_detail(&self.detail),
            count: self.count,
            stocks,
        }
    }
}

/// The views of a sequence of tag aggregates.
pub open spec fn tag_views(v: Seq<TagDetails>) -> Seq<TagDetailsView> {
    v.map_values(|t: TagDetails| t@)
}

/// A category with its aggregated tags in display order.
#[derive(Debug)]
pub struct TagCategory {
    pub name: String,
    pub tags: Vec<TagDetails>,
}

/// A chosen tag with the stocks that carry it.
#[derive(Debug)]
pub struct SelectedTag {
    pub category_name: String,
    pub tag_name: String,
    pub tag_detail: Option<String>,
    pub stocks: Vec<StockCompanyInfo>,
}

/// Counters shown beside the lists.
#[derive(Debug, Clone, Copy, PartialEq, Eq, Structural)]
pub struct TagStatistics {
    pub total_tags: u32,
    pub total_categories: u32,
    pub selected_category_tags_count: u32,
    pub current_page_tags_count: u32,
    pub error_tags_count: u32,
    pub warning_tags_count: u32,
    pub valid_tags_count: u32,
}

/// Search text, chosen category and paging. Page numbers start at 1.
#[derive(Debug)]
pub struct SearchParams {
    pub search_query: Option<String>,
    pub category_name: Option<String>,
    pub tags_page: u32,
    pub stocks_page: u32,
    pub tags_per_page: u32,
    pub stocks_per_page: u32,
}

/// The categories that survive a search, with totals.
#[derive(Debug)]
pub struct CategoryListResult {
    pub categories: Vec<String>,
    pub statistics: TagStatistics,
}

/// One page of a category's tags, with totals over all its pages.
#[derive(Debug)]
pub struct TagListResult {
    pub tags: Vec<TagDetails>,
    pub total_tags: u32,
    pub total_pages: u32,
    pub current_page: u32,
    pub error_tags_count: u32,
    pub warning_tags_count: u32,
    pub valid_tags_count: u32,
}

/// One page of a tag's stocks.
#[derive(Debug)]
pub struct StockListResult {
    pub stocks: Vec<StockCompanyInfo>,
    pub total_stocks: u32,
    pub total_pages: u32,
    pub current_page: u32,
}

} // verus!
