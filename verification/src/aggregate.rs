//! Gathering one category's tags over a whole collection: every distinct
//! (name, detail) pair once, with its number of uses and the stocks that
//! carry it.
use vstd::prelude::*;
use rayon::iter::{IntoParallelRefIterator, ParallelIterator};
use crate::cache::ValidationCache;
use crate::pagination::clamp_u32;
use crate::parser::{
    category_tags, clauses, grouped, lemma_grouped_lookup, parse_with, DetailPattern,
    ParsedTags,
};
use crate::ranking::{in_order, lemma_ranked_in_order, rank_tags, ranked};
use crate::stock_data::{
    clone_detail, item_views, stock_views, tag_views, StockCompanyInfo, StockView, TagCategory,
    TagDetails, TagDetailsView, TagItem, TagItemView,
};
use crate::validation::tag_key;

verus! {

/// One occurrence of a tag: the tag as written and the stock that carries it.
pub ghost struct Sighting {
    pub tag: TagItemView,
    pub stock: StockView,
}

/// The occurrences of `category`'s tags in one stock, in the order of its tag
/// text.
pub open spec fn stock_sightings(stock: StockView, category: Seq<char>) -> Seq<Sighting> {
    category_tags(stock.custom_tags, category).map_values(
        |t: TagItemView| Sighting { tag: t, stock: stock },
    )
}

/// The occurrences of `category`'s tags over a collection, in scan order.
pub open spec fn sightings(stocks: Seq<StockView>, category: Seq<char>) -> Seq<Sighting>
    decreases stocks.len(),
{
    if stocks.len() == 0 {
        Seq::empty()
    } else {
        sightings(stocks.drop_last(), category) + stock_sightings(stocks.last(), category)
    }
}

/// How often `category`'s tags occur over a collection.
pub open spec fn occurrences(stocks: Seq<StockView>, category: Seq<char>) -> nat
    decreases stocks.len(),
{
    if stocks.len() == 0 {
        0
    } else {
        occurrences(stocks.drop_last(), category) + category_tags(
            stocks.last().custom_tags,
            category,
        ).len()
    }
}

/// The key of an aggregated tag.
pub open spec fn key_of(t: TagDetailsView) -> (Seq<char>, Seq<char>) {
    tag_key(t.name, t.detail)
}

/// Where the tag with `key` stands in `t`, or `t.len()` when there is none.
pub open spec fn entry_of(t: Seq<TagDetailsView>, key: (Seq<char>, Seq<char>)) -> int
    decreases t.len(),
{
    if t.len() == 0 {
        0
    } else if key_of(t[0]) == key {
        0
    } else {
        1 + entry_of(t.drop_first(), key)
    }
}

/// One more use, saturating.
pub open spec fn bump(count: u32) -> u32 {
    if count < u32::MAX {
        (count + 1) as u32
    } else {
        count
    }
}

/// The tally after one more occurrence: the tag with the same key gets one
/// more use and one more stock; a key not seen before becomes a new tag, which
/// keeps the name and the detail of this first occurrence.
pub open spec fn count_in(t: Seq<TagDetailsView>, x: Sighting) -> Seq<TagDetailsView> {
    let k = entry_of(t, tag_key(x.tag.name, x.tag.detail));
    if 0 <= k < t.len() {
        t.update(
            k,
            TagDetailsView {
                name: t[k].name,
                detail: t[k].detail,
                count: bump(t[k].count),
                stocks: t[k].stocks.push(x.stock),
            },
        )
    } else {
        t.push(
            TagDetailsView {
                name: x.tag.name,
                detail: x.tag.detail,
                count: 1,
                stocks: seq![x.stock],
            },
        )
    }
}

/// The distinct tags among some occurrences, in order of first appearance.
pub open spec fn tally(s: Seq<Sighting>) -> Seq<TagDetailsView>
    decreases s.len(),
{
    if s.len() == 0 {
        Seq::empty()
    } else {
        count_in(tally(s.drop_last()), s.last())
    }
}

/// The stocks of the occurrences with `key`, in order.
pub open spec fn carriers(s: Seq<Sighting>, key: (Seq<char>, Seq<char>)) -> Seq<StockView>
    decreases s.len(),
{
    if s.len() == 0 {
        Seq::empty()
    } else if tag_key(s.last().tag.name, s.last().tag.detail) == key {
        carriers(s.drop_last(), key).push(s.last().stock)
    } else {
        carriers(s.drop_last(), key)
    }
}

/// The stocks listed under all tags together.
pub open spec fn total_uses(t: Seq<TagDetailsView>) -> nat
    decreases t.len(),
{
    if t.len() == 0 {
        0
    } else {
        total_uses(t.drop_last()) + t.last().stocks.len()
    }
}

/// The use counts of all tags together.
pub open spec fn sum_counts(t: Seq<TagDetailsView>) -> nat
    decreases t.len(),
{
    if t.len() == 0 {
        0
    } else {
        sum_counts(t.drop_last()) + t.last().count as nat
    }
}

/// `entry_of` is a position in the tally or its length; no tag before it has
/// the key, and the tag at it has.
pub proof fn lemma_entry_of_props(t: Seq<TagDetailsView>, key: (Seq<char>, Seq<char>))
    ensures
        0 <= entry_of(t, key) <= t.len(),
        forall|j: int| 0 <= j < entry_of(t, key) ==> key_of(#[trigger] t[j]) != key,
        entry_of(t, key) < t.len() ==> key_of(t[entry_of(t, key)]) == key,
    decreases t.len(),
{
    if t.len() > 0 && key_of(t[0]) != key {
        let rest = t.drop_first();
        lemma_entry_of_props(rest, key);
        assert forall|j: int| 0 <= j < entry_of(t, key) implies key_of(#[trigger] t[j]) != key by {
            if j > 0 {
                assert(t[j] == rest[j - 1]);
            }
        }
        if entry_of(t, key) < t.len() {
            assert(t[entry_of(t, key)] == rest[entry_of(rest, key)]);
        }
    }
}

/// `entry_of` is the first position whose tag has the key.
pub proof fn lemma_entry_of_is(t: Seq<TagDetailsView>, key: (Seq<char>, Seq<char>), k: int)
    requires
        0 <= k <= t.len(),
        forall|j: int| 0 <= j < k ==> key_of(#[trigger] t[j]) != key,
        k == t.len() || key_of(t[k]) == key,
    ensures
        entry_of(t, key) == k,
    decreases t.len(),
{
    if k > 0 {
        let rest = t.drop_first();
        assert forall|j: int| 0 <= j < k - 1 implies key_of(#[trigger] rest[j]) != key by {
            assert(rest[j] == t[j + 1]);
        }
        lemma_entry_of_is(rest, key, k - 1);
    }
}

/// Replacing one tag changes the totals by the difference between the two.
pub proof fn lemma_total_uses_update(t: Seq<TagDetailsView>, k: int, v: TagDetailsView)
    requires
        0 <= k < t.len(),
    ensures
        total_uses(t.update(k, v)) + t[k].stocks.len() == total_uses(t) + v.stocks.len(),
        sum_counts(t.update(k, v)) + t[k].count == sum_counts(t) + v.count,
    decreases t.len(),
{
    let u = t.update(k, v);
    if k == t.len() - 1 {
        assert(u.drop_last() =~= t.drop_last());
    } else {
        assert(u.drop_last() =~= t.drop_last().update(k, v));
        lemma_total_uses_update(t.drop_last(), k, v);
    }
}

/// What a tally holds: no key twice; under every tag exactly the stocks of
/// the occurrences with its key, in scan order, and their number as its
/// count; no occurrence left out; as many stocks in all as there are
/// occurrences.
pub proof fn lemma_tally(s: Seq<Sighting>)
    ensures
        forall|i: int, j: int|
            0 <= i < j < tally(s).len() ==> key_of(#[trigger] tally(s)[i]) != key_of(
                #[trigger] tally(s)[j],
            ),
        forall|k: int|
            0 <= k < tally(s).len() ==> {
                &&& (#[trigger] tally(s)[k]).stocks == carriers(s, key_of(tally(s)[k]))
                &&& tally(s)[k].count == clamp_u32(tally(s)[k].stocks.len() as int)
                &&& tally(s)[k].stocks.len() >= 1
            },
        forall|key: (Seq<char>, Seq<char>)|
            #[trigger] entry_of(tally(s), key) == tally(s).len() ==> carriers(s, key) == Seq::<
                StockView,
            >::empty(),
        total_uses(tally(s)) == s.len(),
    decreases s.len(),
{
    if s.len() > 0 {
        let front = s.drop_last();
        let x = s.last();
        let kx = tag_key(x.tag.name, x.tag.detail);
        let t = tally(front);
        let u = tally(s);
        lemma_tally(front);
        lemma_entry_of_props(t, kx);
        let k = entry_of(t, kx);
        if k < t.len() {
            lemma_total_uses_update(t, k, u[k]);
            assert forall|key: (Seq<char>, Seq<char>)|
                #[trigger] entry_of(u, key) == u.len() implies carriers(s, key) == Seq::<
                StockView,
            >::empty() by {
                lemma_entry_of_props(u, key);
                assert forall|j: int| 0 <= j < t.len() implies key_of(#[trigger] t[j]) != key by {
                    assert(key_of(u[j]) == key_of(t[j]));
                }
                lemma_entry_of_is(t, key, t.len() as int);
                assert(key_of(u[k]) != key);
            }
            assert forall|j: int| 0 <= j < u.len() implies {
                &&& (#[trigger] u[j]).stocks == carriers(s, key_of(u[j]))
                &&& u[j].count == clamp_u32(u[j].stocks.len() as int)
                &&& u[j].stocks.len() >= 1
            } by {
                if j != k {
                    assert(u[j] == t[j]);
                    if j < k {
                        assert(key_of(t[j]) != key_of(t[k]));
                    } else {
                        assert(key_of(t[k]) != key_of(t[j]));
                    }
                }
            }
        } else {
            assert(u.drop_last() =~= t);
            assert forall|key: (Seq<char>, Seq<char>)|
                #[trigger] entry_of(u, key) == u.len() implies carriers(s, key) == Seq::<
                StockView,
            >::empty() by {
                lemma_entry_of_props(u, key);
                assert forall|j: int| 0 <= j < t.len() implies key_of(#[trigger] t[j]) != key by {
                    assert(u[j] == t[j]);
                }
                lemma_entry_of_is(t, key, t.len() as int);
                assert(key_of(u[t.len() as int]) != key);
            }
            assert forall|j: int| 0 <= j < u.len() implies {
                &&& (#[trigger] u[j]).stocks == carriers(s, key_of(u[j]))
                &&& u[j].count == clamp_u32(u[j].stocks.len() as int)
                &&& u[j].stocks.len() >= 1
            } by {
                if j < t.len() {
                    assert(u[j] == t[j]);
                    assert(key_of(t[j]) != kx);
                } else {
                    assert(carriers(front, kx) == Seq::<StockView>::empty());
                    assert(Seq::<StockView>::empty().push(x.stock) =~= seq![x.stock]);
                }
            }
            assert forall|i: int, j: int| 0 <= i < j < u.len() implies key_of(#[trigger] u[i])
                != key_of(#[trigger] u[j]) by {
                assert(u[i] == t[i]);
                if j < t.len() {
                    assert(u[j] == t[j]);
                }
            }
        }
    }
}

/// The occurrences over a collection are as many as `occurrences` counts.
pub proof fn lemma_sightings_len(stocks: Seq<StockView>, category: Seq<char>)
    ensures
        sightings(stocks, category).len() == occurrences(stocks, category),
    decreases stocks.len(),
{
    if stocks.len() > 0 {
        lemma_sightings_len(stocks.drop_last(), category);
    }
}

} // verus!

verus! {

/// `parsed` holds, stock by stock, what the parser reads in the stocks' tag
/// texts.
pub open spec fn parsed_from(parsed: Seq<ParsedTags>, stocks: Seq<StockCompanyInfo>) -> bool {
    &&& parsed.len() == stocks.len()
    &&& forall|i: int|
        0 <= i < stocks.len() ==> (#[trigger] parsed[i])@ == grouped(
            clauses(stocks[i].custom_tags@),
        )
}

/// Parses every stock's tag text, the stocks shared out over rayon's worker
/// threads: `par_iter` walks the slice, `map` applies `parse_with` to each
/// stock, and `collect` into a `Vec` keeps the items in the order of the
/// slice.
#[verifier::external_body]
fn parse_each(stocks: &[StockCompanyInfo], pattern: &DetailPattern) -> (parsed: Vec<ParsedTags>)
    requires
        pattern.wf(),
    ensures
        parsed_from(parsed@, stocks@),
{
    stocks.par_iter().map(|stock| parse_with(pattern, &stock.custom_tags)).collect()
}

/// Parses every stock's tag text.
pub fn parse_all(stocks: &[StockCompanyInfo]) -> (parsed: Vec<ParsedTags>)
    ensures
        parsed_from(parsed@, stocks@),
{
    let pattern = DetailPattern::new();
    parse_each(stocks, &pattern)
}

/// Whether a tag and an item fall under the same key.
pub fn same_key(tag: &TagDetails, item: &TagItem) -> (same: bool)
    ensures
        same == (key_of(tag@) == tag_key(item@.name, item@.detail)),
{
    if !(tag.name == item.name) {
        return false;
    }
    match &tag.detail {
        Some(a) => match &item.detail {
            Some(b) => *a == *b,
            None => {
                proof {
                    if a@.len() == 0 {
                        assert(a@ =~= Seq::<char>::empty());
                    }
                }
                a.as_str().is_empty()
            },
        },
        None => match &item.detail {
            Some(b) => {
                proof {
                    if b@.len() == 0 {
                        assert(b@ =~= Seq::<char>::empty());
                    }
                }
                b.as_str().is_empty()
            },
            None => true,
        },
    }
}

/// Counts one more occurrence into a tally.
pub fn tally_add(tags: &mut Vec<TagDetails>, item: &TagItem, stock: &StockCompanyInfo)
    ensures
        tag_views(final(tags)@) == count_in(
            tag_views(old(tags)@),
            Sighting { tag: item@, stock: stock@ },
        ),
{
    let ghost before = tag_views(tags@);
    let ghost key = tag_key(item@.name, item@.detail);
    let mut k: usize = 0;
    while k < tags.len()
        invariant
            k <= tags@.len(),
            tags@ == old(tags)@,
            before == tag_views(tags@),
            key == tag_key(item@.name, item@.detail),
            forall|j: int| 0 <= j < k ==> key_of(#[trigger] before[j]) != key,
        decreases tags@.len() - k,
    {
        if same_key(&tags[k], item) {
            proof {
                lemma_entry_of_is(before, key, k as int);
            }
            let ghost old_tags = tags@;
            let copy = stock.clone();
            let count = tags[k].count;
            tags[k].count = if count < u32::MAX { count + 1 } else { count };
            tags[k].stocks.push(copy);
            proof {
                assert(tags@.len() == old_tags.len());
                assert(forall|j: int| 0 <= j < old_tags.len() && j != k ==> tags@[j] == old_tags[j]);
                assert(tags@[k as int].name == old_tags[k as int].name);
                assert(tags@[k as int].detail == old_tags[k as int].detail);
                assert(tags@[k as int].stocks@ == old_tags[k as int].stocks@.push(copy));
                assert(stock_views(old_tags[k as int].stocks@.push(copy)) =~= stock_views(
                    old_tags[k as int].stocks@,
                ).push(stock@));
                assert(tag_views(tags@) =~= count_in(
                    before,
                    Sighting { tag: item@, stock: stock@ },
                ));
            }
            return ;
        }
        k += 1;
    }
    proof {
        lemma_entry_of_is(before, key, k as int);
    }
    let mut stocks: Vec<StockCompanyInfo> = Vec::new();
    stocks.push(stock.clone());
    let tag = TagDetails {
        name: item.name.clone(),
        detail: clone_detail(&item.detail),
        count: 1,
        stocks,
    };
    proof {
        assert(stock_views(tag.stocks@) =~= seq![stock@]);
    }
    tags.push(tag);
    proof {
        assert(tag_views(tags@) =~= count_in(before, Sighting { tag: item@, stock: stock@ }));
    }
}

/// The tally of `category` over a collection that has been parsed already.
pub(crate) fn tally_category(stock_data: &[StockCompanyInfo], parsed: &Vec<ParsedTags>, category: &str) -> (tags:
    Vec<TagDetails>)
    requires
        parsed_from(parsed@, stock_data@),
    ensures
        tag_views(tags@) == tally(sightings(stock_views(stock_data@), category@)),
{
    let ghost all = stock_views(stock_data@);
    let wanted = category.to_owned();
    let mut tags: Vec<TagDetails> = Vec::new();
    let mut i: usize = 0;
    proof {
        assert(all.take(0) =~= Seq::<StockView>::empty());
        assert(tag_views(tags@) =~= tally(sightings(all.take(0), category@)));
    }
    while i < stock_data.len()
        invariant
            i <= stock_data@.len(),
            all == stock_views(stock_data@),
            wanted@ == category@,
            parsed_from(parsed@, stock_data@),
            tag_views(tags@) == tally(sightings(all.take(i as int), category@)),
        decreases stock_data@.len() - i,
    {
        let stock = &stock_data[i];
        let ghost seen = sightings(all.take(i as int), category@);
        let ghost here = stock_sightings(stock@, category@);
        proof {
            assert(all.take(i + 1).drop_last() =~= all.take(i as int));
            assert(all.take(i + 1).last() == stock@);
            lemma_grouped_lookup(clauses(stock.custom_tags@), category@);
        }
        match parsed[i].find(&wanted) {
            Some(items) => {
                let mut j: usize = 0;
                proof {
                    assert(seen + here.take(0) =~= seen);
                }
                while j < items.len()
                    invariant
                        j <= items@.len(),
                        item_views(items@) == category_tags(stock@.custom_tags, category@),
                        here == stock_sightings(stock@, category@),
                        tag_views(tags@) == tally(seen + here.take(j as int)),
                    decreases items@.len() - j,
                {
                    proof {
                        assert(here[j as int] == Sighting { tag: item_views(items@)[j as int], stock: stock@ });
                        assert((seen + here.take(j + 1)).drop_last() =~= seen + here.take(j as int));
                        assert((seen + here.take(j + 1)).last() == here[j as int]);
                    }
                    tally_add(&mut tags, &items[j], stock);
                    j += 1;
                }
                proof {
                    assert(here.take(j as int) =~= here);
                }
            },
            None => {
                proof {
                    assert(here =~= Seq::<Sighting>::empty());
                    assert(seen + here =~= seen);
                }
            },
        }
        i += 1;
    }
    proof {
        assert(all.take(i as int) =~= all);
    }
    tags
}

/// One category's tags over the whole collection, in display order.
pub fn get_category_data(
    stock_data: &[StockCompanyInfo],
    category_name: &str,
    cache: &ValidationCache,
) -> (category: TagCategory)
    ensures
        category.name@ == category_name@,
        tag_views(category.tags@) == ranked(
            tally(sightings(stock_views(stock_data@), category_name@)),
        ),
        in_order(tag_views(category.tags@)),
{
    let parsed = parse_all(stock_data);
    let tags = tally_category(stock_data, &parsed, category_name);
    proof {
        lemma_ranked_in_order(tag_views(tags@));
    }
    let sorted = rank_tags(tags, cache);
    TagCategory { name: category_name.to_owned(), tags: sorted }
}

} // verus!
