//! The display order of a category's tags: gravest verdict first, then the
//! most used, then by name; tags that tie keep the order they came in.
use vstd::prelude::*;
use crate::cache::{validate_tag_format, ValidationCache};
use crate::stock_data::{tag_views, TagDetails, TagDetailsView};
use crate::text::{lemma_lex_not_less_transitive, lex_less, text_less};
use crate::validation::{opt_text, tag_verdict};

verus! {

/// The weight of the verdict on a tag.
pub open spec fn rank_weight(t: TagDetailsView) -> u8 {
    tag_verdict(t.name, t.detail).spec_weight()
}

/// `a` must be shown before `b`: it has the graver verdict, or the same
/// verdict and more uses, or the same of both and the earlier name.
pub open spec fn outranks(a: TagDetailsView, b: TagDetailsView) -> bool {
    rank_weight(a) > rank_weight(b) || (rank_weight(a) == rank_weight(b) && (a.count > b.count || (
    a.count == b.count && lex_less(a.name, b.name))))
}

/// No tag stands after one that it outranks.
pub open spec fn in_order(s: Seq<TagDetailsView>) -> bool {
    forall|i: int, j: int| 0 <= i < j < s.len() ==> !outranks(#[trigger] s[j], #[trigger] s[i])
}

/// `sorted` with `x` put behind every tag that it does not outrank.
pub open spec fn place(sorted: Seq<TagDetailsView>, x: TagDetailsView) -> Seq<TagDetailsView>
    decreases sorted.len(),
{
    if sorted.len() > 0 && outranks(x, sorted.last()) {
        place(sorted.drop_last(), x).push(sorted.last())
    } else {
        sorted.push(x)
    }
}

/// The tags of `s` in display order.
pub open spec fn ranked(s: Seq<TagDetailsView>) -> Seq<TagDetailsView>
    decreases s.len(),
{
    if s.len() == 0 {
        Seq::empty()
    } else {
        place(ranked(s.drop_last()), s.last())
    }
}

/// If `a` does not outrank `b` and `b` does not outrank `c`, then `a` does
/// not outrank `c`.
pub proof fn lemma_not_outranks_transitive(a: TagDetailsView, b: TagDetailsView, c: TagDetailsView)
    requires
        !outranks(a, b),
        !outranks(b, c),
    ensures
        !outranks(a, c),
{
    if !lex_less(a.name, b.name) && !lex_less(b.name, c.name) {
        lemma_lex_not_less_transitive(a.name, b.name, c.name);
    }
}

/// Placing a tag puts it at the one position where everything behind it is
/// outranked by it and the tag just before it is not.
pub proof fn lemma_place_at(sorted: Seq<TagDetailsView>, x: TagDetailsView, pos: int)
    requires
        0 <= pos <= sorted.len(),
        forall|q: int| pos <= q < sorted.len() ==> outranks(x, #[trigger] sorted[q]),
        pos == 0 || !outranks(x, sorted[pos - 1]),
    ensures
        place(sorted, x) == sorted.insert(pos, x),
    decreases sorted.len(),
{
    if sorted.len() > 0 && outranks(x, sorted.last()) {
        let front = sorted.drop_last();
        assert(pos < sorted.len());
        assert forall|q: int| pos <= q < front.len() implies outranks(x, #[trigger] front[q]) by {
            assert(front[q] == sorted[q]);
        }
        lemma_place_at(front, x, pos);
        assert(front.insert(pos, x).push(sorted.last()) =~= sorted.insert(pos, x));
    } else {
        if pos < sorted.len() {
            assert(outranks(x, sorted[sorted.len() - 1]));
        }
        assert(sorted.push(x) =~= sorted.insert(pos, x));
    }
}

/// Where `place` puts a tag: behind the last tag that it does not outrank.
pub open spec fn place_index(sorted: Seq<TagDetailsView>, x: TagDetailsView) -> int
    decreases sorted.len(),
{
    if sorted.len() > 0 && outranks(x, sorted.last()) {
        place_index(sorted.drop_last(), x)
    } else {
        sorted.len() as int
    }
}

/// `place` puts a tag at `place_index`: everything from there on is
/// outranked by the tag, the tag just before is not.
pub proof fn lemma_place_index(sorted: Seq<TagDetailsView>, x: TagDetailsView)
    ensures
        0 <= place_index(sorted, x) <= sorted.len(),
        forall|q: int|
            place_index(sorted, x) <= q < sorted.len() ==> outranks(x, #[trigger] sorted[q]),
        place_index(sorted, x) == 0 || !outranks(x, sorted[place_index(sorted, x) - 1]),
        place(sorted, x) == sorted.insert(place_index(sorted, x), x),
    decreases sorted.len(),
{
    if sorted.len() > 0 && outranks(x, sorted.last()) {
        let front = sorted.drop_last();
        lemma_place_index(front, x);
        let p = place_index(front, x);
        assert forall|q: int| p <= q < sorted.len() implies outranks(x, #[trigger] sorted[q]) by {
            if q < front.len() {
                assert(front[q] == sorted[q]);
            }
        }
        if p > 0 {
            assert(front[p - 1] == sorted[p - 1]);
        }
    }
    lemma_place_at(sorted, x, place_index(sorted, x));
}

/// Placing a tag into tags that are in order leaves them in order.
pub proof fn lemma_place_in_order(sorted: Seq<TagDetailsView>, x: TagDetailsView)
    requires
        in_order(sorted),
    ensures
        in_order(place(sorted, x)),
{
    lemma_place_index(sorted, x);
    let p = place_index(sorted, x);
    let r = sorted.insert(p, x);
    assert forall|i: int, j: int| 0 <= i < j < r.len() implies !outranks(
        #[trigger] r[j],
        #[trigger] r[i],
    ) by {
        if j == p {
            // r[j] is x, r[i] stands before the place
            assert(r[i] == sorted[i]);
            if i < p - 1 {
                assert(!outranks(sorted[p - 1], sorted[i]));
                lemma_not_outranks_transitive(x, sorted[p - 1], sorted[i]);
            }
        } else if i == p {
            // r[i] is x, r[j] stands behind the place and is outranked by x
            assert(r[j] == sorted[j - 1]);
            assert(outranks(x, sorted[j - 1]));
            lemma_outranks_asymmetric(x, sorted[j - 1]);
        } else {
            let a = if i < p { i } else { i - 1 };
            let b = if j < p { j } else { j - 1 };
            assert(r[i] == sorted[a]);
            assert(r[j] == sorted[b]);
        }
    }
}

/// Two tags never outrank each other.
pub proof fn lemma_outranks_asymmetric(a: TagDetailsView, b: TagDetailsView)
    requires
        outranks(a, b),
    ensures
        !outranks(b, a),
{
    if lex_less(a.name, b.name) && lex_less(b.name, a.name) {
        crate::text::lemma_lex_transitive(a.name, b.name, a.name);
        crate::text::lemma_lex_irreflexive(a.name);
    }
}

/// Ranked tags are in order.
pub proof fn lemma_ranked_in_order(s: Seq<TagDetailsView>)
    ensures
        in_order(ranked(s)),
    decreases s.len(),
{
    if s.len() > 0 {
        lemma_ranked_in_order(s.drop_last());
        lemma_place_in_order(ranked(s.drop_last()), s.last());
    }
}

/// Ranking neither drops nor invents nor repeats a tag.
pub proof fn lemma_ranked_permutes(s: Seq<TagDetailsView>)
    ensures
        ranked(s).to_multiset() == s.to_multiset(),
        ranked(s).len() == s.len(),
    decreases s.len(),
{
    broadcast use vstd::seq_lib::group_to_multiset_ensures;

    if s.len() > 0 {
        let front = s.drop_last();
        lemma_ranked_permutes(front);
        lemma_place_index(ranked(front), s.last());
        let p = place_index(ranked(front), s.last());
        vstd::seq_lib::to_multiset_insert(ranked(front), p, s.last());
        vstd::seq_lib::to_multiset_build(front, s.last());
        assert(s =~= front.push(s.last()));
        assert(ranked(s).to_multiset() =~= s.to_multiset());
    } else {
        assert(ranked(s) =~= s);
    }
}

/// Tags that are already in order stay as they are.
pub proof fn lemma_ranked_fixes_ordered(s: Seq<TagDetailsView>)
    requires
        in_order(s),
    ensures
        ranked(s) == s,
    decreases s.len(),
{
    if s.len() > 0 {
        let front = s.drop_last();
        assert forall|i: int, j: int| 0 <= i < j < front.len() implies !outranks(
            #[trigger] front[j],
            #[trigger] front[i],
        ) by {
            assert(front[i] == s[i] && front[j] == s[j]);
        }
        lemma_ranked_fixes_ordered(front);
        if front.len() > 0 {
            assert(!outranks(s[s.len() - 1], s[front.len() - 1]));
            assert(front.last() == s[front.len() - 1]);
        }
        assert(front.push(s.last()) =~= s);
    }
}

} // verus!

verus! {

/// An optional string as an optional slice.
pub fn detail_str(d: &Option<String>) -> (r: Option<&str>)
    ensures
        opt_text(r) == crate::stock_data::detail_view(*d),
{
    match d {
        Some(s) => Some(s.as_str()),
        None => None,
    }
}

/// The weight of the verdict on `tag`, from the cache where it is there.
pub fn tag_weight(cache: &ValidationCache, tag: &TagDetails) -> (w: u8)
    ensures
        w == rank_weight(tag@),
{
    validate_tag_format(cache, tag.name.as_str(), detail_str(&tag.detail)).weight()
}

/// Whether `a` must be shown before `b`, given the weights of both.
pub fn outranks_by(wa: u8, a: &TagDetails, wb: u8, b: &TagDetails) -> (first: bool)
    requires
        wa == rank_weight(a@),
        wb == rank_weight(b@),
    ensures
        first == outranks(a@, b@),
{
    if wa != wb {
        wa > wb
    } else if a.count != b.count {
        a.count > b.count
    } else {
        text_less(a.name.as_str(), b.name.as_str())
    }
}

/// Puts tags into display order.
pub fn rank_tags(tags: Vec<TagDetails>, cache: &ValidationCache) -> (sorted: Vec<TagDetails>)
    ensures
        tag_views(sorted@) == ranked(tag_views(tags@)),
{
    let ghost orig = tag_views(tags@);
    let mut v = tags;
    let n = v.len();
    let mut weights: Vec<u8> = Vec::new();
    let mut k: usize = 0;
    while k < n
        invariant
            k <= n == v.len(),
            weights.len() == k,
            forall|j: int| 0 <= j < k ==> weights@[j] == rank_weight(#[trigger] v@[j]@),
        decreases n - k,
    {
        let w = tag_weight(cache, &v[k]);
        weights.push(w);
        k += 1;
    }
    let mut i: usize = 0;
    proof {
        assert(orig.take(0) =~= Seq::<TagDetailsView>::empty());
        assert(tag_views(v@) =~= ranked(orig.take(0)) + orig.skip(0));
    }
    while i < n
        invariant
            i <= n == v.len(),
            weights.len() == n,
            orig.len() == n,
            forall|j: int| 0 <= j < n ==> weights@[j] == rank_weight(#[trigger] v@[j]@),
            tag_views(v@) == ranked(orig.take(i as int)) + orig.skip(i as int),
        decreases n - i,
    {
        let ghost done = ranked(orig.take(i as int));
        let ghost before = v@;
        proof {
            lemma_ranked_permutes(orig.take(i as int));
            assert(done.len() == i);
            assert forall|q: int| 0 <= q < i implies (#[trigger] before[q])@ == done[q] by {
                assert(tag_views(before)[q] == before[q]@);
            }
            assert(tag_views(before)[i as int] == before[i as int]@);
            assert(before[i as int]@ == orig[i as int]);
        }
        let x = v.remove(i);
        let w = weights.remove(i);
        let mut pos: usize = i;
        while pos > 0 && outranks_by(w, &x, weights[pos - 1], &v[pos - 1])
            invariant
                pos <= i < n,
                v.len() == n - 1,
                weights.len() == n - 1,
                v@ == before.remove(i as int),
                w == rank_weight(x@),
                forall|j: int| 0 <= j < n - 1 ==> weights@[j] == rank_weight(#[trigger] v@[j]@),
                forall|q: int| pos <= q < i ==> outranks(x@, (#[trigger] v@[q])@),
            decreases pos,
        {
            pos -= 1;
        }
        let ghost xv = x@;
        v.insert(pos, x);
        weights.insert(pos, w);
        proof {
            assert forall|q: int| pos <= q < done.len() implies outranks(xv, #[trigger] done[q]) by {
                assert(before.remove(i as int)[q] == before[q]);
                assert(outranks(xv, before.remove(i as int)[q]@));
            }
            if pos > 0 {
                assert(before.remove(i as int)[pos - 1] == before[pos - 1]);
            }
            lemma_place_at(done, xv, pos as int);
            assert(orig.take(i + 1).drop_last() =~= orig.take(i as int));
            assert(orig.take(i + 1).last() == orig[i as int]);
            assert(ranked(orig.take(i + 1)) == done.insert(pos as int, xv));
            assert(tag_views(v@) =~= done.insert(pos as int, xv) + orig.skip(i + 1)) by {
                assert forall|q: int| 0 <= q < n implies tag_views(v@)[q] == (done.insert(
                    pos as int,
                    xv,
                ) + orig.skip(i + 1))[q] by {
                    if q < pos {
                        assert(v@[q] == before[q]);
                    } else if q == pos {
                    } else if q <= i {
                        assert(v@[q] == before[q - 1]);
                    } else {
                        assert(v@[q] == before[q]);
                        assert(tag_views(before)[q] == orig.skip(i as int)[q - i]);
                    }
                }
            }
            assert forall|j: int| 0 <= j < n implies weights@[j] == rank_weight(
                #[trigger] v@[j]@,
            ) by {}
        }
        i += 1;
    }
    proof {
        assert(orig.take(n as int) =~= orig);
        assert(orig.skip(n as int) =~= Seq::<TagDetailsView>::empty());
        assert(ranked(orig) + Seq::<TagDetailsView>::empty() =~= ranked(orig));
    }
    v
}

} // verus!

verus! {

/// `order` with the position `i` put behind every position whose tag `s[i]`
/// does not outrank.
pub open spec fn place_position(order: Seq<int>, s: Seq<TagDetailsView>, i: int) -> Seq<int>
    decreases order.len(),
{
    if order.len() > 0 && outranks(s[i], s[order.last()]) {
        place_position(order.drop_last(), s, i).push(order.last())
    } else {
        order.push(i)
    }
}

/// Where the tags of `ranked(s)` come from: the positions of `s` in display
/// order.
pub open spec fn ranking(s: Seq<TagDetailsView>) -> Seq<int>
    decreases s.len(),
{
    if s.len() == 0 {
        Seq::empty()
    } else {
        place_position(ranking(s.drop_last()), s, s.len() - 1)
    }
}

/// A position is placed where its tag is placed.
pub proof fn lemma_place_position(
    order: Seq<int>,
    sorted: Seq<TagDetailsView>,
    s: Seq<TagDetailsView>,
    i: int,
)
    requires
        0 <= i < s.len(),
        order.len() == sorted.len(),
        forall|k: int|
            0 <= k < order.len() ==> 0 <= #[trigger] order[k] < s.len() && sorted[k] == s[order[k]],
    ensures
        place_position(order, s, i) == order.insert(place_index(sorted, s[i]), i),
    decreases order.len(),
{
    lemma_place_index(sorted, s[i]);
    if order.len() > 0 && outranks(s[i], s[order.last()]) {
        assert(sorted.last() == s[order.last()]);
        let front = order.drop_last();
        let sorted_front = sorted.drop_last();
        assert forall|k: int| 0 <= k < front.len() implies 0 <= #[trigger] front[k] < s.len()
            && sorted_front[k] == s[front[k]] by {
            assert(front[k] == order[k]);
        }
        lemma_place_position(front, sorted_front, s, i);
        lemma_place_index(sorted_front, s[i]);
        assert(front.insert(place_index(sorted_front, s[i]), i).push(order.last())
            =~= order.insert(place_index(sorted, s[i]), i));
    } else {
        if order.len() > 0 {
            assert(sorted.last() == s[order.last()]);
        }
        assert(order.push(i) =~= order.insert(order.len() as int, i));
    }
}

/// What the display order is, position by position: `ranking(s)` names every
/// position of `s` once, `ranked(s)` holds the tags at these positions, and of
/// two listed tags the earlier one outranks the later one, or neither
/// outranks the other and the earlier one stood first in `s`.
pub proof fn lemma_ranking(s: Seq<TagDetailsView>)
    ensures
        ranking(s).len() == s.len(),
        ranked(s).len() == s.len(),
        forall|k: int|
            0 <= k < s.len() ==> 0 <= #[trigger] ranking(s)[k] < s.len() && ranked(s)[k]
                == s[ranking(s)[k]],
        forall|k: int, l: int|
            0 <= k < l < s.len() ==> #[trigger] ranking(s)[k] != #[trigger] ranking(s)[l],
        forall|k: int, l: int|
            0 <= k < l < s.len() ==> outranks(
                s[#[trigger] ranking(s)[k]],
                s[#[trigger] ranking(s)[l]],
            ) || (!outranks(s[ranking(s)[l]], s[ranking(s)[k]]) && ranking(s)[k] < ranking(s)[l]),
    decreases s.len(),
{
    if s.len() > 0 {
        let front = s.drop_last();
        let i = s.len() - 1;
        let x = s[i];
        let order = ranking(front);
        let sorted = ranked(front);
        lemma_ranking(front);
        lemma_ranked_in_order(front);
        assert forall|k: int| 0 <= k < order.len() implies 0 <= #[trigger] order[k] < s.len()
            && sorted[k] == s[order[k]] by {
            assert(front[order[k]] == s[order[k]]);
        }
        lemma_place_position(order, sorted, s, i);
        lemma_place_index(sorted, x);
        let p = place_index(sorted, x);
        let r = ranking(s);
        assert(r == order.insert(p, i));
        assert(ranked(s) == sorted.insert(p, x));
        assert forall|k: int| 0 <= k < p implies !outranks(x, #[trigger] sorted[k]) by {
            if k < p - 1 {
                assert(!outranks(sorted[p - 1], sorted[k]));
                lemma_not_outranks_transitive(x, sorted[p - 1], sorted[k]);
            }
        }
        assert forall|k: int, l: int| 0 <= k < l < s.len() implies #[trigger] r[k]
            != #[trigger] r[l] by {
            let a = if k < p { k } else { k - 1 };
            let b = if l < p { l } else { l - 1 };
            if k != p && l != p {
                assert(r[k] == order[a] && r[l] == order[b]);
            } else if k == p {
                assert(r[l] == order[b]);
            } else {
                assert(r[k] == order[a]);
            }
        }
        assert forall|k: int, l: int| 0 <= k < l < s.len() implies outranks(
            s[#[trigger] r[k]],
            s[#[trigger] r[l]],
        ) || (!outranks(s[r[l]], s[r[k]]) && r[k] < r[l]) by {
            let a = if k < p { k } else { k - 1 };
            let b = if l < p { l } else { l - 1 };
            if k != p && l != p {
                assert(r[k] == order[a] && r[l] == order[b]);
                assert(front[order[a]] == s[order[a]]);
                assert(front[order[b]] == s[order[b]]);
            } else if k == p {
                assert(r[l] == order[b]);
                assert(sorted[b] == s[order[b]]);
                assert(outranks(x, sorted[b]));
            } else {
                assert(r[k] == order[a]);
                assert(sorted[a] == s[order[a]]);
                assert(!outranks(x, sorted[a]));
            }
        }
    }
}

} // verus!
