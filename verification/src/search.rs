//! Fuzzy search over a built index: each item is scored against the query
//! by string similarity, exact matches short-circuit fuzzy ones, and fuzzy
//! results come back sorted by score and truncated to the caller's limit.
//!
//! A score is the bit pattern of the IEEE-754 similarity the string metric
//! computes. Similarities are non-negative, and on non-negative values the
//! bit patterns order exactly as the values do, so scores compare, sort,
//! and bound exactly as the similarities themselves.

use crate::graph::{Item, ItemGraph, ItemModel};
use crate::strutil::strip_prefix_spec;
use vstd::prelude::*;

verus! {

/// The score of a perfect match: the bit pattern of the similarity 1.0.
pub const EXACT_SCORE: u64 = 4607182418800017408;

/// The fuzzy floor: the bit pattern of the similarity 0.2. Only items
/// scoring strictly above it are ever returned.
pub const FUZZY_FLOOR: u64 = 4596373779694328218;

/// The similarity `strsim` assigns to a pair of strings, as the bit
/// pattern of its IEEE-754 value.
pub uninterp spec fn similarity(a: Seq<char>, b: Seq<char>) -> u64;

/// Relies on `strsim::jaro_winkler`: a similarity between 0.0 and 1.0, a
/// function of the two strings alone, and exactly 1.0 for equal strings.
/// The bit pattern of a non-negative IEEE-754 value is an order-preserving
/// integer encoding of it, so the returned scores compare as the
/// similarities do.
#[verifier::external_body]
fn jaro_winkler_score(a: &str, b: &str) -> (r: u64)
    ensures
        r == similarity(a@, b@),
        r <= EXACT_SCORE,
        a@ == b@ ==> r == EXACT_SCORE,
{
    strsim::jaro_winkler(a, b).to_bits()
}

/// The mathematical content of one search result.
#[verifier::ext_equal]
pub ghost struct ResultModel {
    pub score: u64,
    pub item: ItemModel,
}

/// One search result: the score and the matched item.
pub struct SearchResult {
    /// The similarity score, encoded as in the module description;
    /// `EXACT_SCORE` is an exact match.
    pub score: u64,
    /// The matched item.
    pub item: Item,
}

impl View for SearchResult {
    type V = ResultModel;

    open spec fn view(&self) -> ResultModel {
        ResultModel { score: self.score, item: self.item@ }
    }
}

impl DeepView for SearchResult {
    type V = ResultModel;

    open spec fn deep_view(&self) -> ResultModel {
        self.view()
    }
}

/// An exact match: the query equals the item's search key or its name.
pub open spec fn is_exact(it: ItemModel, q: Seq<char>) -> bool {
    it.search == q || it.name == q
}

/// The larger of two scores.
pub open spec fn max_score(a: u64, b: u64) -> u64 {
    if a >= b {
        a
    } else {
        b
    }
}

/// An item's score against the query: a perfect score for an exact match,
/// else the larger similarity of the search key and the bare name.
pub open spec fn item_score(it: ItemModel, q: Seq<char>) -> u64 {
    if is_exact(it, q) {
        EXACT_SCORE
    } else {
        max_score(similarity(it.search, q), similarity(it.name, q))
    }
}

/// The exact matches among the first `n` items, in arena order.
pub open spec fn exact_list(items: Seq<ItemModel>, q: Seq<char>, n: int) -> Seq<ResultModel>
    decreases n,
{
    if n <= 0 {
        Seq::empty()
    } else {
        let prev = exact_list(items, q, n - 1);
        if is_exact(items[n - 1], q) {
            prev.push(ResultModel { score: EXACT_SCORE, item: items[n - 1] })
        } else {
            prev
        }
    }
}

/// The fuzzy candidates among the first `n` items: the non-exact items
/// scoring strictly above the floor, in arena order, unsorted.
pub open spec fn fuzzy_list(items: Seq<ItemModel>, q: Seq<char>, n: int) -> Seq<ResultModel>
    decreases n,
{
    if n <= 0 {
        Seq::empty()
    } else {
        let prev = fuzzy_list(items, q, n - 1);
        if !is_exact(items[n - 1], q) && item_score(items[n - 1], q) > FUZZY_FLOOR {
            prev.push(ResultModel { score: item_score(items[n - 1], q), item: items[n - 1] })
        } else {
            prev
        }
    }
}

/// The list with `x` inserted before the first result scoring strictly
/// less than it: descending insertion that keeps earlier results ahead of
/// equal scores.
pub open spec fn insert_desc(s: Seq<ResultModel>, x: ResultModel) -> Seq<ResultModel>
    decreases s.len(),
{
    if s.len() == 0 {
        seq![x]
    } else if x.score > s[0].score {
        seq![x] + s
    } else {
        seq![s[0]] + insert_desc(s.drop_first(), x)
    }
}

/// Descending stable insertion sort, processing the input left to right.
pub open spec fn sort_desc(s: Seq<ResultModel>) -> Seq<ResultModel>
    decreases s.len(),
{
    if s.len() == 0 {
        Seq::empty()
    } else {
        insert_desc(sort_desc(s.drop_last()), s.last())
    }
}

/// What a search returns: every exact match in arena order when any
/// exists, ignoring the limit; otherwise the fuzzy candidates sorted by
/// descending score, ties in arena order, truncated to the limit.
pub open spec fn search_spec(items: Seq<ItemModel>, q: Seq<char>, max: int) -> Seq<ResultModel> {
    let ex = exact_list(items, q, items.len() as int);
    if ex.len() > 0 {
        ex
    } else {
        let f = sort_desc(fuzzy_list(items, q, items.len() as int));
        if f.len() <= max {
            f
        } else {
            f.take(max)
        }
    }
}

/// Inserting at the first position scoring strictly less than `x` is what
/// `insert_desc` computes.
proof fn lemma_insert_desc_at(s: Seq<ResultModel>, x: ResultModel, j: int)
    requires
        0 <= j <= s.len(),
        forall|k: int| 0 <= k < j ==> !(x.score > (#[trigger] s[k]).score),
        j < s.len() ==> x.score > s[j].score,
    ensures
        insert_desc(s, x) == s.take(j) + seq![x] + s.skip(j),
    decreases j,
{
    if j == 0 {
        assert(insert_desc(s, x) =~= s.take(0) + seq![x] + s.skip(0));
    } else {
        lemma_insert_desc_at(s.drop_first(), x, j - 1);
        assert(s.drop_first().take(j - 1) =~= s.skip(1).take(j - 1));
        assert(seq![s[0]] + (s.skip(1).take(j - 1) + seq![x] + s.skip(1).skip(j - 1)) =~= s.take(j)
            + seq![x] + s.skip(j));
        assert(insert_desc(s, x) == seq![s[0]] + insert_desc(s.drop_first(), x));
    }
}

/// The position where descending insertion places `x`.
fn insert_position_desc(out: &Vec<SearchResult>, score: u64) -> (j: usize)
    ensures
        j <= out@.len(),
        forall|k: int| 0 <= k < j ==> !(score > (#[trigger] out.deep_view()[k]).score),
        j < out@.len() ==> score > out.deep_view()[j as int].score,
{
    let mut j: usize = 0;
    while j < out.len()
        invariant
            j <= out@.len(),
            forall|k: int| 0 <= k < j ==> !(score > (#[trigger] out.deep_view()[k]).score),
        decreases out@.len() - j,
    {
        if score > out[j].score {
            return j;
        }
        j = j + 1;
    }
    j
}

/// Sorts the results by descending score, keeping arena order among equal
/// scores.
fn sort_results_desc(v: &mut Vec<SearchResult>)
    ensures
        final(v).deep_view() =~= sort_desc(old(v).deep_view()),
{
    let mut out: Vec<SearchResult> = Vec::new();
    let mut i: usize = 0;
    while i < v.len()
        invariant
            i <= v@.len(),
            v.deep_view().len() == v@.len(),
            out.deep_view() =~= sort_desc(v.deep_view().take(i as int)),
            out@.len() == i,
        decreases v@.len() - i,
    {
        let x = SearchResult { score: v[i].score, item: v[i].item.duplicate() };
        proof {
            assert(x@ == v.deep_view()[i as int]);
        }
        let j = insert_position_desc(&out, x.score);
        proof {
            lemma_insert_desc_at(out.deep_view(), x@, j as int);
        }
        let ghost pre = out.deep_view();
        out.insert(j, x);
        proof {
            assert(out.deep_view() =~= pre.take(j as int) + seq![v.deep_view()[i as int]]
                + pre.skip(j as int));
            let dv = v.deep_view();
            assert(dv.take(i + 1 as int).drop_last() =~= dv.take(i as int));
            assert(dv.take(i + 1 as int).last() == dv[i as int]);
        }
        i = i + 1;
    }
    proof {
        assert(v.deep_view().take(v@.len() as int) =~= v.deep_view());
    }
    *v = out;
}

impl ItemGraph {
    /// Searches the index for the query.
    ///
    /// The package's own name and a following `::` are first stripped from
    /// the query. Every exact match — an item whose search key or name
    /// equals the trimmed query — is returned in arena order, however many
    /// there are. When there is none, the items scoring strictly above the
    /// fuzzy floor come back sorted by descending score, ties in arena
    /// order, at most `max_results` of them (five by default).
    pub fn search(&self, query: &str, max_results: Option<usize>) -> (r: Vec<SearchResult>)
        ensures
            r.deep_view() =~= search_spec(
                self@.items,
                strip_prefix_spec(query@, self@.name),
                match max_results {
                    Some(m) => m as int,
                    None => 5,
                },
            ),
    {
        let max: usize = match max_results {
            Some(m) => m,
            None => 5,
        };
        let trimmed = crate::strutil::strip_package_prefix(query, self.name.as_str());
        let q = trimmed.as_str();
        let ghost qv = strip_prefix_spec(query@, self@.name);
        let ghost items_dv = self@.items;
        let mut exact: Vec<SearchResult> = Vec::new();
        let mut fuzzy: Vec<SearchResult> = Vec::new();
        let mut i: usize = 0;
        while i < self.items.len()
            invariant
                i <= self.items@.len(),
                q@ == qv,
                trimmed@ == qv,
                items_dv == self@.items,
                items_dv.len() == self.items@.len(),
                exact.deep_view() =~= exact_list(items_dv, qv, i as int),
                exact@.len() == 0 ==> fuzzy.deep_view() =~= fuzzy_list(items_dv, qv, i as int),
                exact@.len() > 0 ==> fuzzy@.len() == 0,
            decreases self.items@.len() - i,
        {
            let it = &self.items[i];
            let is_ex = crate::strutil::str_eq(it.search.as_str(), q) || crate::strutil::str_eq(
                it.name.as_str(),
                q,
            );
            proof {
                assert(is_ex == is_exact(items_dv[i as int], qv));
            }
            if is_ex {
                let ghost pre = exact.deep_view();
                exact.push(SearchResult { score: EXACT_SCORE, item: it.duplicate() });
                fuzzy.clear();
                proof {
                    assert(exact.deep_view() =~= pre.push(
                        ResultModel { score: EXACT_SCORE, item: items_dv[i as int] },
                    ));
                }
            } else {
                if exact.len() == 0 {
                    let s1 = jaro_winkler_score(it.search.as_str(), q);
                    let s2 = jaro_winkler_score(it.name.as_str(), q);
                    let sc = if s1 >= s2 {
                        s1
                    } else {
                        s2
                    };
                    proof {
                        assert(sc == item_score(items_dv[i as int], qv));
                    }
                    if sc > FUZZY_FLOOR {
                        let ghost pre = fuzzy.deep_view();
                        fuzzy.push(SearchResult { score: sc, item: it.duplicate() });
                        proof {
                            assert(fuzzy.deep_view() =~= pre.push(
                                ResultModel { score: sc, item: items_dv[i as int] },
                            ));
                        }
                    }
                }
            }
            i = i + 1;
        }
        if exact.len() > 0 {
            return exact;
        }
        sort_results_desc(&mut fuzzy);
        if fuzzy.len() > max {
            fuzzy.truncate(max);
            proof {
                assert(fuzzy.deep_view() =~= sort_desc(fuzzy_list(items_dv, qv, items_dv.len() as int)).take(max as int));
            }
        }
        fuzzy
    }
}

/// Every result of the exact list is an exact match with the perfect
/// score, and every exact item among the first `n` appears in it.
proof fn lemma_exact_list_content(items: Seq<ItemModel>, q: Seq<char>, n: int)
    requires
        n <= items.len(),
    ensures
        forall|k: int|
            0 <= k < exact_list(items, q, n).len() ==> (#[trigger] exact_list(items, q, n)[k]).score
                == EXACT_SCORE && is_exact(exact_list(items, q, n)[k].item, q),
        forall|j: int|
            0 <= j < n && is_exact(#[trigger] items[j], q) ==> exact_list(items, q, n).contains(
                ResultModel { score: EXACT_SCORE, item: items[j] },
            ),
        (exists|j: int| 0 <= j < n && is_exact(#[trigger] items[j], q)) ==> exact_list(
            items,
            q,
            n,
        ).len() > 0,
    decreases n,
{
    if n > 0 {
        lemma_exact_list_content(items, q, n - 1);
        let prev = exact_list(items, q, n - 1);
        if is_exact(items[n - 1], q) {
            let cur = prev.push(ResultModel { score: EXACT_SCORE, item: items[n - 1] });
            assert(cur[cur.len() - 1] == (ResultModel { score: EXACT_SCORE, item: items[n - 1] }));
            assert forall|j: int|
                0 <= j < n && is_exact(#[trigger] items[j], q) implies cur.contains(
                ResultModel { score: EXACT_SCORE, item: items[j] },
            ) by {
                if j < n - 1 {
                    let m = ResultModel { score: EXACT_SCORE, item: items[j] };
                    let k = choose|k: int| 0 <= k < prev.len() && prev[k] == m;
                    assert(cur[k] == m);
                } else {
                    assert(cur[cur.len() - 1] == (ResultModel {
                        score: EXACT_SCORE,
                        item: items[j],
                    }));
                }
            }
        } else {
            assert forall|j: int|
                0 <= j < n && is_exact(#[trigger] items[j], q) implies exact_list(
                items,
                q,
                n,
            ).contains(ResultModel { score: EXACT_SCORE, item: items[j] }) by {
                assert(j < n - 1);
            }
        }
    }
}

/// Law: exact matches take precedence, whatever the result limit. When
/// some item's search key or name equals the trimmed query, the search
/// returns exactly the exact-match list: every returned result carries the
/// perfect score and is an exact match, every exact item is returned, and
/// the limit does not truncate it.
pub proof fn lemma_exact_match_precedence(
    items: Seq<ItemModel>,
    q: Seq<char>,
    max: int,
    witness: int,
)
    requires
        0 <= witness < items.len(),
        is_exact(items[witness], q),
    ensures
        search_spec(items, q, max) == exact_list(items, q, items.len() as int),
        forall|k: int|
            0 <= k < search_spec(items, q, max).len() ==> (#[trigger] search_spec(
                items,
                q,
                max,
            )[k]).score == EXACT_SCORE && is_exact(search_spec(items, q, max)[k].item, q),
        forall|j: int|
            0 <= j < items.len() && is_exact(#[trigger] items[j], q) ==> search_spec(
                items,
                q,
                max,
            ).contains(ResultModel { score: EXACT_SCORE, item: items[j] }),
{
    lemma_exact_list_content(items, q, items.len() as int);
}

/// All results of a list score strictly above the fuzzy floor.
pub open spec fn all_above_floor(s: Seq<ResultModel>) -> bool {
    forall|k: int| 0 <= k < s.len() ==> (#[trigger] s[k]).score > FUZZY_FLOOR
}

/// Scores never increase along the list.
pub open spec fn sorted_descending(s: Seq<ResultModel>) -> bool {
    forall|k1: int, k2: int| 0 <= k1 <= k2 < s.len() ==> s[k1].score >= s[k2].score
}

/// Every fuzzy candidate scores strictly above the floor.
proof fn lemma_fuzzy_list_above_floor(items: Seq<ItemModel>, q: Seq<char>, n: int)
    ensures
        all_above_floor(fuzzy_list(items, q, n)),
    decreases n,
{
    if n > 0 {
        lemma_fuzzy_list_above_floor(items, q, n - 1);
    }
}

/// Descending insertion keeps the floor bound and keeps the list sorted.
proof fn lemma_insert_desc_props(s: Seq<ResultModel>, x: ResultModel)
    requires
        sorted_descending(s),
    ensures
        sorted_descending(insert_desc(s, x)),
        all_above_floor(s) && x.score > FUZZY_FLOOR ==> all_above_floor(insert_desc(s, x)),
        insert_desc(s, x).len() == s.len() + 1,
    decreases s.len(),
{
    if s.len() == 0 {
    } else if x.score > s[0].score {
    } else {
        assert(sorted_descending(s.drop_first())) by {
            assert(forall|k1: int, k2: int|
                0 <= k1 <= k2 < s.drop_first().len() ==> s.drop_first()[k1] == s[k1 + 1]
                    && s.drop_first()[k2] == s[k2 + 1]);
        }
        lemma_insert_desc_props(s.drop_first(), x);
        let r = seq![s[0]] + insert_desc(s.drop_first(), x);
        assert(insert_desc(s, x) == r);
        let inner = insert_desc(s.drop_first(), x);
        assert forall|k1: int, k2: int| 0 <= k1 <= k2 < r.len() implies r[k1].score
            >= r[k2].score by {
            if k1 == 0 && k2 > 0 {
                assert(r[k2] == inner[k2 - 1]);
                if inner.len() > 0 {
                    if k2 - 1 == 0 {
                        if s.drop_first().len() > 0 && x.score > s.drop_first()[0].score {
                            assert(inner[0] == x);
                        }
                    }
                    assert(forall|m: int|
                        0 <= m < inner.len() ==> (#[trigger] inner[m]).score <= s[0].score) by {
                        lemma_insert_desc_members(s.drop_first(), x, s[0].score);
                    }
                }
            } else if k1 > 0 {
                assert(r[k1] == inner[k1 - 1] && r[k2] == inner[k2 - 1]);
            }
        }
        if all_above_floor(s) && x.score > FUZZY_FLOOR {
            assert forall|k: int| 0 <= k < r.len() implies (#[trigger] r[k]).score
                > FUZZY_FLOOR by {
                if k > 0 {
                    assert(r[k] == inner[k - 1]);
                    assert(all_above_floor(s.drop_first())) by {
                        assert(forall|m: int|
                            0 <= m < s.drop_first().len() ==> s.drop_first()[m] == #[trigger] s[m
                                + 1]);
                    }
                }
            }
        }
    }
}

/// Every element of a descending insertion scores at most `bound` when
/// the inserted element and the list do.
proof fn lemma_insert_desc_members(s: Seq<ResultModel>, x: ResultModel, bound: u64)
    requires
        x.score <= bound,
        forall|k: int| 0 <= k < s.len() ==> (#[trigger] s[k]).score <= bound,
    ensures
        forall|k: int|
            0 <= k < insert_desc(s, x).len() ==> (#[trigger] insert_desc(s, x)[k]).score <= bound,
    decreases s.len(),
{
    if s.len() == 0 {
    } else if x.score > s[0].score {
    } else {
        assert(forall|k: int|
            0 <= k < s.drop_first().len() ==> (#[trigger] s.drop_first()[k]).score <= bound) by {
            assert(forall|k: int|
                0 <= k < s.drop_first().len() ==> s.drop_first()[k] == #[trigger] s[k + 1]);
        }
        lemma_insert_desc_members(s.drop_first(), x, bound);
        let r = seq![s[0]] + insert_desc(s.drop_first(), x);
        assert(insert_desc(s, x) == r);
        assert(forall|k: int|
            0 < k < r.len() ==> r[k] == #[trigger] insert_desc(s.drop_first(), x)[k - 1]);
    }
}

/// The sorted fuzzy candidates are sorted descending and stay above the
/// floor.
proof fn lemma_sort_desc_props(s: Seq<ResultModel>)
    ensures
        sorted_descending(sort_desc(s)),
        all_above_floor(s) ==> all_above_floor(sort_desc(s)),
        sort_desc(s).len() == s.len(),
    decreases s.len(),
{
    if s.len() > 0 {
        lemma_sort_desc_props(s.drop_last());
        if all_above_floor(s) {
            assert(all_above_floor(s.drop_last())) by {
                assert(forall|k: int|
                    0 <= k < s.drop_last().len() ==> s.drop_last()[k] == #[trigger] s[k]);
            }
        }
        lemma_insert_desc_props(sort_desc(s.drop_last()), s.last());
    }
}

/// Law: the fuzzy bound. When no item matches the trimmed query exactly,
/// every returned result scores strictly above the floor, the list is
/// sorted by descending score, and it holds at most `max` results.
pub proof fn lemma_fuzzy_bound(items: Seq<ItemModel>, q: Seq<char>, max: int)
    requires
        forall|j: int| 0 <= j < items.len() ==> !is_exact(#[trigger] items[j], q),
        max >= 0,
    ensures
        search_spec(items, q, max).len() <= max,
        all_above_floor(search_spec(items, q, max)),
        sorted_descending(search_spec(items, q, max)),
{
    let n = items.len() as int;
    lemma_exact_list_content(items, q, n);
    assert(exact_list(items, q, n).len() == 0) by {
        if exact_list(items, q, n).len() > 0 {
            assert(is_exact(exact_list(items, q, n)[0].item, q));
            lemma_exact_list_empty(items, q, n);
        }
    }
    lemma_fuzzy_list_above_floor(items, q, n);
    lemma_sort_desc_props(fuzzy_list(items, q, n));
    let f = sort_desc(fuzzy_list(items, q, n));
    let r = search_spec(items, q, max);
    if f.len() <= max {
        assert(r == f);
    } else {
        assert(r == f.take(max));
        assert(forall|k: int| 0 <= k < r.len() ==> r[k] == #[trigger] f[k]);
    }
}

/// Law: with no exact match and room for at least one result, the search
/// comes back empty exactly when no item scores strictly above the fuzzy
/// floor. A limit of zero is left out: it empties the result by
/// truncation whatever the items score.
pub proof fn lemma_fuzzy_empty_iff(items: Seq<ItemModel>, q: Seq<char>, max: int)
    requires
        forall|j: int| 0 <= j < items.len() ==> !is_exact(#[trigger] items[j], q),
        max >= 1,
    ensures
        search_spec(items, q, max).len() == 0 <==> fuzzy_list(items, q, items.len() as int).len()
            == 0,
{
    let n = items.len() as int;
    lemma_exact_list_empty(items, q, n);
    lemma_sort_desc_props(fuzzy_list(items, q, n));
}

/// With no exact item among the first `n`, the exact list is empty.
proof fn lemma_exact_list_empty(items: Seq<ItemModel>, q: Seq<char>, n: int)
    requires
        forall|j: int| 0 <= j < items.len() ==> !is_exact(#[trigger] items[j], q),
        n <= items.len(),
    ensures
        exact_list(items, q, n).len() == 0,
    decreases n,
{
    if n > 0 {
        lemma_exact_list_empty(items, q, n - 1);
    }
}

} // verus!
