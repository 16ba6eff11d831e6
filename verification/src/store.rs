//! In-memory feed store and its query operations: bulk insert with
//! assigned identifiers, lookup by identifier, full listing ordered by
//! publication (most recent first, unpublished items last), and
//! case-insensitive free-text search over title and description.

use vstd::prelude::*;

use crate::dates::{lower_char, lower_char_exec};
use crate::model::{
    item_views, rec_views, str_views, ItemView, NormalizedFeedRecord, RecordView, StoredFeedItem,
};
use crate::text::{chars_of, contains_pat, occurs};

verus! {

/// Keep at most the first `n` elements.
pub open spec fn take_at_most(s: Seq<ItemView>, n: int) -> Seq<ItemView> {
    if s.len() <= n {
        s
    } else {
        s.take(n)
    }
}

/// Stored views of a record sequence, with identifiers assigned
/// consecutively from `base` in order.
pub open spec fn stored_views(rs: Seq<RecordView>, base: int) -> Seq<ItemView> {
    Seq::new(rs.len(), |i: int| ItemView { id: base + i, record: rs[i] })
}

/// The items whose identifier equals `id`, in store order.
pub open spec fn by_id_spec(items: Seq<ItemView>, id: int) -> Seq<ItemView>
    decreases items.len(),
{
    if items.len() == 0 {
        Seq::empty()
    } else {
        by_id_spec(items.drop_last(), id) + if items.last().id == id {
            seq![items.last()]
        } else {
            Seq::empty()
        }
    }
}

/// The links present among the stored items, in store order.
pub open spec fn links_seq(items: Seq<ItemView>) -> Seq<Seq<char>>
    decreases items.len(),
{
    if items.len() == 0 {
        Seq::empty()
    } else {
        links_seq(items.drop_last()) + match items.last().record.link {
            Some(l) => seq![l],
            None => Seq::empty(),
        }
    }
}

/// ASCII-lowercased copy of a character sequence.
pub open spec fn lower_seq(s: Seq<char>) -> Seq<char> {
    s.map_values(|c: char| lower_char(c))
}

/// The item matches the query: the lowercased query is a substring of
/// the lowercased title, or of the lowercased description when one is
/// present.
pub open spec fn matches_query(v: ItemView, q: Seq<char>) -> bool {
    ||| occurs(lower_seq(v.record.title), lower_seq(q))
    ||| match v.record.description {
        Some(d) => occurs(lower_seq(d), lower_seq(q)),
        None => false,
    }
}

/// The matching items, most recently stored first (identifier
/// descending, since the store keeps items in identifier order).
pub open spec fn search_spec(items: Seq<ItemView>, q: Seq<char>) -> Seq<ItemView>
    decreases items.len(),
{
    if items.len() == 0 {
        Seq::empty()
    } else {
        (if matches_query(items.last(), q) {
            seq![items.last()]
        } else {
            Seq::empty()
        }) + search_spec(items.drop_last(), q)
    }
}

/// Every search result is one of the searched items.
pub proof fn lemma_search_element_source(items: Seq<ItemView>, q: Seq<char>, j: int)
    requires
        0 <= j < search_spec(items, q).len(),
    ensures
        exists|i: int| 0 <= i < items.len() && items[i] == search_spec(items, q)[j],
    decreases items.len(),
{
    let out = search_spec(items, q);
    if matches_query(items.last(), q) {
        if j == 0 {
            assert(items[items.len() - 1] == out[0]);
        } else {
            lemma_search_element_source(items.drop_last(), q, j - 1);
            let i = choose|i: int|
                0 <= i < items.drop_last().len() && items.drop_last()[i] == search_spec(
                    items.drop_last(),
                    q,
                )[j - 1];
            assert(items[i] == out[j]);
        }
    } else {
        lemma_search_element_source(items.drop_last(), q, j);
        let i = choose|i: int|
            0 <= i < items.drop_last().len() && items.drop_last()[i] == search_spec(
                items.drop_last(),
                q,
            )[j];
        assert(items[i] == out[j]);
    }
}

/// On items with strictly increasing identifiers — as the store keeps
/// them — search results come out with strictly decreasing identifiers:
/// most recently stored first.
pub proof fn lemma_search_ordered_by_id(items: Seq<ItemView>, q: Seq<char>, j1: int, j2: int)
    requires
        forall|a: int, b: int|
            0 <= a < b < items.len() ==> (#[trigger] items[a]).id < (#[trigger] items[b]).id,
        0 <= j1 < j2 < search_spec(items, q).len(),
    ensures
        search_spec(items, q)[j1].id > search_spec(items, q)[j2].id,
    decreases items.len(),
{
    let out = search_spec(items, q);
    let rest = search_spec(items.drop_last(), q);
    assert(forall|a: int, b: int|
        0 <= a < b < items.drop_last().len() ==> (#[trigger] items.drop_last()[a]).id < (
        #[trigger] items.drop_last()[b]).id);
    if matches_query(items.last(), q) {
        if j1 == 0 {
            assert(out[0] == items[items.len() - 1]);
            lemma_search_element_source(items.drop_last(), q, j2 - 1);
            let i = choose|i: int|
                0 <= i < items.drop_last().len() && items.drop_last()[i] == search_spec(
                    items.drop_last(),
                    q,
                )[j2 - 1];
            assert(out[j2] == rest[j2 - 1]);
            assert(items[i].id < items[items.len() - 1].id);
        } else {
            lemma_search_ordered_by_id(items.drop_last(), q, j1 - 1, j2 - 1);
            assert(out[j1] == rest[j1 - 1]);
            assert(out[j2] == rest[j2 - 1]);
        }
    } else {
        lemma_search_ordered_by_id(items.drop_last(), q, j1, j2);
    }
}

/// Display order: `a` sorts no later than `b` when `a` is published no
/// earlier than `b`; unpublished items sort after all published ones.
pub open spec fn key_ge(a: ItemView, b: ItemView) -> bool {
    match (a.record.published, b.record.published) {
        (Some(x), Some(y)) => x.instant() >= y.instant(),
        (Some(_), None) => true,
        (None, None) => true,
        (None, Some(_)) => false,
    }
}

/// Sorted for display: published descending, unpublished last.
pub open spec fn sorted_desc(s: Seq<ItemView>) -> bool {
    forall|j1: int, j2: int| 0 <= j1 < j2 < s.len() ==> key_ge(#[trigger] s[j1], #[trigger] s[j2])
}

/// In-memory feed store: items in insertion order with strictly
/// increasing identifiers below `next_id`, every timestamp well formed.
pub struct FeedStore {
    pub items: Vec<StoredFeedItem>,
    pub next_id: u64,
}

impl FeedStore {
    /// Store invariant.
    pub open spec fn wf(self) -> bool {
        &&& forall|i: int|
            0 <= i < self.items@.len() ==> (#[trigger] self.items@[i])@.id < self.next_id as int
        &&& forall|i: int, j: int|
            0 <= i < j < self.items@.len() ==> (#[trigger] self.items@[i])@.id < (
            #[trigger] self.items@[j])@.id
        &&& forall|i: int| 0 <= i < self.items@.len() ==> (#[trigger] self.items@[i])@.record.wf()
    }

    /// Empty store.
    pub fn new() -> (r: FeedStore)
        ensures
            r.wf(),
            r.items@.len() == 0,
            r.next_id == 0,
    {
        FeedStore { items: Vec::new(), next_id: 0 }
    }

    /// Persist the records as one bulk write, assigning consecutive
    /// identifiers in input order.
    pub fn insert_many(&mut self, records: Vec<NormalizedFeedRecord>)
        requires
            old(self).wf(),
            forall|i: int| 0 <= i < records@.len() ==> (#[trigger] records@[i])@.wf(),
            old(self).next_id + records@.len() <= u64::MAX,
        ensures
            final(self).wf(),
            item_views(final(self).items@) == item_views(old(self).items@) + stored_views(
                rec_views(records@),
                old(self).next_id as int,
            ),
            final(self).next_id as int == old(self).next_id + records@.len(),
    {
        let ghost orig = item_views(old(self).items@);
        let ghost base = old(self).next_id as int;
        let ghost rviews = rec_views(records@);
        let mut rest = records;
        proof {
            assert(rec_views(rest@) =~= rviews.skip(0));
            assert(item_views(self.items@) =~= orig + stored_views(rviews.take(0), base));
        }
        while rest.len() > 0
            invariant
                self.wf(),
                base + rviews.len() <= u64::MAX,
                base <= self.next_id as int <= base + rviews.len(),
                rec_views(rest@) == rviews.skip(self.next_id as int - base),
                rest@.len() == rviews.len() - (self.next_id as int - base),
                forall|i: int| 0 <= i < rest@.len() ==> (#[trigger] rest@[i])@.wf(),
                item_views(self.items@) == orig + stored_views(
                    rviews.take(self.next_id as int - base),
                    base,
                ),
            decreases rest@.len(),
        {
            let ghost done = self.next_id as int - base;
            let ghost pre = rec_views(rest@);
            let ghost prev = rest@;
            let r = rest.remove(0);
            proof {
                assert(pre[0] == r@);
                assert(rviews[done] == r@);
                assert(pre.drop_first() =~= rec_views(rest@));
                assert(rviews.skip(done).drop_first() =~= rviews.skip(done + 1));
                assert forall|i: int| 0 <= i < rest@.len() implies (#[trigger] rest@[i])@.wf() by {
                    assert(rest@[i] == prev[i + 1]);
                }
            }
            let ghost prev_items = self.items@;
            let item = StoredFeedItem { id: self.next_id, record: r };
            self.items.push(item);
            self.next_id = self.next_id + 1;
            proof {
                assert(self.items@.drop_last() =~= prev_items);
                assert(item_views(self.items@) =~= item_views(prev_items) + seq![
                    ItemView { id: base + done, record: rviews[done] },
                ]);
                assert(stored_views(rviews.take(done + 1), base) =~= stored_views(
                    rviews.take(done),
                    base,
                ) + seq![ItemView { id: base + done, record: rviews[done] }]);
                assert(item_views(self.items@) =~= orig + stored_views(
                    rviews.take(done + 1),
                    base,
                ));
            }
        }
        proof {
            assert(rviews.take(self.next_id as int - base) =~= rviews);
        }
    }

    /// The links of all stored items, in store order.
    pub fn links(&self) -> (r: Vec<String>)
        ensures
            str_views(r@) == links_seq(item_views(self.items@)),
    {
        let mut out: Vec<String> = Vec::new();
        let mut i: usize = 0;
        proof {
            assert(item_views(self.items@.take(0)) =~= Seq::<ItemView>::empty());
            assert(str_views(out@) =~= links_seq(item_views(self.items@.take(0))));
        }
        while i < self.items.len()
            invariant
                i <= self.items@.len(),
                str_views(out@) == links_seq(item_views(self.items@.take(i as int))),
            decreases self.items@.len() - i,
        {
            let ghost pre = item_views(self.items@.take(i as int));
            let ghost cur = item_views(self.items@.take(i + 1 as int));
            proof {
                assert(cur.drop_last() =~= pre);
                assert(cur.last() == self.items@[i as int]@);
            }
            match &self.items[i].record.link {
                Some(l) => {
                    out.push(l.clone());
                    proof {
                        assert(str_views(out@) =~= str_views(out@.drop_last()) + seq![
                            self.items@[i as int]@.record.link->0,
                        ]);
                        assert(str_views(out@) =~= links_seq(cur));
                    }
                },
                None => {
                    proof {
                        assert(links_seq(cur) =~= links_seq(pre));
                    }
                },
            }
            i = i + 1;
        }
        proof {
            assert(self.items@.take(self.items@.len() as int) =~= self.items@);
        }
        out
    }

    /// The stored items with the given identifier, in store order, at
    /// most `limit` of them.
    pub fn select_by_id(&self, id: u64, limit: usize) -> (r: Vec<StoredFeedItem>)
        ensures
            item_views(r@) == take_at_most(by_id_spec(item_views(self.items@), id as int), limit as int),
    {
        let mut out: Vec<StoredFeedItem> = Vec::new();
        let mut i: usize = 0;
        proof {
            assert(item_views(self.items@.take(0)) =~= Seq::<ItemView>::empty());
            assert(item_views(out@) =~= take_at_most(
                by_id_spec(item_views(self.items@.take(0)), id as int),
                limit as int,
            ));
        }
        while i < self.items.len()
            invariant
                i <= self.items@.len(),
                out@.len() <= limit,
                item_views(out@) == take_at_most(
                    by_id_spec(item_views(self.items@.take(i as int)), id as int),
                    limit as int,
                ),
            decreases self.items@.len() - i,
        {
            let ghost pre = by_id_spec(item_views(self.items@.take(i as int)), id as int);
            let ghost cur = by_id_spec(item_views(self.items@.take(i + 1 as int)), id as int);
            proof {
                assert(item_views(self.items@.take(i + 1 as int)).drop_last() =~= item_views(
                    self.items@.take(i as int),
                ));
                assert(item_views(self.items@.take(i + 1 as int)).last() == self.items@[i as int]@);
            }
            if self.items[i].id == id && out.len() < limit {
                proof {
                    assert(cur =~= pre + seq![self.items@[i as int]@]);
                    assert(item_views(out@) =~= pre);
                }
                out.push(self.items[i].duplicate());
                proof {
                    assert(item_views(out@) =~= item_views(out@.drop_last()) + seq![
                        self.items@[i as int]@,
                    ]);
                    assert(item_views(out@) =~= take_at_most(cur, limit as int));
                }
            } else {
                proof {
                    if self.items@[i as int]@.id == id as int {
                        assert(cur =~= pre + seq![self.items@[i as int]@]);
                        assert(out@.len() == limit);
                        assert(pre.len() >= limit);
                        assert(take_at_most(cur, limit as int) =~= pre.take(limit as int));
                        assert(take_at_most(pre, limit as int) =~= pre.take(limit as int));
                    } else {
                        assert(cur =~= pre);
                    }
                }
            }
            i = i + 1;
        }
        proof {
            assert(self.items@.take(self.items@.len() as int) =~= self.items@);
        }
        out
    }

    /// The stored items matching the query, case-insensitively, against
    /// title or description, most recently stored first, at most `limit`
    /// of them.
    pub fn search(&self, query: &str, limit: usize) -> (r: Vec<StoredFeedItem>)
        ensures
            item_views(r@) == take_at_most(
                search_spec(item_views(self.items@), query@),
                limit as int,
            ),
    {
        let lq = to_lower_vec(&chars_of(query));
        let mut out: Vec<StoredFeedItem> = Vec::new();
        let mut i: usize = self.items.len();
        proof {
            assert(self.items@.take(i as int) =~= self.items@);
        }
        while i > 0 && out.len() < limit
            invariant
                i <= self.items@.len(),
                lq@ == lower_seq(query@),
                out@.len() <= limit,
                search_spec(item_views(self.items@), query@) == item_views(out@) + search_spec(
                    item_views(self.items@.take(i as int)),
                    query@,
                ),
            decreases i,
        {
            i = i - 1;
            let ghost pre = item_views(self.items@.take(i + 1 as int));
            proof {
                assert(pre.drop_last() =~= item_views(self.items@.take(i as int)));
                assert(pre.last() == self.items@[i as int]@);
            }
            if item_matches(&self.items[i], &lq) {
                out.push(self.items[i].duplicate());
                proof {
                    assert(item_views(out@) =~= item_views(out@.drop_last()) + seq![
                        self.items@[i as int]@,
                    ]);
                    assert((item_views(out@.drop_last()) + seq![self.items@[i as int]@])
                        + search_spec(item_views(self.items@.take(i as int)), query@)
                        =~= item_views(out@.drop_last()) + (seq![self.items@[i as int]@]
                        + search_spec(item_views(self.items@.take(i as int)), query@)));
                }
            }
        }
        proof {
            let full = search_spec(item_views(self.items@), query@);
            if i == 0 {
                assert(item_views(self.items@.take(0)) =~= Seq::<ItemView>::empty());
                assert(item_views(out@) =~= full);
                assert(item_views(out@) =~= take_at_most(full, limit as int));
            } else {
                assert(out@.len() == limit);
                assert(full.take(out@.len() as int) =~= item_views(out@));
                assert(item_views(out@) =~= take_at_most(full, limit as int));
            }
        }
        out
    }

    /// All stored items for display: published descending, unpublished
    /// items last, at most `limit` of them; every returned item is a
    /// stored one, and under a large enough limit every stored item is
    /// returned.
    pub fn select_all(&self, limit: usize) -> (r: Vec<StoredFeedItem>)
        requires
            self.wf(),
        ensures
            r@.len() == if self.items@.len() <= limit {
                self.items@.len()
            } else {
                limit as nat
            },
            sorted_desc(item_views(r@)),
            forall|j: int|
                0 <= j < r@.len() ==> item_views(self.items@).contains(
                    #[trigger] item_views(r@)[j],
                ),
            limit >= self.items@.len() ==> forall|v: ItemView|
                item_views(self.items@).contains(v) ==> item_views(r@).contains(v),
            forall|j: int, v: ItemView|
                #![trigger item_views(r@)[j], item_views(self.items@).contains(v)]
                0 <= j < r@.len() && item_views(self.items@).contains(v) && !item_views(
                    r@,
                ).contains(v) ==> key_ge(item_views(r@)[j], v),
    {
        let ghost full = item_views(self.items@);
        let mut pool: Vec<StoredFeedItem> = Vec::new();
        let mut i: usize = 0;
        proof {
            assert(item_views(pool@) =~= item_views(self.items@.take(0)));
        }
        while i < self.items.len()
            invariant
                i <= self.items@.len(),
                item_views(pool@) == item_views(self.items@.take(i as int)),
            decreases self.items@.len() - i,
        {
            pool.push(self.items[i].duplicate());
            proof {
                assert(item_views(pool@) =~= item_views(pool@.drop_last()) + seq![
                    self.items@[i as int]@,
                ]);
                assert(item_views(self.items@.take(i + 1 as int)) =~= item_views(
                    self.items@.take(i as int),
                ) + seq![self.items@[i as int]@]);
            }
            i = i + 1;
        }
        proof {
            assert(self.items@.take(self.items@.len() as int) =~= self.items@);
            assert(item_views(pool@) =~= full);
            assert(forall|j: int|
                0 <= j < full.len() ==> (#[trigger] full[j]) == self.items@[j]@);
            assert forall|j: int|
                0 <= j < pool@.len() implies (#[trigger] pool@[j])@.record.wf() && full.contains(
                pool@[j]@,
            ) by {
                assert(pool@[j]@ == item_views(pool@)[j]);
                assert(full[j] == self.items@[j]@);
                assert(self.items@[j]@.record.wf());
                assert(full.contains(full[j]));
            }
            assert forall|v: ItemView| full.contains(v) implies item_views(pool@).contains(
                v,
            ) by {
                let t = choose|t: int| 0 <= t < full.len() && full[t] == v;
                assert(item_views(pool@)[t] == v);
            }
        }
        let mut out: Vec<StoredFeedItem> = Vec::new();
        while out.len() < limit && pool.len() > 0
            invariant
                out@.len() <= limit,
                out@.len() + pool@.len() == full.len(),
                sorted_desc(item_views(out@)),
                forall|a: int, b: int|
                    0 <= a < out@.len() && 0 <= b < pool@.len() ==> key_ge(
                        #[trigger] item_views(out@)[a],
                        #[trigger] item_views(pool@)[b],
                    ),
                forall|j: int| 0 <= j < pool@.len() ==> (#[trigger] pool@[j])@.record.wf(),
                forall|j: int| 0 <= j < pool@.len() ==> full.contains((#[trigger] pool@[j])@),
                forall|j: int| 0 <= j < out@.len() ==> full.contains((#[trigger] out@[j])@),
                forall|v: ItemView|
                    full.contains(v) ==> item_views(out@).contains(v) || item_views(
                        pool@,
                    ).contains(v),
            decreases pool@.len(),
        {
            let ghost pre_out_vec = out@;
            let ghost pre_pool_vec = pool@;
            let ghost pre_out = item_views(out@);
            let ghost pre_pool = item_views(pool@);
            let mut best: usize = 0;
            let mut k: usize = 1;
            while k < pool.len()
                invariant
                    pool@ == pre_pool_vec,
                    pool@.len() > 0,
                    k <= pool@.len(),
                    best < pool@.len(),
                    forall|j: int| 0 <= j < pool@.len() ==> (#[trigger] pool@[j])@.record.wf(),
                    forall|t: int|
                        0 <= t < k ==> key_ge(pool@[best as int]@, (#[trigger] pool@[t])@),
                decreases pool@.len() - k,
            {
                if cmp_ge(&pool[k], &pool[best]) {
                    let ghost ob = best;
                    best = k;
                    proof {
                        assert(forall|t: int|
                            0 <= t < k ==> key_ge(pool@[ob as int]@, (#[trigger] pool@[t])@));
                        assert(key_ge(pool@[best as int]@, pool@[ob as int]@));
                    }
                }
                k = k + 1;
            }
            proof {
                assert(forall|t: int|
                    0 <= t < pre_pool.len() ==> #[trigger] pre_pool[t] == pre_pool_vec[t]@);
                assert(forall|t: int|
                    0 <= t < pre_pool.len() ==> key_ge(pre_pool[best as int], #[trigger] pre_pool[t]));
            }
            let x = pool.remove(best);
            out.push(x);
            proof {
                assert(x@ == pre_pool[best as int]);
                assert(out@.drop_last() =~= pre_out_vec);
                assert(item_views(out@) =~= pre_out + seq![x@]);
                assert forall|j: int|
                    0 <= j < pool@.len() implies (#[trigger] pool@[j])@ == (if j < best as int {
                    pre_pool[j]
                } else {
                    pre_pool[j + 1]
                }) by {
                    if j < best as int {
                        assert(pool@[j] == pre_pool_vec[j]);
                    } else {
                        assert(pool@[j] == pre_pool_vec[j + 1]);
                    }
                }
                assert(item_views(pool@) =~= pool@.map_values(|r: StoredFeedItem| r@));
                assert forall|j1: int, j2: int|
                    0 <= j1 < j2 < item_views(out@).len() implies key_ge(
                    item_views(out@)[j1],
                    item_views(out@)[j2],
                ) by {
                    assert(item_views(out@)[j1] == pre_out[j1]);
                    if j2 == item_views(out@).len() - 1 {
                        assert(item_views(out@)[j2] == x@);
                        assert(key_ge(pre_out[j1], pre_pool[best as int]));
                    } else {
                        assert(item_views(out@)[j2] == pre_out[j2]);
                    }
                }
                assert forall|a: int, b: int|
                    0 <= a < out@.len() && 0 <= b < pool@.len() implies key_ge(
                    item_views(out@)[a],
                    item_views(pool@)[b],
                ) by {
                    let pb = if b < best as int {
                        pre_pool[b]
                    } else {
                        pre_pool[b + 1]
                    };
                    assert(item_views(pool@)[b] == pool@[b]@);
                    assert(pool@[b]@ == pb);
                    if a == out@.len() - 1 {
                        assert(item_views(out@)[a] == x@);
                        assert(key_ge(pre_pool[best as int], pb));
                    } else {
                        assert(item_views(out@)[a] == pre_out[a]);
                        if b < best as int {
                            assert(key_ge(pre_out[a], pre_pool[b]));
                        } else {
                            assert(key_ge(pre_out[a], pre_pool[b + 1]));
                        }
                    }
                }
                assert forall|v: ItemView|
                    full.contains(v) implies item_views(out@).contains(v) || item_views(
                    pool@,
                ).contains(v) by {
                    if pre_out.contains(v) {
                        let t = choose|t: int| 0 <= t < pre_out.len() && pre_out[t] == v;
                        assert(item_views(out@)[t] == v);
                    } else if pre_pool.contains(v) {
                        let t = choose|t: int| 0 <= t < pre_pool.len() && pre_pool[t] == v;
                        if t == best as int {
                            assert(item_views(out@)[out@.len() - 1] == v);
                        } else if t < best as int {
                            assert(item_views(pool@)[t] == v);
                        } else {
                            assert(item_views(pool@)[t - 1] == v);
                        }
                    }
                }
            }
        }
        proof {
            assert(forall|j: int|
                0 <= j < item_views(out@).len() ==> #[trigger] item_views(out@)[j] == out@[j]@);
            if pool@.len() == 0 {
                assert(forall|v: ItemView| full.contains(v) ==> item_views(out@).contains(v));
            } else {
                assert(out@.len() == limit);
            }
            assert forall|j: int, v: ItemView|
                0 <= j < out@.len() && full.contains(v) && !item_views(out@).contains(
                    v,
                ) implies key_ge(item_views(out@)[j], v) by {
                assert(item_views(pool@).contains(v));
                let b = choose|b: int|
                    0 <= b < item_views(pool@).len() && item_views(pool@)[b] == v;
                assert(key_ge(item_views(out@)[j], item_views(pool@)[b]));
            }
        }
        out
    }
}

/// ASCII-lowercased copy of the characters.
pub fn to_lower_vec(v: &Vec<char>) -> (r: Vec<char>)
    ensures
        r@ == lower_seq(v@),
{
    let mut out: Vec<char> = Vec::new();
    let mut i: usize = 0;
    proof {
        assert(out@ =~= lower_seq(v@.take(0)));
    }
    while i < v.len()
        invariant
            i <= v@.len(),
            out@ == lower_seq(v@.take(i as int)),
        decreases v@.len() - i,
    {
        out.push(lower_char_exec(v[i]));
        proof {
            assert(out@ =~= lower_seq(v@.take(i + 1 as int)));
        }
        i = i + 1;
    }
    proof {
        assert(v@.take(v@.len() as int) =~= v@);
    }
    out
}

/// Does the item match the already-lowercased query?
fn item_matches(it: &StoredFeedItem, lq: &Vec<char>) -> (r: bool)
    ensures
        r == ({
            ||| occurs(lower_seq(it@.record.title), lq@)
            ||| match it@.record.description {
                Some(d) => occurs(lower_seq(d), lq@),
                None => false,
            }
        }),
{
    let t = to_lower_vec(&chars_of(it.record.title.as_str()));
    if contains_pat(&t, lq) {
        return true;
    }
    match &it.record.description {
        Some(d) => {
            let dd = to_lower_vec(&chars_of(d.as_str()));
            contains_pat(&dd, lq)
        },
        None => false,
    }
}

/// Display-order comparison of two stored items.
fn cmp_ge(a: &StoredFeedItem, b: &StoredFeedItem) -> (r: bool)
    requires
        a@.record.wf(),
        b@.record.wf(),
    ensures
        r == key_ge(a@, b@),
{
    match (&a.record.published, &b.record.published) {
        (Some(x), Some(y)) => x.epoch_seconds() >= y.epoch_seconds(),
        (Some(_), None) => true,
        (None, None) => true,
        (None, Some(_)) => false,
    }
}

} // verus!
