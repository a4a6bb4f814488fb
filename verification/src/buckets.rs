//! Greedy bucketing: each item joins the first bucket whose first item it is
//! related to, or starts a new bucket. Grouping by category and clustering by
//! similarity are both this process.
use vstd::prelude::*;
use vstd::multiset::Multiset;

verus! {

broadcast use vstd::seq_lib::group_to_multiset_ensures;

/// `k` is the first bucket whose first item is related to `x`.
pub open spec fn is_first_match<A>(bs: Seq<Seq<A>>, x: A, rel: spec_fn(A, A) -> bool, k: int) -> bool {
    &&& 0 <= k < bs.len()
    &&& bs[k].len() > 0
    &&& rel(bs[k][0], x)
    &&& forall|j: int| 0 <= j < k ==> !(#[trigger] rel(bs[j][0], x))
}

/// The first bucket whose first item is related to `x`, or `bs.len()` when
/// there is none.
pub open spec fn first_bucket<A>(bs: Seq<Seq<A>>, x: A, rel: spec_fn(A, A) -> bool) -> int {
    if exists|k: int| is_first_match(bs, x, rel, k) {
        choose|k: int| is_first_match(bs, x, rel, k)
    } else {
        bs.len() as int
    }
}

/// `x` added to its bucket: the first related one, or a new one at the end.
pub open spec fn add_to_buckets<A>(bs: Seq<Seq<A>>, x: A, rel: spec_fn(A, A) -> bool) -> Seq<Seq<A>> {
    let k = first_bucket(bs, x, rel);
    if k < bs.len() {
        bs.update(k, bs[k].push(x))
    } else {
        bs.push(seq![x])
    }
}

/// The buckets of the items of `s`, taken in order.
pub open spec fn buckets<A>(s: Seq<A>, rel: spec_fn(A, A) -> bool) -> Seq<Seq<A>>
    decreases s.len(),
{
    if s.len() == 0 {
        Seq::empty()
    } else {
        add_to_buckets(buckets(s.drop_last(), rel), s.last(), rel)
    }
}

/// Every bucket has an item, and every item but the first of a bucket is
/// related to the first.
pub open spec fn well_formed_buckets<A>(bs: Seq<Seq<A>>, rel: spec_fn(A, A) -> bool) -> bool {
    forall|k: int| 0 <= k < bs.len() ==> {
        &&& (#[trigger] bs[k]).len() > 0
        &&& forall|j: int| 1 <= j < bs[k].len() ==> rel(bs[k][0], #[trigger] bs[k][j])
    }
}

/// The first match, when one is known, is what `first_bucket` picks.
pub proof fn lemma_first_bucket_is<A>(bs: Seq<Seq<A>>, x: A, rel: spec_fn(A, A) -> bool, k: int)
    requires
        is_first_match(bs, x, rel, k),
    ensures
        first_bucket(bs, x, rel) == k,
{
    let c = choose|c: int| is_first_match(bs, x, rel, c);
    assert(is_first_match(bs, x, rel, c));
    if c < k {
        assert(!rel(bs[c][0], x));
    } else if c > k {
        assert(!rel(bs[k][0], x));
    }
}

/// With no related bucket, `first_bucket` is the end.
pub proof fn lemma_first_bucket_none<A>(bs: Seq<Seq<A>>, x: A, rel: spec_fn(A, A) -> bool)
    requires
        forall|j: int| 0 <= j < bs.len() ==> !(#[trigger] rel(bs[j][0], x)),
    ensures
        first_bucket(bs, x, rel) == bs.len(),
{
    assert(!exists|k: int| is_first_match(bs, x, rel, k));
}

/// `first_bucket` is a bucket index or the end, and it picks a related
/// bucket.
pub proof fn lemma_first_bucket_range<A>(bs: Seq<Seq<A>>, x: A, rel: spec_fn(A, A) -> bool)
    ensures
        0 <= first_bucket(bs, x, rel) <= bs.len(),
        first_bucket(bs, x, rel) < bs.len() ==> is_first_match(bs, x, rel, first_bucket(bs, x, rel)),
{
}

/// Bucketing keeps buckets non-empty and related to their first items.
pub proof fn lemma_buckets_well_formed<A>(s: Seq<A>, rel: spec_fn(A, A) -> bool)
    ensures
        well_formed_buckets(buckets(s, rel), rel),
    decreases s.len(),
{
    if s.len() > 0 {
        lemma_buckets_well_formed(s.drop_last(), rel);
        let bs = buckets(s.drop_last(), rel);
        let x = s.last();
        lemma_first_bucket_range(bs, x, rel);
        let k = first_bucket(bs, x, rel);
        let r = add_to_buckets(bs, x, rel);
        assert forall|i: int| 0 <= i < r.len() implies {
            &&& (#[trigger] r[i]).len() > 0
            &&& forall|j: int| 1 <= j < r[i].len() ==> rel(r[i][0], #[trigger] r[i][j])
        } by {
            if i < bs.len() {
                assert(bs[i].len() > 0);
            }
            if i == k && k < bs.len() {
                assert forall|j: int| 1 <= j < r[i].len() implies rel(r[i][0], #[trigger] r[i][j]) by {
                    if j < bs[k].len() {
                        assert(r[i][j] == bs[k][j]);
                    }
                }
            }
        }
    }
}

/// There are never more buckets than items.
pub proof fn lemma_buckets_len<A>(s: Seq<A>, rel: spec_fn(A, A) -> bool)
    ensures
        buckets(s, rel).len() <= s.len(),
    decreases s.len(),
{
    if s.len() > 0 {
        lemma_buckets_len(s.drop_last(), rel);
        lemma_first_bucket_range(buckets(s.drop_last(), rel), s.last(), rel);
    }
}

/// Replacing one piece of a sequence of pieces replaces its items in the
/// flattened whole.
pub proof fn lemma_flatten_update_multiset<A>(bs: Seq<Seq<A>>, k: int, b: Seq<A>)
    requires
        0 <= k < bs.len(),
    ensures
        bs.update(k, b).flatten().to_multiset() == bs.flatten().to_multiset().sub(
            bs[k].to_multiset(),
        ).add(b.to_multiset()),
        bs[k].to_multiset().subset_of(bs.flatten().to_multiset()),
{
    let pre = bs.take(k);
    let post = bs.skip(k + 1);
    assert(bs =~= pre + seq![bs[k]] + post);
    assert(bs.update(k, b) =~= pre + seq![b] + post);
    vstd::seq_lib::lemma_flatten_concat(pre + seq![bs[k]], post);
    vstd::seq_lib::lemma_flatten_concat(pre, seq![bs[k]]);
    vstd::seq_lib::lemma_flatten_concat(pre + seq![b], post);
    vstd::seq_lib::lemma_flatten_concat(pre, seq![b]);
    seq![bs[k]].lemma_flatten_one_element();
    seq![b].lemma_flatten_one_element();
    vstd::seq_lib::lemma_multiset_commutative(pre.flatten(), bs[k]);
    vstd::seq_lib::lemma_multiset_commutative(pre.flatten() + bs[k], post.flatten());
    vstd::seq_lib::lemma_multiset_commutative(pre.flatten(), b);
    vstd::seq_lib::lemma_multiset_commutative(pre.flatten() + b, post.flatten());
    let mp = pre.flatten().to_multiset();
    let mq = post.flatten().to_multiset();
    let mk = bs[k].to_multiset();
    let mb = b.to_multiset();
    assert(mp.add(mk).add(mq).sub(mk) =~= mp.add(mq));
    assert(mp.add(mb).add(mq) =~= mp.add(mq).add(mb));
}

/// Bucketing neither loses nor invents items.
pub proof fn lemma_buckets_multiset<A>(s: Seq<A>, rel: spec_fn(A, A) -> bool)
    ensures
        buckets(s, rel).flatten().to_multiset() == s.to_multiset(),
    decreases s.len(),
{
    if s.len() > 0 {
        let bs = buckets(s.drop_last(), rel);
        let x = s.last();
        lemma_buckets_multiset(s.drop_last(), rel);
        lemma_first_bucket_range(bs, x, rel);
        let k = first_bucket(bs, x, rel);
        assert(s =~= s.drop_last().push(x));
        if k < bs.len() {
            lemma_flatten_update_multiset(bs, k, bs[k].push(x));
            let m = bs.flatten().to_multiset();
            assert(m.sub(bs[k].to_multiset()).add(bs[k].to_multiset().insert(x)) =~= m.insert(x));
        } else {
            bs.lemma_flatten_push(seq![x]);
            vstd::seq_lib::lemma_multiset_commutative(bs.flatten(), seq![x]);
            assert(seq![x].to_multiset() =~= Multiset::empty().insert(x)) by {
                assert(seq![x] =~= Seq::<A>::empty().push(x));
            }
            assert(bs.flatten().to_multiset().add(Multiset::empty().insert(x)) =~= bs.flatten().to_multiset().insert(x));
        }
    }
}

/// Non-empty pieces are no more numerous than their items.
pub proof fn lemma_nonempty_pieces_len<A>(bs: Seq<Seq<A>>)
    requires
        forall|k: int| 0 <= k < bs.len() ==> (#[trigger] bs[k]).len() > 0,
    ensures
        bs.len() <= bs.flatten().len(),
    decreases bs.len(),
{
    if bs.len() > 0 {
        assert(bs.drop_first().len() == bs.len() - 1);
        assert forall|k: int| 0 <= k < bs.drop_first().len() implies (#[trigger] bs.drop_first()[k]).len() > 0 by {
            assert(bs.drop_first()[k] == bs[k + 1]);
        }
        lemma_nonempty_pieces_len(bs.drop_first());
    }
}

} // verus!
