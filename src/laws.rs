use vstd::prelude::*;
use vstd::multiset::Multiset;
use crate::chain::{bag_of, bags_nonempty, chain_of, key_before, merge_all, merged, ChainModel, KeyModel};
use crate::generate::is_walk;

verus! {

/// The multiset of successors recorded for `k` in `c`.
pub open spec fn bag_ms(c: ChainModel, k: KeyModel) -> Multiset<Seq<char>> {
    bag_of(c, k).to_multiset()
}

/// Merging an empty chain into a chain, or a chain into an empty one,
/// leaves it as it was.
pub proof fn lemma_merge_empty(c: ChainModel)
    ensures
        merged(c, Map::empty()) == c,
        merged(Map::empty(), c) == c,
{
    assert forall|k: KeyModel| c.contains_key(k) implies bag_of(c, k) + bag_of(Map::empty(), k) == c[k]
        && bag_of(Map::empty(), k) + bag_of(c, k) == c[k] by {
        assert(bag_of(c, k) + bag_of(Map::empty(), k) =~= c[k]);
        assert(bag_of(Map::empty(), k) + bag_of(c, k) =~= c[k]);
    }
    assert(merged(c, Map::empty()) =~= c);
    assert(merged(Map::empty(), c) =~= c);
}

/// After a merge, each key's successors are those of both chains together,
/// a missing key counting as an empty bag.
pub proof fn lemma_merge_bags(a: ChainModel, b: ChainModel, k: KeyModel)
    ensures
        merged(a, b).contains_key(k) <==> a.contains_key(k) || b.contains_key(k),
        bag_ms(merged(a, b), k) == bag_ms(a, k).add(bag_ms(b, k)),
{
    vstd::seq_lib::lemma_multiset_commutative(bag_of(a, k), bag_of(b, k));
    if !merged(a, b).contains_key(k) {
        assert(bag_of(a, k) + bag_of(b, k) =~= Seq::<Seq<char>>::empty());
    }
}

/// Merging is commutative up to the multiset of successors of each key.
pub proof fn lemma_merge_commutative(a: ChainModel, b: ChainModel, k: KeyModel)
    ensures
        merged(a, b).dom() == merged(b, a).dom(),
        bag_ms(merged(a, b), k) == bag_ms(merged(b, a), k),
{
    lemma_merge_bags(a, b, k);
    lemma_merge_bags(b, a, k);
    assert(merged(a, b).dom() =~= merged(b, a).dom());
    assert(bag_ms(a, k).add(bag_ms(b, k)) =~= bag_ms(b, k).add(bag_ms(a, k)));
}

/// Merging is associative, key by key and bag by bag.
pub proof fn lemma_merge_associative(a: ChainModel, b: ChainModel, c: ChainModel)
    ensures
        merged(merged(a, b), c) == merged(a, merged(b, c)),
{
    let l = merged(merged(a, b), c);
    let r = merged(a, merged(b, c));
    assert forall|k: KeyModel| l.contains_key(k) implies l[k] == r[k] by {
        assert(bag_of(merged(a, b), k) =~= bag_of(a, k) + bag_of(b, k));
        assert(bag_of(merged(b, c), k) =~= bag_of(b, k) + bag_of(c, k));
        assert(l[k] =~= r[k]);
    }
    assert(l =~= r);
}

/// The multiset of successors that the left-to-right merge of several chains
/// records for `k`: the sum of what each chain records for it.
pub open spec fn sum_bags(cs: Seq<ChainModel>, k: KeyModel) -> Multiset<Seq<char>>
    decreases cs.len(),
{
    if cs.len() == 0 {
        Multiset::empty()
    } else {
        sum_bags(cs.drop_last(), k).add(bag_ms(cs.last(), k))
    }
}

/// Folding merge over per-text chains gives each key the sum of the
/// per-text multisets of its successors.
pub proof fn lemma_merge_all_bags(cs: Seq<ChainModel>, k: KeyModel)
    ensures
        bag_ms(merge_all(cs), k) == sum_bags(cs, k),
    decreases cs.len(),
{
    if cs.len() == 0 {
        assert(bag_of(Map::<KeyModel, Seq<Seq<char>>>::empty(), k) =~= Seq::<Seq<char>>::empty());
        broadcast use vstd::seq_lib::to_multiset_contains;
        assert(bag_ms(merge_all(cs), k) =~= Multiset::empty());
    } else {
        lemma_merge_all_bags(cs.drop_last(), k);
        lemma_merge_bags(merge_all(cs.drop_last()), cs.last(), k);
    }
}

/// Merging the same chains in any order gives each key the same multiset of
/// successors: two sequences of chains that are permutations of each other
/// fold to the same multiset for every key.
pub proof fn lemma_merge_all_permutation(cs: Seq<ChainModel>, ds: Seq<ChainModel>, k: KeyModel)
    requires
        cs.to_multiset() == ds.to_multiset(),
    ensures
        bag_ms(merge_all(cs), k) == bag_ms(merge_all(ds), k),
{
    lemma_merge_all_bags(cs, k);
    lemma_merge_all_bags(ds, k);
    lemma_sum_bags_permutation(cs, ds, k);
}

proof fn lemma_sum_bags_remove(ds: Seq<ChainModel>, j: int, k: KeyModel)
    requires
        0 <= j < ds.len(),
    ensures
        sum_bags(ds, k) == sum_bags(ds.remove(j), k).add(bag_ms(ds[j], k)),
    decreases ds.len(),
{
    if j == ds.len() - 1 {
        assert(ds.remove(j) =~= ds.drop_last());
    } else {
        lemma_sum_bags_remove(ds.drop_last(), j, k);
        let e = ds.remove(j);
        assert(e.drop_last() =~= ds.drop_last().remove(j));
        assert(e.last() == ds.last());
        assert(sum_bags(e, k) == sum_bags(ds.drop_last().remove(j), k).add(bag_ms(ds.last(), k)));
        assert(sum_bags(ds, k) =~= sum_bags(e, k).add(bag_ms(ds[j], k)));
    }
}

proof fn lemma_sum_bags_permutation(cs: Seq<ChainModel>, ds: Seq<ChainModel>, k: KeyModel)
    requires
        cs.to_multiset() == ds.to_multiset(),
    ensures
        sum_bags(cs, k) == sum_bags(ds, k),
    decreases cs.len(),
{
    broadcast use vstd::seq_lib::group_to_multiset_ensures;

    if cs.len() == 0 {
        assert(cs.to_multiset().len() == cs.len());
        assert(ds.to_multiset().len() == ds.len());
    } else {
        let x = cs.last();
        assert(cs =~= cs.drop_last().push(x));
        assert(cs.to_multiset().count(x) > 0);
        assert(ds.contains(x));
        let j = choose|j: int| 0 <= j < ds.len() && ds[j] == x;
        let e = ds.remove(j);
        assert(e.to_multiset() =~= ds.to_multiset().remove(x));
        assert(cs.drop_last().to_multiset() =~= cs.to_multiset().remove(x));
        lemma_sum_bags_permutation(cs.drop_last(), e, k);
        lemma_sum_bags_remove(ds, j, k);
    }
}

/// The multiset of the tokens of `toks` whose preceding key is `k`.
pub open spec fn observed(toks: Seq<Seq<char>>, k: KeyModel) -> Multiset<Seq<char>>
    decreases toks.len(),
{
    if toks.len() == 0 {
        Multiset::empty()
    } else if key_before(toks, toks.len() - 1) == k {
        observed(toks.drop_last(), k).insert(toks.last())
    } else {
        observed(toks.drop_last(), k)
    }
}

/// Every token of a text is recorded as a successor of the key right before
/// it, and each key's bag holds exactly the tokens that followed that key.
pub proof fn lemma_chain_records_tokens(toks: Seq<Seq<char>>)
    ensures
        forall|i: int|
            0 <= i < toks.len() ==> chain_of(toks).contains_key(#[trigger] key_before(toks, i))
                && chain_of(toks)[key_before(toks, i)].contains(toks[i]),
        forall|k: KeyModel| #[trigger] bag_ms(chain_of(toks), k) == observed(toks, k),
        bags_nonempty(chain_of(toks)),
    decreases toks.len(),
{
    broadcast use vstd::seq_lib::to_multiset_build;
    broadcast use vstd::seq_lib::to_multiset_contains;

    if toks.len() == 0 {
        assert forall|k: KeyModel| #[trigger] bag_ms(chain_of(toks), k) == observed(toks, k) by {
            assert(bag_ms(chain_of(toks), k) =~= Multiset::empty());
        }
    } else {
        let p = toks.drop_last();
        lemma_chain_records_tokens(p);
        let n = toks.len() - 1;
        let kb = key_before(toks, n);
        let c = chain_of(toks);
        assert(c == chain_of(p).insert(kb, bag_of(chain_of(p), kb).push(toks.last())));
        assert forall|i: int| 0 <= i < toks.len() implies c.contains_key(#[trigger] key_before(toks, i))
            && c[key_before(toks, i)].contains(toks[i]) by {
            if i < n {
                assert(key_before(p, i) == key_before(toks, i));
                assert(chain_of(p)[key_before(p, i)].contains(p[i]));
                if key_before(toks, i) == kb {
                    let j = choose|j: int| 0 <= j < chain_of(p)[kb].len() && chain_of(p)[kb][j] == p[i];
                    assert(c[kb][j] == toks[i]);
                }
            } else {
                assert(c[kb][c[kb].len() - 1] == toks[i]);
            }
        }
        assert forall|k: KeyModel| #[trigger] bag_ms(c, k) == observed(toks, k) by {
            assert(bag_ms(chain_of(p), k) == observed(p, k));
        }
    }
}

/// Where the start has a single successor, every walk begins with it.
pub proof fn lemma_single_start_successor(c: ChainModel, w: Seq<Seq<char>>)
    requires
        c.contains_key(KeyModel::Start),
        c[KeyModel::Start].len() == 1,
        is_walk(c, w),
        w.len() > 0,
    ensures
        w[0] == c[KeyModel::Start][0],
{
    assert(key_before(w, 0) == KeyModel::Start);
}

/// The chain of a one-token text records nothing after that token, so no
/// walk of it goes past one word.
pub proof fn lemma_single_token_dead_end(t: Seq<char>, w: Seq<Seq<char>>)
    requires
        is_walk(chain_of(seq![t]), w),
    ensures
        !chain_of(seq![t]).contains_key(KeyModel::Word(t)),
        w.len() <= 1,
{
    let toks = seq![t];
    assert(toks.drop_last() =~= Seq::<Seq<char>>::empty());
    let c = chain_of(toks);
    assert(chain_of(toks.drop_last()) == Map::<KeyModel, Seq<Seq<char>>>::empty());
    assert(key_before(toks, 0) == KeyModel::Start);
    assert(bag_of(Map::<KeyModel, Seq<Seq<char>>>::empty(), KeyModel::Start).push(t) =~= seq![t]);
    assert(c =~= map![KeyModel::Start => seq![t]]);
    if w.len() > 1 {
        assert(key_before(w, 0) == KeyModel::Start);
        assert(c[KeyModel::Start].contains(w[0]));
        assert(w[0] == t);
        assert(c.contains_key(key_before(w, 1)));
    }
}

} // verus!
