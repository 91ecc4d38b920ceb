//! Minimum-price aggregation: a concurrency-safe map from canonical item
//! identity to the lowest price observed during one scan.
//!
//! The merge rule keeps the minimum price per identity; folding any
//! permutation of the same observations yields the same aggregate, and the
//! aggregated price never exceeds any individual observation.

use vstd::prelude::*;

verus! {

#[verifier::external_type_specification]
#[verifier::external_body]
#[verifier::reject_recursive_types(K)]
#[verifier::reject_recursive_types(V)]
#[verifier::reject_recursive_types(S)]
pub struct ExDashMap<K, V, S>(dashmap::DashMap<K, V, S>);

/// The entries a price map holds, as a mapping from the key's characters to
/// the stored price.
pub uninterp spec fn price_entries(m: dashmap::DashMap<String, i64>) -> Map<Seq<char>, i64>;

/// The empty aggregate contents.
pub open spec fn empty_prices() -> Map<Seq<char>, i64> {
    Map::empty()
}

/// The smaller of two prices.
pub open spec fn min_i64(a: i64, b: i64) -> i64 {
    if a < b {
        a
    } else {
        b
    }
}

/// The merge rule: insert the price if the identity is absent, else keep
/// the minimum of the stored and the observed price.
pub open spec fn merge_spec(m: Map<Seq<char>, i64>, id: Seq<char>, price: i64) -> Map<
    Seq<char>,
    i64,
> {
    if m.dom().contains(id) {
        m.insert(id, min_i64(m[id], price))
    } else {
        m.insert(id, price)
    }
}

/// Folding a sequence of `(identity, price)` observations into a map, in
/// order.
pub open spec fn fold_obs(m: Map<Seq<char>, i64>, obs: Seq<(Seq<char>, i64)>) -> Map<
    Seq<char>,
    i64,
>
    decreases obs.len(),
{
    if obs.len() == 0 {
        m
    } else {
        fold_obs(merge_spec(m, obs.first().0, obs.first().1), obs.drop_first())
    }
}

/// Merging two observations commutes.
pub proof fn lemma_merge_comm(m: Map<Seq<char>, i64>, a: (Seq<char>, i64), b: (Seq<char>, i64))
    ensures
        merge_spec(merge_spec(m, a.0, a.1), b.0, b.1) == merge_spec(merge_spec(m, b.0, b.1), a.0, a.1),
{
    assert(merge_spec(merge_spec(m, a.0, a.1), b.0, b.1) =~= merge_spec(
        merge_spec(m, b.0, b.1),
        a.0,
        a.1,
    ));
}

/// Folding after one more observation equals merging that observation into
/// the fold.
pub proof fn lemma_fold_snoc(m: Map<Seq<char>, i64>, obs: Seq<(Seq<char>, i64)>, a: (Seq<char>, i64))
    ensures
        fold_obs(m, obs.push(a)) == merge_spec(fold_obs(m, obs), a.0, a.1),
    decreases obs.len(),
{
    if obs.len() == 0 {
        assert(obs.push(a).drop_first() =~= obs);
        assert(fold_obs(m, obs.push(a)) == fold_obs(merge_spec(m, a.0, a.1), obs));
    } else {
        assert(obs.push(a).drop_first() =~= obs.drop_first().push(a));
        assert(obs.push(a).first() == obs.first());
        lemma_fold_snoc(merge_spec(m, obs.first().0, obs.first().1), obs.drop_first(), a);
    }
}

/// An observation anywhere in the sequence may be merged first.
proof fn lemma_fold_pull(m: Map<Seq<char>, i64>, obs: Seq<(Seq<char>, i64)>, j: int)
    requires
        0 <= j < obs.len(),
    ensures
        fold_obs(m, obs) == fold_obs(merge_spec(m, obs[j].0, obs[j].1), obs.remove(j)),
    decreases obs.len(),
{
    if j == 0 {
        assert(obs.remove(0) =~= obs.drop_first());
    } else {
        let m1 = merge_spec(m, obs.first().0, obs.first().1);
        lemma_fold_pull(m1, obs.drop_first(), j - 1);
        lemma_merge_comm(m, obs.first(), obs[j]);
        assert(obs.remove(j).drop_first() =~= obs.drop_first().remove(j - 1));
        assert(obs.remove(j).first() == obs.first());
        assert(fold_obs(merge_spec(m, obs[j].0, obs[j].1), obs.remove(j)) == fold_obs(
            merge_spec(merge_spec(m, obs[j].0, obs[j].1), obs.first().0, obs.first().1),
            obs.drop_first().remove(j - 1),
        ));
    }
}

/// Folding any two permutations of the same observations into the same map
/// yields the same aggregate: the merge order does not matter.
pub proof fn lemma_fold_permutation(
    m: Map<Seq<char>, i64>,
    obs1: Seq<(Seq<char>, i64)>,
    obs2: Seq<(Seq<char>, i64)>,
)
    requires
        obs1.to_multiset() == obs2.to_multiset(),
    ensures
        fold_obs(m, obs1) == fold_obs(m, obs2),
    decreases obs1.len(),
{
    broadcast use vstd::seq_lib::group_to_multiset_ensures;

    if obs1.len() == 0 {
        assert(obs2.to_multiset().len() == 0);
        assert(obs2.len() == 0);
    } else {
        let a = obs1.first();
        assert(obs1.to_multiset().count(a) > 0);
        assert(obs2.to_multiset().count(a) > 0);
        assert(obs2.contains(a));
        let j = choose|j: int| 0 <= j < obs2.len() && obs2[j] == a;
        lemma_fold_pull(m, obs2, j);
        assert(obs1.remove(0) =~= obs1.drop_first());
        assert(obs1.drop_first().to_multiset() == obs1.to_multiset().remove(a));
        assert(obs2.remove(j).to_multiset() == obs2.to_multiset().remove(a));
        lemma_fold_permutation(merge_spec(m, a.0, a.1), obs1.drop_first(), obs2.remove(j));
    }
}

/// Folding observations never removes a key and never raises a stored
/// price.
proof fn lemma_fold_preserves(m: Map<Seq<char>, i64>, obs: Seq<(Seq<char>, i64)>, k: Seq<char>)
    requires
        m.dom().contains(k),
    ensures
        fold_obs(m, obs).dom().contains(k),
        fold_obs(m, obs)[k] <= m[k],
    decreases obs.len(),
{
    if obs.len() > 0 {
        lemma_fold_preserves(merge_spec(m, obs.first().0, obs.first().1), obs.drop_first(), k);
    }
}

/// Every price in a fold built from the empty aggregate was observed: the
/// stored price of each identity is one of the prices observed for it.
pub proof fn lemma_fold_attained(
    m: Map<Seq<char>, i64>,
    obs: Seq<(Seq<char>, i64)>,
    k: Seq<char>,
)
    requires
        fold_obs(m, obs).dom().contains(k),
    ensures
        (m.dom().contains(k) && fold_obs(m, obs)[k] == m[k]) || exists|i: int|
            0 <= i < obs.len() && (#[trigger] obs[i]).0 == k && obs[i].1 == fold_obs(m, obs)[k],
    decreases obs.len(),
{
    if obs.len() > 0 {
        let m1 = merge_spec(m, obs.first().0, obs.first().1);
        lemma_fold_attained(m1, obs.drop_first(), k);
        if m1.dom().contains(k) && fold_obs(m, obs)[k] == m1[k] {
            if k == obs.first().0 && m1[k] != m[k] {
                assert(obs[0].0 == k && obs[0].1 == fold_obs(m, obs)[k]);
            }
        } else {
            let i = choose|i: int|
                0 <= i < obs.drop_first().len() && (#[trigger] obs.drop_first()[i]).0 == k
                    && obs.drop_first()[i].1 == fold_obs(m1, obs.drop_first())[k];
            assert(obs[i + 1].0 == k && obs[i + 1].1 == fold_obs(m, obs)[k]);
        }
    }
}

/// The aggregated price of an identity never exceeds any price observed for
/// it, and every observed identity is present in the aggregate.
pub proof fn lemma_fold_min(m: Map<Seq<char>, i64>, obs: Seq<(Seq<char>, i64)>, i: int)
    requires
        0 <= i < obs.len(),
    ensures
        fold_obs(m, obs).dom().contains(obs[i].0),
        fold_obs(m, obs)[obs[i].0] <= obs[i].1,
    decreases obs.len(),
{
    let m1 = merge_spec(m, obs.first().0, obs.first().1);
    if i == 0 {
        lemma_fold_preserves(m1, obs.drop_first(), obs.first().0);
    } else {
        lemma_fold_min(m1, obs.drop_first(), i - 1);
        assert(obs.drop_first()[i - 1] == obs[i]);
    }
}

/// A concurrent map from canonical identity to the minimal observed price,
/// built fresh each scan.
pub struct PriceAggregate {
    map: dashmap::DashMap<String, i64>,
}

impl View for PriceAggregate {
    type V = Map<Seq<char>, i64>;

    closed spec fn view(&self) -> Map<Seq<char>, i64> {
        price_entries(self.map)
    }
}

impl PriceAggregate {
    /// A fresh, empty aggregate. Relies on dashmap::DashMap::new: a fresh
    /// map holds no entry.
    #[verifier::external_body]
    pub fn new() -> (r: PriceAggregate)
        ensures
            r@ == empty_prices(),
    {
        PriceAggregate { map: dashmap::DashMap::new() }
    }

    /// Relies on dashmap::DashMap::get: returns a copy of the value stored
    /// under the key, if one is stored.
    #[verifier::external_body]
    fn get_raw(&self, k: &String) -> (r: Option<i64>)
        ensures
            r is Some <==> price_entries(self.map).dom().contains(k@),
            r matches Some(v) ==> v == price_entries(self.map)[k@],
    {
        self.map.get(k).map(|entry| *entry.value())
    }

    /// Relies on dashmap::DashMap::insert: stores the value under the key,
    /// replacing a previous one.
    #[verifier::external_body]
    fn insert_raw(&mut self, k: String, v: i64)
        ensures
            price_entries(final(self).map) == price_entries(old(self).map).insert(k@, v),
    {
        self.map.insert(k, v);
    }

    /// Relies on dashmap::DashMap::iter: with no writer running alongside,
    /// it visits each entry exactly once.
    #[verifier::external_body]
    fn entries_raw(&self) -> (r: Vec<(String, i64)>)
        ensures
            forall|i: int|
                0 <= i < r@.len() ==> price_entries(self.map).contains_pair(
                    (#[trigger] r@[i]).0@,
                    r@[i].1,
                ),
            forall|i: int, j: int| 0 <= i < j < r@.len() ==> r@[i].0@ != r@[j].0@,
            forall|k: Seq<char>|
                price_entries(self.map).dom().contains(k) ==> exists|i: int|
                    0 <= i < r@.len() && (#[trigger] r@[i]).0@ == k,
    {
        self.map.iter().map(|entry| (entry.key().clone(), *entry.value())).collect()
    }

    /// Folds one observation in: insert the price if the identity is new,
    /// else keep the minimum of stored and observed price.
    pub fn merge(&mut self, id: String, price: i64)
        ensures
            final(self)@ == merge_spec(old(self)@, id@, price),
    {
        let ghost pre = self@;
        match self.get_raw(&id) {
            None => {
                self.insert_raw(id, price);
            },
            Some(existing) => {
                if existing > price {
                    self.insert_raw(id, price);
                } else {
                    proof {
                        assert(merge_spec(pre, id@, price) =~= pre);
                    }
                }
            },
        }
    }

    /// The stored price for an identity, if any.
    pub fn get(&self, id: &String) -> (r: Option<i64>)
        ensures
            r is Some <==> self@.dom().contains(id@),
            r matches Some(v) ==> v == self@[id@],
    {
        self.get_raw(id)
    }

    /// All entries, each exactly once, in no promised order.
    pub fn entries(&self) -> (r: Vec<(String, i64)>)
        ensures
            forall|i: int|
                0 <= i < r@.len() ==> self@.contains_pair((#[trigger] r@[i]).0@, r@[i].1),
            forall|i: int, j: int| 0 <= i < j < r@.len() ==> r@[i].0@ != r@[j].0@,
            forall|k: Seq<char>|
                self@.dom().contains(k) ==> exists|i: int|
                    0 <= i < r@.len() && (#[trigger] r@[i]).0@ == k,
    {
        self.entries_raw()
    }
}

} // verus!
