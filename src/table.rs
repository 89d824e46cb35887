//! The table from keys to accumulators, filled by `add` and drained once into
//! an ordered sequence.

use crate::entry::{CityEntry, Summary, summary_of};
use crate::ordering::{KeyComparer, KeyOrder, key_order};
use vstd::prelude::*;

verus! {

/// The row of each key, held in a hashbrown map.
#[verifier::external_body]
pub struct KeyIndex {
    map: hashbrown::HashMap<String, usize>,
}

/// What a `KeyIndex` maps each key's text to.
pub uninterp spec fn index_contents(m: KeyIndex) -> Map<Seq<char>, usize>;

/// Relies on `hashbrown::HashMap::new`: an empty map.
#[verifier::external_body]
fn index_new() -> (r: KeyIndex)
    ensures
        index_contents(r).dom() == Set::<Seq<char>>::empty(),
{
    KeyIndex { map: hashbrown::HashMap::new() }
}

/// Relies on `hashbrown::HashMap::get`: the value stored under an equal key,
/// if any.
#[verifier::external_body]
fn index_get(m: &KeyIndex, k: &String) -> (r: Option<usize>)
    ensures
        r == (if index_contents(*m).contains_key(k@) {
            Some(index_contents(*m)[k@])
        } else {
            None::<usize>
        }),
{
    m.map.get(k.as_str()).copied()
}

/// Relies on `hashbrown::HashMap::insert`: afterwards `k` maps to `i`, and no
/// other key changes.
#[verifier::external_body]
fn index_insert(m: &mut KeyIndex, k: String, i: usize)
    ensures
        index_contents(*final(m)) == index_contents(*old(m)).insert(k@, i),
{
    m.map.insert(k, i);
}

/// The table after one observation `v` under key `k`.
pub open spec fn add_spec(m: Map<Seq<char>, Summary>, k: Seq<char>, v: int) -> Map<
    Seq<char>,
    Summary,
> {
    if m.contains_key(k) {
        m.insert(k, m[k].observe(v))
    } else {
        m.insert(k, Summary::first(v))
    }
}

/// The table that a sequence of `(key, value)` observations builds from empty.
pub open spec fn table_of(obs: Seq<(Seq<char>, int)>) -> Map<Seq<char>, Summary>
    decreases obs.len(),
{
    if obs.len() == 0 {
        Map::empty()
    } else {
        add_spec(table_of(obs.drop_last()), obs.last().0, obs.last().1)
    }
}

/// The distinct keys of a sequence of observations.
pub open spec fn keys_of(obs: Seq<(Seq<char>, int)>) -> Set<Seq<char>>
    decreases obs.len(),
{
    if obs.len() == 0 {
        Set::empty()
    } else {
        keys_of(obs.drop_last()).insert(obs.last().0)
    }
}

/// The values observed under key `k`, in order.
pub open spec fn values_of(obs: Seq<(Seq<char>, int)>, k: Seq<char>) -> Seq<int>
    decreases obs.len(),
{
    if obs.len() == 0 {
        Seq::empty()
    } else if obs.last().0 == k {
        values_of(obs.drop_last(), k).push(obs.last().1)
    } else {
        values_of(obs.drop_last(), k)
    }
}

/// After any sequence of additions the table has one entry per distinct key,
/// and each entry is what a lone accumulator fed only that key's values, in
/// the same order, would hold.
pub proof fn lemma_table_matches_per_key(obs: Seq<(Seq<char>, int)>)
    ensures
        table_of(obs).dom() == keys_of(obs),
        keys_of(obs).finite(),
        table_of(obs).dom().len() == keys_of(obs).len(),
        forall|k: Seq<char>| keys_of(obs).contains(k) ==> #[trigger] values_of(obs, k).len() >= 1,
        forall|k: Seq<char>|
            keys_of(obs).contains(k) ==> #[trigger] table_of(obs)[k] == summary_of(
                values_of(obs, k),
            ),
        forall|k: Seq<char>| !keys_of(obs).contains(k) ==> #[trigger] values_of(obs, k).len() == 0,
    decreases obs.len(),
{
    if obs.len() == 0 {
        assert(keys_of(obs) == Set::<Seq<char>>::empty());
        assert(table_of(obs).dom() =~= keys_of(obs));
    } else {
        let pre = obs.drop_last();
        let k0 = obs.last().0;
        let v = obs.last().1;
        lemma_table_matches_per_key(pre);
        assert(table_of(obs) == add_spec(table_of(pre), k0, v));
        assert(keys_of(obs) == keys_of(pre).insert(k0));
        assert(table_of(obs).dom() =~= keys_of(obs));
        assert forall|k: Seq<char>| keys_of(obs).contains(k) implies #[trigger] values_of(
            obs,
            k,
        ).len() >= 1 && table_of(obs)[k] == summary_of(values_of(obs, k)) by {
            if k != k0 {
                assert(values_of(obs, k) == values_of(pre, k));
                assert(keys_of(pre).contains(k));
                assert(table_of(obs)[k] == table_of(pre)[k]);
                assert(table_of(pre)[k] == summary_of(values_of(pre, k)));
                assert(values_of(pre, k).len() >= 1);
            } else {
                let p = values_of(pre, k0);
                assert(values_of(obs, k0) == p.push(v));
                assert(p.push(v).drop_last() =~= p);
                assert(p.push(v).last() == v);
                if !keys_of(pre).contains(k0) {
                    assert(p.len() == 0);
                    assert(p.push(v) =~= seq![v]);
                    assert(summary_of(seq![v]) == Summary::first(v));
                    assert(table_of(obs)[k0] == Summary::first(v));
                } else {
                    assert(table_of(pre)[k0] == summary_of(p));
                    assert(p.len() >= 1);
                    assert(summary_of(p.push(v)) == summary_of(p).observe(v));
                    assert(table_of(obs)[k0] == table_of(pre)[k0].observe(v));
                }
            }
        }
        assert forall|k: Seq<char>| !keys_of(obs).contains(k) implies #[trigger] values_of(
            obs,
            k,
        ).len() == 0 by {
            assert(!keys_of(pre).contains(k));
            assert(values_of(obs, k) == values_of(pre, k));
        }
    }
}

/// No two entries of `s` share a key.
pub open spec fn keys_distinct(s: Seq<(String, CityEntry)>) -> bool {
    forall|i: int, j: int| 0 <= i < j < s.len() ==> s[i].0@ != s[j].0@
}

/// Each entry of `s` is ordered before the next one under `order`.
pub open spec fn sorted_by(order: KeyOrder, s: Seq<(String, CityEntry)>) -> bool {
    forall|i: int|
        0 <= i < s.len() - 1 ==> key_order(order, s[i].0@, #[trigger] s[i + 1].0@)
            != core::cmp::Ordering::Greater
}

/// `s` lists the entries of `m`, each once.
pub open spec fn lists_entries(m: Map<Seq<char>, Summary>, s: Seq<(String, CityEntry)>) -> bool {
    &&& s.len() == m.dom().len()
    &&& keys_distinct(s)
    &&& forall|i: int|
        0 <= i < s.len() ==> m.contains_key(#[trigger] s[i].0@) && m[s[i].0@] == s[i].1@
    &&& forall|k: Seq<char>| m.contains_key(k) ==> exists|i: int| 0 <= i < s.len() && #[trigger] s[i].0@ == k
}

/// Orders `v` by key under `order`, keeping every entry: each one taken from
/// the back of `v` goes in front of the first larger key of those placed.
#[verifier::rlimit(80)]
fn sort_entries(v: Vec<(String, CityEntry)>, order: KeyOrder) -> (r: Vec<(String, CityEntry)>)
    requires
        keys_distinct(v@),
    ensures
        r@.to_multiset() == v@.to_multiset(),
        keys_distinct(r@),
        sorted_by(order, r@),
{
    broadcast use vstd::seq_lib::group_to_multiset_ensures;

    let mut comparer = KeyComparer::new(order);
    let mut rest = v;
    let mut out: Vec<(String, CityEntry)> = Vec::new();
    assert(out@.to_multiset().add(rest@.to_multiset()) =~= v@.to_multiset());
    while rest.len() > 0
        invariant
            comparer.order() == order,
            out@.to_multiset().add(rest@.to_multiset()) == v@.to_multiset(),
            keys_distinct(out@),
            keys_distinct(rest@),
            forall|i: int, j: int|
                0 <= i < out@.len() && 0 <= j < rest@.len() ==> out@[i].0@ != rest@[j].0@,
            sorted_by(order, out@),
        decreases rest.len(),
    {
        let ghost rest0 = rest@;
        let ghost out0 = out@;
        let x = rest.remove(rest.len() - 1);
        let mut j: usize = out.len();
        loop
            invariant
                j <= out.len(),
                comparer.order() == order,
                out@ == out0,
                j < out@.len() ==> key_order(order, x.0@, out@[j as int].0@)
                    != core::cmp::Ordering::Greater,
            ensures
                j <= out.len(),
                comparer.order() == order,
                out@ == out0,
                j < out@.len() ==> key_order(order, x.0@, out@[j as int].0@)
                    != core::cmp::Ordering::Greater,
                j > 0 ==> key_order(order, out@[j - 1].0@, x.0@) != core::cmp::Ordering::Greater,
            decreases j,
        {
            if j == 0 {
                break;
            }
            match comparer.compare(&out[j - 1].0, &x.0) {
                core::cmp::Ordering::Greater => {
                    j -= 1;
                },
                _ => {
                    break;
                },
            }
        }
        out.insert(j, x);
        proof {
            assert(rest0 =~= rest@.push(x));
            assert(out@.remove(j as int) =~= out0);
            assert(out@[j as int] == x);
            out@.to_multiset_ensures();
            rest@.to_multiset_ensures();
            assert(out@.remove(j as int).to_multiset() =~= out@.to_multiset().remove(x));
            assert(out@.contains(x));
            assert(out@.to_multiset().count(x) > 0);
            assert(out@.to_multiset() =~= out0.to_multiset().insert(x));
            assert(rest@.push(x).to_multiset() =~= rest@.to_multiset().insert(x));
            assert(rest0.to_multiset() =~= rest@.to_multiset().insert(x));
            assert(out@.to_multiset().add(rest@.to_multiset()) =~= v@.to_multiset());
            assert forall|i: int| 0 <= i < out0.len() implies out0[i].0@ != x.0@ by {
                assert(rest0[rest0.len() - 1] == x);
            }
            assert forall|a: int, b: int| 0 <= a < b < out@.len() implies out@[a].0@
                != out@[b].0@ by {
                if b < j {
                } else if b == j {
                    assert(out@[a] == out0[a]);
                } else if a == j {
                    assert(out@[b] == out0[b - 1]);
                } else if a < j {
                    assert(out@[a] == out0[a]);
                    assert(out@[b] == out0[b - 1]);
                } else {
                    assert(out@[a] == out0[a - 1]);
                    assert(out@[b] == out0[b - 1]);
                }
            }
            assert forall|a: int, b: int| 0 <= a < out@.len() && 0 <= b < rest@.len() implies out@[a].0@
                != rest@[b].0@ by {
                assert(rest@[b] == rest0[b]);
                if a < j {
                    assert(out@[a] == out0[a]);
                } else if a > j {
                    assert(out@[a] == out0[a - 1]);
                }
            }
            assert forall|i: int| 0 <= i < out@.len() - 1 implies key_order(
                order,
                out@[i].0@,
                #[trigger] out@[i + 1].0@,
            ) != core::cmp::Ordering::Greater by {
                if i + 1 < j {
                    assert(out@[i] == out0[i]);
                    assert(out@[i + 1] == out0[i + 1]);
                } else if i + 1 == j {
                    assert(out@[i] == out0[i]);
                } else if i == j {
                    assert(out@[i + 1] == out0[i]);
                } else {
                    let k = i - 1;
                    assert(out@[i] == out0[k]);
                    assert(out@[i + 1] == out0[k + 1]);
                }
            }
        }
    }
    assert(rest@.to_multiset().len() == 0);
    assert(out@.to_multiset() =~= v@.to_multiset());
    out
}

/// Per-key running statistics; at most one accumulator per key.
pub struct CitiesWeather {
    index: KeyIndex,
    rows: Vec<(String, CityEntry)>,
    model: Ghost<Map<Seq<char>, Summary>>,
}

impl View for CitiesWeather {
    type V = Map<Seq<char>, Summary>;

    closed spec fn view(&self) -> Map<Seq<char>, Summary> {
        self.model@
    }
}

impl CitiesWeather {
    /// The rows, the index and the model agree.
    pub closed spec fn wf(&self) -> bool {
        let idx = index_contents(self.index);
        &&& self.model@.dom().finite()
        &&& self.model@.dom().len() == self.rows@.len()
        &&& idx.dom() == self.model@.dom()
        &&& forall|i: int|
            #![trigger self.rows@[i]]
            0 <= i < self.rows@.len() ==> {
                &&& idx.contains_key(self.rows@[i].0@)
                &&& idx[self.rows@[i].0@] == i
                &&& self.model@[self.rows@[i].0@] == self.rows@[i].1@
            }
        &&& forall|k: Seq<char>|
            #![trigger idx[k]]
            idx.contains_key(k) ==> idx[k] < self.rows@.len() && self.rows@[idx[k] as int].0@ == k
    }

    /// An empty table.
    pub fn new() -> (r: Self)
        ensures
            r.wf(),
            r@.dom() == Set::<Seq<char>>::empty(),
    {
        CitiesWeather { index: index_new(), rows: Vec::new(), model: Ghost(Map::empty()) }
    }

    /// Feeds `temp` to the accumulator of `city`, creating it if the key is new.
    pub fn add(&mut self, city: String, temp: i64)
        requires
            old(self).wf(),
            old(self)@.contains_key(city@) ==> old(self)@[city@].count < u64::MAX,
        ensures
            final(self).wf(),
            final(self)@ == add_spec(old(self)@, city@, temp as int),
    {
        match index_get(&self.index, &city) {
            Some(i) => {
                let mut entry = self.rows[i].1;
                entry.update(temp);
                let key = self.rows[i].0.clone();
                let ghost old_rows = self.rows@;
                self.rows.set(i, (key, entry));
                self.model = Ghost(self.model@.insert(city@, entry@));
                proof {
                    assert(self.model@.dom() =~= old(self).model@.dom());
                    assert forall|j: int| 0 <= j < self.rows@.len() implies self.rows@[j].0@
                        == old_rows[j].0@ by {}
                }
            },
            None => {
                let i = self.rows.len();
                let entry = CityEntry::new(temp);
                self.rows.push((city.clone(), entry));
                let ghost key = city@;
                index_insert(&mut self.index, city, i);
                self.model = Ghost(self.model@.insert(key, entry@));
                proof {
                    let old_idx = index_contents(old(self).index);
                    assert(!old(self).model@.dom().contains(key));
                    assert(self.model@.dom() =~= old(self).model@.dom().insert(key));
                    assert forall|j: int| 0 <= j < old(self).rows@.len() implies old(
                        self,
                    ).rows@[j].0@ != key by {
                        assert(old_idx.contains_key(old(self).rows@[j].0@));
                    }
                }
            },
        }
    }
    /// The accumulator of `city`, if it has one.
    pub fn get(&self, city: &String) -> (r: Option<CityEntry>)
        requires
            self.wf(),
        ensures
            r is Some <==> self@.contains_key(city@),
            r is Some ==> r->0@ == self@[city@],
    {
        match index_get(&self.index, city) {
            Some(i) => Some(self.rows[i].1),
            None => None,
        }
    }

    /// Drains the table into its entries, ordered under `order`.
    fn into_ordered_vec(self, order: KeyOrder) -> (r: Vec<(String, CityEntry)>)
        requires
            self.wf(),
        ensures
            lists_entries(self@, r@),
            sorted_by(order, r@),
    {
        broadcast use vstd::seq_lib::group_to_multiset_ensures;

        let ghost rows = self.rows@;
        let ghost idx = index_contents(self.index);
        proof {
            assert forall|i: int, j: int| 0 <= i < j < rows.len() implies rows[i].0@
                != rows[j].0@ by {
                assert(idx[rows[i].0@] == i);
                assert(idx[rows[j].0@] == j);
            }
        }
        let r = sort_entries(self.rows, order);
        proof {
            assert(r@.to_multiset().len() == rows.to_multiset().len());
            assert forall|i: int| 0 <= i < r@.len() implies self@.contains_key(
                #[trigger] r@[i].0@,
            ) && self@[r@[i].0@] == r@[i].1@ by {
                assert(r@.contains(r@[i]));
                assert(r@.to_multiset().count(r@[i]) > 0);
                assert(rows.contains(r@[i]));
                let p = choose|p: int| 0 <= p < rows.len() && rows[p] == r@[i];
                assert(self.rows@[p] == rows[p]);
            }
            assert forall|k: Seq<char>| self@.contains_key(k) implies exists|i: int|
                0 <= i < r@.len() && #[trigger] r@[i].0@ == k by {
                let p = idx[k];
                assert(self.rows@[p as int] == rows[p as int]);
                assert(rows.contains(rows[p as int]));
                assert(rows.to_multiset().count(rows[p as int]) > 0);
                assert(r@.contains(rows[p as int]));
            }
        }
        r
    }

    /// Drains the table into its entries, ordered by the bytes of the keys.
    pub fn into_sorted_ascii_vec(self) -> (r: Vec<(String, CityEntry)>)
        requires
            self.wf(),
        ensures
            lists_entries(self@, r@),
            sorted_by(KeyOrder::Bytes, r@),
    {
        self.into_ordered_vec(KeyOrder::Bytes)
    }

    /// Drains the table into its entries, ordered by Unicode collation.
    pub fn into_slow_unicode_vec(self) -> (r: Vec<(String, CityEntry)>)
        requires
            self.wf(),
        ensures
            lists_entries(self@, r@),
            sorted_by(KeyOrder::Collation, r@),
    {
        self.into_ordered_vec(KeyOrder::Collation)
    }
}

} // verus!
