//! Grouping values by key.

use core::marker::PhantomData;
use vstd::prelude::*;
use vstd::utf8::encode_utf8;

use crate::assoc::{assoc_find, assoc_view, has_key, key_index, keys_distinct, lemma_assoc_view_at, lemma_assoc_view_empty};
use crate::elem_types::KV;
use crate::internals::serialize::{object_name, store_key_extractor, ObjectRegistry};
use crate::proto::{FunctionSpec, FunctionSpecView};
use crate::urns::GROUP_BY_KEY_URN;

verus! {

/// The groups after one more value `v` of key `k`: appended to the group of `k`,
/// which is created if it did not exist.
pub open spec fn add_to_group<V>(groups: Map<Seq<char>, Seq<V>>, k: Seq<char>, v: V) -> Map<Seq<char>, Seq<V>> {
    if groups.contains_key(k) {
        groups.insert(k, groups[k].push(v))
    } else {
        groups.insert(k, seq![v])
    }
}

/// The groups after the key-value pairs `kvs`, one after the other, starting from none.
pub open spec fn grouped<V>(kvs: Seq<(Seq<char>, V)>) -> Map<Seq<char>, Seq<V>>
    decreases kvs.len(),
{
    if kvs.len() == 0 {
        Map::empty()
    } else {
        add_to_group(grouped(kvs.drop_last()), kvs.last().0, kvs.last().1)
    }
}

/// The values of the pairs of `kvs` whose key is `k`, in order.
pub open spec fn values_of_key<V>(kvs: Seq<(Seq<char>, V)>, k: Seq<char>) -> Seq<V>
    decreases kvs.len(),
{
    if kvs.len() == 0 {
        Seq::empty()
    } else if kvs.last().0 == k {
        values_of_key(kvs.drop_last(), k).push(kvs.last().1)
    } else {
        values_of_key(kvs.drop_last(), k)
    }
}

/// The values of a key are the values of the pairs with that key, in order.
pub proof fn lemma_values_of_key_filter<V>(kvs: Seq<(Seq<char>, V)>, k: Seq<char>)
    ensures
        values_of_key(kvs, k) == kvs.filter(|p: (Seq<char>, V)| p.0 == k).map_values(|p: (Seq<char>, V)| p.1),
    decreases kvs.len(),
{
    reveal(Seq::filter);
    let pred = |p: (Seq<char>, V)| p.0 == k;
    if kvs.len() > 0 {
        lemma_values_of_key_filter(kvs.drop_last(), k);
        let f0 = kvs.drop_last().filter(pred);
        if pred(kvs.last()) {
            assert(kvs.filter(pred) == f0.push(kvs.last()));
            assert(f0.push(kvs.last()).map_values(|p: (Seq<char>, V)| p.1) =~= f0.map_values(
                |p: (Seq<char>, V)| p.1,
            ).push(kvs.last().1));
        } else {
            assert(kvs.filter(pred) == f0);
        }
    } else {
        assert(kvs.filter(pred) =~= Seq::<(Seq<char>, V)>::empty());
        assert(kvs.filter(pred).map_values(|p: (Seq<char>, V)| p.1) =~= Seq::<V>::empty());
    }
}

/// Grouping pairs one after the other gives a group for each key that occurs, holding
/// the values of that key in the order they came.
pub proof fn lemma_grouped<V>(kvs: Seq<(Seq<char>, V)>, k: Seq<char>)
    ensures
        grouped(kvs).contains_key(k) <==> exists|i: int| 0 <= i < kvs.len() && (#[trigger] kvs[i]).0 == k,
        grouped(kvs).contains_key(k) ==> grouped(kvs)[k] == values_of_key(kvs, k),
        grouped(kvs).contains_key(k) ==> grouped(kvs)[k] == kvs.filter(|p: (Seq<char>, V)| p.0 == k).map_values(
            |p: (Seq<char>, V)| p.1,
        ),
        !grouped(kvs).contains_key(k) ==> values_of_key(kvs, k) == Seq::<V>::empty(),
    decreases kvs.len(),
{
    lemma_values_of_key_filter(kvs, k);
    if kvs.len() > 0 {
        let init = kvs.drop_last();
        lemma_grouped(init, k);
        if exists|i: int| 0 <= i < init.len() && (#[trigger] init[i]).0 == k {
            let i = choose|i: int| 0 <= i < init.len() && (#[trigger] init[i]).0 == k;
            assert(kvs[i] == init[i]);
        }
        if exists|i: int| 0 <= i < kvs.len() && (#[trigger] kvs[i]).0 == k {
            let i = choose|i: int| 0 <= i < kvs.len() && (#[trigger] kvs[i]).0 == k;
            if i < init.len() {
                assert(init[i] == kvs[i]);
            }
        }
        if kvs.last().0 == k {
            assert(kvs[kvs.len() - 1].0 == k);
            if !grouped(init).contains_key(k) {
                assert(Seq::<V>::empty().push(kvs.last().1) =~= seq![kvs.last().1]);
            }
        }
    }
}

/// The values of each key of a list of groups.
pub open spec fn groups_map<V>(groups: Seq<(String, Vec<V>)>) -> Map<Seq<char>, Seq<V>> {
    assoc_view(groups).map_values(|g: Vec<V>| g@)
}

/// Values grouped by key. The groups are listed in the order their keys first came.
pub struct GroupedValues<V> {
    groups: Vec<(String, Vec<V>)>,
}

impl<V> GroupedValues<V> {
    /// The values of each key.
    pub closed spec fn spec_map(&self) -> Map<Seq<char>, Seq<V>> {
        groups_map(self.groups@)
    }

    #[verifier::type_invariant]
    closed spec fn wf(self) -> bool {
        keys_distinct(self.groups@)
    }

    /// The number of keys.
    pub fn len(&self) -> (r: usize)
        ensures
            r == self.spec_map().dom().len(),
    {
        proof {
            use_type_invariant(self);
            self.lemma_dom_len();
        }
        self.groups.len()
    }

    proof fn lemma_dom_len(&self)
        requires
            self.wf(),
        ensures
            self.spec_map().dom().len() == self.groups@.len(),
            self.spec_map().dom().finite(),
        decreases self.groups@.len(),
    {
        let keys = self.groups@.map_values(|p: (String, Vec<V>)| p.0@);
        assert(keys.no_duplicates()) by {
            assert forall|a: int, b: int| 0 <= a < keys.len() && 0 <= b < keys.len() && a != b implies keys[a] != keys[b] by {
                assert(self.groups@[a].0@ != self.groups@[b].0@);
            }
        }
        assert(self.spec_map().dom() =~= keys.to_set()) by {
            assert forall|k: Seq<char>| #[trigger] self.spec_map().dom().contains(k) == keys.to_set().contains(k) by {
                if has_key(self.groups@, k) {
                    let j = key_index(self.groups@, k);
                    assert(keys[j] == k);
                }
                if keys.contains(k) {
                    let j = choose|j: int| 0 <= j < keys.len() && keys[j] == k;
                    assert(self.groups@[j].0@ == k);
                }
            }
        }
        keys.unique_seq_to_set();
    }
}

/// What a grouping step does with the values of one value type: start, clear and fill
/// the groups, and list them as key-value pairs.
pub trait DynamicKeyExtractor {
    type V: Clone;

    /// No values yet.
    fn new_grouped_values(&self) -> (r: GroupedValues<Self::V>)
        ensures
            r.spec_map() == Map::<Seq<char>, Seq<Self::V>>::empty(),
    ;

    /// Forgets all values.
    fn clear_grouped_values(&self, grouped_values: &mut GroupedValues<Self::V>)
        ensures
            final(grouped_values).spec_map() == Map::<Seq<char>, Seq<Self::V>>::empty(),
    ;

    /// Adds the value of `kv` to the group of its key.
    fn extract(&self, kv: KV<String, Self::V>, grouped_values: &mut GroupedValues<Self::V>)
        ensures
            final(grouped_values).spec_map() == add_to_group(old(grouped_values).spec_map(), kv.k@, kv.v),
    ;

    /// One key-value pair for each group: its key and copies of its values, in order.
    fn recombine(&self, grouped_values: &GroupedValues<Self::V>) -> (r: Vec<KV<String, Vec<Self::V>>>)
        ensures
            r@.len() == grouped_values.spec_map().dom().len(),
            forall|i: int, j: int| 0 <= i < j < r@.len() ==> #[trigger] r@[i].k@ != #[trigger] r@[j].k@,
            forall|i: int| 0 <= i < r@.len() ==> #[trigger] grouped_values.spec_map().contains_key(r@[i].k@),
            forall|i: int| 0 <= i < r@.len() ==> clones_of(grouped_values.spec_map()[#[trigger] r@[i].k@], r@[i].v@),
            forall|k: Seq<char>| #[trigger] grouped_values.spec_map().contains_key(k) ==> exists|i: int| 0 <= i < r@.len() && #[trigger] r@[i].k@ == k,
    ;
}

/// Whether `copies` holds a clone of each of `values`, in the same order.
pub open spec fn clones_of<V: Clone>(values: Seq<V>, copies: Seq<V>) -> bool {
    copies.len() == values.len() && forall|j: int| 0 <= j < values.len() ==> cloned(values[j], #[trigger] copies[j])
}

/// Clones of the values of `values`, in order.
fn clone_values<V: Clone>(values: &Vec<V>) -> (r: Vec<V>)
    ensures
        clones_of(values@, r@),
{
    let mut r: Vec<V> = Vec::new();
    let mut i: usize = 0;
    while i < values.len()
        invariant
            i <= values@.len(),
            r@.len() == i,
            forall|j: int| 0 <= j < i ==> cloned(values@[j], #[trigger] r@[j]),
        decreases values@.len() - i,
    {
        let c = values[i].clone();
        r.push(c);
        i = i + 1;
    }
    r
}

/// Extracts keys of key-value pairs, to group values by key.
#[derive(Debug)]
pub struct KeyExtractor<V>(PhantomData<V>);

impl<V> KeyExtractor<V> {
    pub fn new() -> Self {
        KeyExtractor(PhantomData)
    }
}

impl<V: Clone> DynamicKeyExtractor for KeyExtractor<V> {
    type V = V;

    /// No values yet.
    fn new_grouped_values(&self) -> (r: GroupedValues<V>) {
        let r = GroupedValues { groups: Vec::new() };
        proof {
            lemma_assoc_view_empty(r.groups@);
            assert(r.spec_map() =~= Map::<Seq<char>, Seq<V>>::empty());
        }
        r
    }

    /// Forgets all values.
    fn clear_grouped_values(&self, grouped_values: &mut GroupedValues<V>) {
        grouped_values.groups = Vec::new();
        proof {
            lemma_assoc_view_empty(grouped_values.groups@);
            assert(grouped_values.spec_map() =~= Map::<Seq<char>, Seq<V>>::empty());
        }
    }

    /// Adds the value of `kv` to the group of its key.
    fn extract(&self, kv: KV<String, V>, grouped_values: &mut GroupedValues<V>) {
        proof {
            use_type_invariant(&*grouped_values);
        }
        let KV { k, v } = kv;
        let mut groups: Vec<(String, Vec<V>)> = Vec::new();
        std::mem::swap(&mut groups, &mut grouped_values.groups);
        let ghost gs0 = groups@;
        let ghost k_view = k@;
        let ghost value = v;
        match assoc_find(&groups, &k) {
            Some(i) => {
                proof {
                    lemma_assoc_view_at(gs0, i as int);
                }
                let (key, mut values) = groups.remove(i);
                values.push(v);
                groups.insert(i, (key, values));
                proof {
                    let gs = groups@;
                    assert(gs =~= gs0.update(i as int, (key, values)));
                    assert forall|a: int, b: int|
                        0 <= a < gs.len() && 0 <= b < gs.len() && a != b implies #[trigger] gs[a].0@
                        != #[trigger] gs[b].0@ by {
                        assert(gs0[a].0@ != gs0[b].0@);
                    }
                    let target = add_to_group(assoc_view(gs0).map_values(|g: Vec<V>| g@), k_view, value);
                    assert forall|kk: Seq<char>| #[trigger] groups_map(groups@).contains_key(kk) == target.contains_key(kk) by {
                        if has_key(gs0, kk) {
                            let j = key_index(gs0, kk);
                            assert(gs[j].0@ == kk);
                        }
                        if has_key(gs, kk) {
                            let j = key_index(gs, kk);
                            assert(gs0[j].0@ == kk);
                        }
                    }
                    assert forall|kk: Seq<char>| groups_map(groups@).contains_key(kk) implies #[trigger] groups_map(groups@)[kk]
                        == target[kk] by {
                        let j = key_index(gs, kk);
                        lemma_assoc_view_at(gs, j);
                        lemma_assoc_view_at(gs0, j);
                    }
                    assert(groups_map(groups@) =~= target);
                }
            },
            None => {
                let mut values = Vec::new();
                values.push(v);
                groups.push((k, values));
                proof {
                    let gs = groups@;
                    assert forall|a: int, b: int|
                        0 <= a < gs.len() && 0 <= b < gs.len() && a != b implies #[trigger] gs[a].0@
                        != #[trigger] gs[b].0@ by {
                        if a < gs0.len() && b < gs0.len() {
                            assert(gs0[a].0@ != gs0[b].0@);
                        } else if a < gs0.len() {
                            assert(gs0[a].0@ != k_view);
                        } else {
                            assert(gs0[b].0@ != k_view);
                        }
                    }
                    let target = add_to_group(assoc_view(gs0).map_values(|g: Vec<V>| g@), k_view, value);
                    assert(!assoc_view(gs0).contains_key(k_view));
                    assert forall|kk: Seq<char>| #[trigger] groups_map(groups@).contains_key(kk) == target.contains_key(kk) by {
                        if has_key(gs0, kk) {
                            let j = key_index(gs0, kk);
                            assert(gs[j].0@ == kk);
                        }
                        if kk == k_view {
                            assert(gs[gs0.len() as int].0@ == kk);
                        }
                        if has_key(gs, kk) {
                            let j = key_index(gs, kk);
                            if j < gs0.len() {
                                assert(gs0[j].0@ == kk);
                            }
                        }
                    }
                    assert forall|kk: Seq<char>| groups_map(groups@).contains_key(kk) implies #[trigger] groups_map(groups@)[kk]
                        == target[kk] by {
                        let j = key_index(gs, kk);
                        lemma_assoc_view_at(gs, j);
                        if j < gs0.len() {
                            lemma_assoc_view_at(gs0, j);
                        } else {
                            assert(gs[j].1@ =~= seq![value]);
                        }
                    }
                    assert(groups_map(groups@) =~= target);
                }
            },
        }
        grouped_values.groups = groups;
    }

    fn recombine(&self, grouped_values: &GroupedValues<V>) -> (r: Vec<KV<String, Vec<V>>>) {
        proof {
            use_type_invariant(grouped_values);
        }
        let groups = &grouped_values.groups;
        let ghost gs = groups@;
        let mut r: Vec<KV<String, Vec<V>>> = Vec::new();
        let mut i: usize = 0;
        while i < groups.len()
            invariant
                gs == groups@,
                keys_distinct(gs),
                i <= gs.len(),
                r@.len() == i,
                forall|a: int| 0 <= a < i ==> (#[trigger] r@[a]).k@ == gs[a].0@ && clones_of(gs[a].1@, r@[a].v@),
            decreases gs.len() - i,
        {
            let k = groups[i].0.clone();
            let values = clone_values(&groups[i].1);
            r.push(KV { k, v: values });
            i = i + 1;
        }
        proof {
            grouped_values.lemma_dom_len();
            assert forall|a: int| 0 <= a < r@.len() implies #[trigger] grouped_values.spec_map().contains_key(r@[a].k@)
                && clones_of(grouped_values.spec_map()[r@[a].k@], r@[a].v@) by {
                assert(r@[a].k@ == gs[a].0@);
                lemma_assoc_view_at(gs, a);
            }
            assert forall|a: int, b: int| 0 <= a < b < r@.len() implies #[trigger] r@[a].k@ != #[trigger] r@[b].k@ by {
                assert(r@[a].k@ == gs[a].0@);
                assert(r@[b].k@ == gs[b].0@);
            }
            assert forall|k: Seq<char>| #[trigger] grouped_values.spec_map().contains_key(k) implies exists|a: int|
                0 <= a < r@.len() && #[trigger] r@[a].k@ == k by {
                let a = key_index(gs, k);
                assert(r@[a].k@ == gs[a].0@);
            }
        }
        r
    }
}

/// The transform that groups the values of key-value pairs by key; the key extractor is
/// known by the name it is stored under.
#[derive(Debug)]
pub struct GroupByKey {
    payload: String,
}

impl GroupByKey {
    pub closed spec fn spec_payload(&self) -> Seq<char> {
        self.payload@
    }

    /// A GroupByKey whose key extractor `extractor` is stored in `extractors`.
    pub fn new<T>(extractors: &mut ObjectRegistry<T>, extractor: T) -> (r: Self)
        ensures
            r.spec_payload() == object_name(old(extractors).spec_len()),
            !old(extractors).spec_map().contains_key(r.spec_payload()),
            final(extractors).spec_map() == old(extractors).spec_map().insert(r.spec_payload(), extractor),
            final(extractors).spec_len() == old(extractors).spec_len() + 1,
    {
        GroupByKey { payload: store_key_extractor(extractors, extractor) }
    }

    /// The spec of the transform: the GroupByKey URN, with the extractor's name as payload.
    pub fn expand_spec(&self) -> (r: FunctionSpec)
        ensures
            r.view() == (FunctionSpecView { urn: GROUP_BY_KEY_URN@, payload: encode_utf8(self.spec_payload()) }),
    {
        FunctionSpec { urn: String::from_str(GROUP_BY_KEY_URN), payload: self.payload.as_str().as_bytes_vec() }
    }
}

} // verus!
