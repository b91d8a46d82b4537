//! Registries of the objects (DoFns, key extractors) that transforms refer to by name.

use vstd::prelude::*;

use crate::assoc::{
    assoc_find, assoc_insert, assoc_view, has_key, key_index, keys_distinct, lemma_assoc_view_at,
    lemma_assoc_view_empty,
};
use crate::text::{append_decimal, decimal, lemma_prefixed_decimal_injective};

verus! {

/// The name under which the `n`-th object of a registry is stored: `object{n}`.
pub open spec fn object_name(n: nat) -> Seq<char> {
    seq!['o', 'b', 'j', 'e', 'c', 't'] + decimal(n)
}

/// Objects stored under the names `object0`, `object1`, ... in the order they came.
pub struct ObjectRegistry<T> {
    objects: Vec<(String, T)>,
}

impl<T> ObjectRegistry<T> {
    /// The stored objects by name.
    pub closed spec fn spec_map(&self) -> Map<Seq<char>, T> {
        assoc_view(self.objects@)
    }

    /// The number of stored objects.
    pub closed spec fn spec_len(&self) -> nat {
        self.objects@.len()
    }

    #[verifier::type_invariant]
    closed spec fn wf(self) -> bool {
        forall|i: int| 0 <= i < self.objects@.len() ==> #[trigger] self.objects@[i].0@ == object_name(i as nat)
    }

    /// The names in use are those of the objects stored.
    proof fn lemma_names(&self)
        requires
            self.wf(),
        ensures
            keys_distinct(self.objects@),
            forall|k: Seq<char>|
                #[trigger] self.spec_map().contains_key(k) <==> exists|i: nat| i < self.spec_len() && k == object_name(i),
    {
        assert forall|a: int, b: int|
            0 <= a < self.objects@.len() && 0 <= b < self.objects@.len() && a != b implies #[trigger] self.objects@[a].0@
            != #[trigger] self.objects@[b].0@ by {
            if self.objects@[a].0@ == self.objects@[b].0@ {
                lemma_prefixed_decimal_injective(seq!['o', 'b', 'j', 'e', 'c', 't'], a as nat, b as nat);
            }
        }
        assert forall|k: Seq<char>| #[trigger] self.spec_map().contains_key(k) <==> exists|i: nat|
            i < self.spec_len() && k == object_name(i) by {
            if self.spec_map().contains_key(k) {
                let j = key_index(self.objects@, k);
                assert(k == object_name(j as nat));
            }
            if exists|i: nat| i < self.spec_len() && k == object_name(i) {
                let i = choose|i: nat| i < self.spec_len() && k == object_name(i);
                assert(self.objects@[i as int].0@ == k);
            }
        }
    }

    /// An empty registry.
    pub fn new() -> (r: Self)
        ensures
            r.spec_len() == 0,
            r.spec_map() == Map::<Seq<char>, T>::empty(),
    {
        let r = ObjectRegistry { objects: Vec::new() };
        proof {
            lemma_assoc_view_empty(r.objects@);
        }
        r
    }

    /// The number of stored objects.
    pub fn len(&self) -> (r: usize)
        ensures
            r == self.spec_len(),
    {
        self.objects.len()
    }

    /// Stores `object` under the next free name, `object{n}` where `n` objects were
    /// stored before; returns that name.
    pub fn store(&mut self, object: T) -> (name: String)
        ensures
            name@ == object_name(old(self).spec_len()),
            !old(self).spec_map().contains_key(name@),
            final(self).spec_map() == old(self).spec_map().insert(name@, object),
            final(self).spec_len() == old(self).spec_len() + 1,
    {
        proof {
            use_type_invariant(&*self);
            self.lemma_names();
            reveal_strlit("object");
        }
        let n = self.objects.len();
        let mut name = String::from_str("object");
        append_decimal(&mut name, n);
        assert(name@ =~= object_name(n as nat));
        proof {
            if has_key(self.objects@, name@) {
                let j = key_index(self.objects@, name@);
                lemma_prefixed_decimal_injective(seq!['o', 'b', 'j', 'e', 'c', 't'], j as nat, n as nat);
            }
        }
        let mut objects: Vec<(String, T)> = Vec::new();
        std::mem::swap(&mut objects, &mut self.objects);
        let ghost before = objects@;
        assoc_insert(&mut objects, name.clone(), object);
        proof {
            assert(objects@ == before.push((name, object)));
            assert forall|i: int| 0 <= i < objects@.len() implies #[trigger] objects@[i].0@ == object_name(i as nat) by {
                if i < before.len() {
                    assert(objects@[i] == before[i]);
                }
            }
        }
        self.objects = objects;
        name
    }

    /// The object stored under `name`, if any.
    pub fn get(&self, name: &str) -> (r: Option<&T>)
        ensures
            match r {
                Some(o) => self.spec_map().contains_key(name@) && self.spec_map()[name@] == *o,
                None => !self.spec_map().contains_key(name@),
            },
    {
        proof {
            use_type_invariant(self);
            self.lemma_names();
        }
        let key = String::from_str(name);
        match assoc_find(&self.objects, &key) {
            Some(i) => {
                proof {
                    lemma_assoc_view_at(self.objects@, i as int);
                }
                Some(&self.objects[i].1)
            },
            None => None,
        }
    }
}

/// Stores a DoFn in the registry of DoFns; returns the name it is stored under.
pub fn store_do_fn<T>(do_fns: &mut ObjectRegistry<T>, do_fn: T) -> (name: String)
    ensures
        name@ == object_name(old(do_fns).spec_len()),
        !old(do_fns).spec_map().contains_key(name@),
        final(do_fns).spec_map() == old(do_fns).spec_map().insert(name@, do_fn),
        final(do_fns).spec_len() == old(do_fns).spec_len() + 1,
{
    do_fns.store(do_fn)
}

/// The DoFn stored under `name`, if any.
pub fn get_do_fn<'a, T>(do_fns: &'a ObjectRegistry<T>, name: &str) -> (r: Option<&'a T>)
    ensures
        match r {
            Some(o) => do_fns.spec_map().contains_key(name@) && do_fns.spec_map()[name@] == *o,
            None => !do_fns.spec_map().contains_key(name@),
        },
{
    do_fns.get(name)
}

/// Stores a key extractor in the registry of key extractors; returns its name.
pub fn store_key_extractor<T>(extractors: &mut ObjectRegistry<T>, ke: T) -> (name: String)
    ensures
        name@ == object_name(old(extractors).spec_len()),
        !old(extractors).spec_map().contains_key(name@),
        final(extractors).spec_map() == old(extractors).spec_map().insert(name@, ke),
        final(extractors).spec_len() == old(extractors).spec_len() + 1,
{
    extractors.store(ke)
}

/// The key extractor stored under `name`, if any.
pub fn get_extractor<'a, T>(extractors: &'a ObjectRegistry<T>, name: &str) -> (r: Option<&'a T>)
    ensures
        match r {
            Some(o) => extractors.spec_map().contains_key(name@) && extractors.spec_map()[name@] == *o,
            None => !extractors.spec_map().contains_key(name@),
        },
{
    extractors.get(name)
}

/// What storing an object and then looking up its name gives back: that object.
pub proof fn lemma_store_then_get<T>(before: Map<Seq<char>, T>, after: Map<Seq<char>, T>, name: Seq<char>, object: T)
    requires
        after == before.insert(name, object),
    ensures
        after.contains_key(name),
        after[name] == object,
        forall|k: Seq<char>| k != name && before.contains_key(k) ==> #[trigger] after[k] == before[k],
{
}

} // verus!
