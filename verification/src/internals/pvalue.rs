//! Values of a pipeline under construction: the root, PCollections, and lists of them.

use vstd::prelude::*;

use crate::assoc::{assoc_insert, assoc_view, keys_distinct, lemma_assoc_view_empty};
use crate::internals::utils::{get_bad_id, spec_bad_id};
use crate::text::{
    decimal, join_strings, join_with, lemma_parse_decimal, lemma_split_join, parse_decimal,
    split_on, split_string, usize_to_string,
};

verus! {

/// What a `PValue` stands for.
#[derive(Clone, Copy, Debug, PartialEq, Eq, Structural)]
pub enum PType {
    Root,
    PCollection,
    PValueArr,
    PValueMap,
}

/// A value of the pipeline graph: the root, a PCollection (by id), or a list of
/// PCollections (their ids joined by commas).
#[derive(Debug)]
pub struct PValue {
    id: String,
    ptype: PType,
}

impl PValue {
    pub closed spec fn spec_id(&self) -> Seq<char> {
        self.id@
    }

    pub closed spec fn spec_type(&self) -> PType {
        self.ptype
    }

    pub fn new(ptype: PType, id: String) -> (r: Self)
        ensures
            r.spec_id() == id@,
            r.spec_type() == ptype,
    {
        PValue { id, ptype }
    }

    /// The root of a pipeline, under an arbitrary id.
    pub fn new_root() -> (r: Self)
        ensures
            r.spec_type() == PType::Root,
            spec_bad_id(r.spec_id()),
    {
        PValue::new(PType::Root, get_bad_id())
    }

    /// A list of PValues, identified by their ids joined with commas.
    pub fn new_array(pcolls: &[PValue]) -> (r: Self)
        requires
            pcolls@.len() >= 1,
        ensures
            r.spec_type() == PType::PValueArr,
            r.spec_id() == join_with(ids_of(pcolls@), ','),
    {
        let mut ids: Vec<String> = Vec::new();
        let mut i: usize = 0;
        while i < pcolls.len()
            invariant
                i <= pcolls@.len(),
                ids@.len() == i,
                forall|j: int| 0 <= j < i ==> #[trigger] ids@[j]@ == pcolls@[j].spec_id(),
            decreases pcolls@.len() - i,
        {
            ids.push(pcolls[i].get_id());
            i = i + 1;
        }
        proof {
            reveal_strlit(",");
        }
        let joined = join_strings(&ids, ",");
        assert(ids@.map_values(|p: String| p@) =~= ids_of(pcolls@));
        PValue::new(PType::PValueArr, joined)
    }

    pub fn get_type(&self) -> (r: &PType)
        ensures
            *r == self.spec_type(),
    {
        &self.ptype
    }

    pub fn get_id(&self) -> (r: String)
        ensures
            r@ == self.spec_id(),
    {
        self.id.clone()
    }
}

/// The ids of a list of PValues.
pub open spec fn ids_of(pcolls: Seq<PValue>) -> Seq<Seq<char>> {
    pcolls.map_values(|p: PValue| p.spec_id())
}

/// The map from the decimal numerals of `0..parts.len()` to the parts.
pub open spec fn numbered(parts: Seq<Seq<char>>) -> Map<Seq<char>, Seq<char>> {
    Map::new(
        |k: Seq<char>| exists|i: int| 0 <= i < parts.len() && k == #[trigger] decimal(i as nat),
        |k: Seq<char>| parts[parse_decimal(k) as int],
    )
}

/// The text of an optional string.
pub open spec fn opt_string_view(o: Option<String>) -> Option<Seq<char>> {
    match o {
        Some(s) => Some(s@),
        None => None,
    }
}

/// The PCollections that a PValue reaches, by name: a PCollection under `prefix`
/// (`main` when there is none), a list under the positions of its parts, the root under none.
pub open spec fn flattened(id: Seq<char>, ptype: PType, prefix: Option<Seq<char>>) -> Map<Seq<char>, Seq<char>> {
    match ptype {
        PType::PCollection => match prefix {
            Some(p) => map![p => id],
            None => map!["main"@ => id],
        },
        PType::PValueArr => numbered(split_on(id, ',')),
        _ => Map::empty(),
    }
}

/// Returns a PValue as a flat map from names to PCollection ids.
///
/// The full set of PCollections reachable by this PValue is returned, with keys
/// corresponding roughly to the path taken to get there.
pub fn flatten_pvalue(pvalue: &PValue, prefix: Option<String>) -> (r: Vec<(String, String)>)
    requires
        pvalue.spec_type() != PType::PValueMap,
    ensures
        keys_distinct(r@),
        assoc_view(r@).map_values(|s: String| s@) == flattened(
            pvalue.spec_id(),
            pvalue.spec_type(),
            opt_string_view(prefix),
        ),
{
    let mut result: Vec<(String, String)> = Vec::new();
    proof {
        lemma_assoc_view_empty(result@);
    }
    match pvalue.get_type() {
        PType::PCollection => {
            let key = match prefix {
                Some(pr) => pr,
                None => {
                    proof {
                        reveal_strlit("main");
                    }
                    String::from_str("main")
                },
            };
            let ghost k = key@;
            assoc_insert(&mut result, key, pvalue.get_id());
            assert(assoc_view(result@).map_values(|s: String| s@) =~= map![k => pvalue.spec_id()]);
        },
        PType::PValueArr => {
            let id = pvalue.get_id();
            let parts = split_string(id.as_str(), ',');
            let ghost sp = split_on(pvalue.spec_id(), ',');
            let mut i: usize = 0;
            while i < parts.len()
                invariant
                    i <= parts@.len(),
                    parts@.len() == sp.len(),
                    forall|j: int| 0 <= j < parts@.len() ==> #[trigger] parts@[j]@ == sp[j],
                    keys_distinct(result@),
                    assoc_view(result@).map_values(|s: String| s@) == numbered(sp.subrange(0, i as int)),
                decreases parts@.len() - i,
            {
                let key = usize_to_string(i);
                let value = parts[i].clone();
                let ghost old_map = assoc_view(result@).map_values(|s: String| s@);
                assoc_insert(&mut result, key, value);
                proof {
                    lemma_parse_decimal(i as nat);
                    let now = assoc_view(result@).map_values(|s: String| s@);
                    let target = numbered(sp.subrange(0, i + 1));
                    assert(now =~= old_map.insert(decimal(i as nat), sp[i as int]));
                    assert forall|k: Seq<char>| #[trigger] now.contains_key(k) == target.contains_key(k) by {
                        if target.contains_key(k) {
                            let j = choose|j: int| 0 <= j < i + 1 && k == #[trigger] decimal(j as nat);
                            if j < i {
                                assert(numbered(sp.subrange(0, i as int)).contains_key(k));
                            }
                        }
                        if now.contains_key(k) && k != decimal(i as nat) {
                            let j = choose|j: int| 0 <= j < i && k == #[trigger] decimal(j as nat);
                            assert(target.contains_key(k));
                        }
                    }
                    assert forall|k: Seq<char>| now.contains_key(k) implies #[trigger] now[k] == target[k] by {
                        let j = choose|j: int| 0 <= j < i + 1 && k == #[trigger] decimal(j as nat);
                        lemma_parse_decimal(j as nat);
                        if k != decimal(i as nat) {
                            assert(numbered(sp.subrange(0, i as int)).contains_key(k));
                        }
                    }
                    assert(now =~= target);
                }
                i = i + 1;
            }
            assert(sp.subrange(0, parts@.len() as int) =~= sp);
        },
        _ => {
            assert(assoc_view(result@).map_values(|s: String| s@) =~= Map::<Seq<char>, Seq<char>>::empty());
        },
    }
    result
}

/// Flattening a list of PValues gives back each of them under its position, when no id
/// holds a comma.
pub proof fn lemma_flatten_new_array(pcolls: Seq<PValue>)
    requires
        pcolls.len() >= 1,
        forall|i: int| 0 <= i < pcolls.len() ==> !(#[trigger] pcolls[i].spec_id()).contains(','),
    ensures
        flattened(join_with(ids_of(pcolls), ','), PType::PValueArr, None) == numbered(ids_of(pcolls)),
{
    let ids = ids_of(pcolls);
    assert forall|i: int| 0 <= i < ids.len() implies !(#[trigger] ids[i]).contains(',') by {
        assert(ids[i] == pcolls[i].spec_id());
    }
    lemma_split_join(ids, ',');
}

} // verus!
