//! The pipeline under construction: its graph of transforms and PCollections, and the
//! coders that the PCollections use.

use vstd::prelude::*;

use crate::assoc::{
    assoc_find, assoc_insert, assoc_view, has_key, key_index, keys_distinct, lemma_assoc_view_at,
    lemma_assoc_view_empty,
};
use crate::coders::{CoderUrnTree, UrnTree};
use crate::internals::pvalue::{flatten_pvalue, flattened, PType, PValue};
use crate::internals::utils::{get_bad_id, spec_bad_id};
use crate::proto;
use crate::proto::{strings_view, CoderView, FunctionSpecView, PCollectionView, PTransformView};
use crate::text::{
    append_decimal, decimal, lemma_decimal_injective, lemma_decimal_no_underscore, lemma_parse_decimal,
    lemma_prefixed_decimal_injective,
};
use crate::urns::BYTES_CODER_URN;

verus! {

/// The name made from a component prefix, a name prefix and a counter value:
/// `{component_prefix}{prefix}_{n}`.
pub open spec fn unique_name(component_prefix: Seq<char>, prefix: Seq<char>, n: nat) -> Seq<char> {
    component_prefix + prefix + seq!['_'] + decimal(n)
}

/// Names made with the same prefixes from distinct counter values are distinct.
pub proof fn lemma_unique_names_distinct(component_prefix: Seq<char>, prefix: Seq<char>, a: nat, b: nat)
    requires
        a != b,
    ensures
        unique_name(component_prefix, prefix, a) != unique_name(component_prefix, prefix, b),
{
    if unique_name(component_prefix, prefix, a) == unique_name(component_prefix, prefix, b) {
        lemma_prefixed_decimal_injective(component_prefix + prefix + seq!['_'], a, b);
    }
}

/// Names made under one component prefix are equal only when they were made from the
/// same name prefix and the same counter value.
pub proof fn lemma_unique_names_injective(
    component_prefix: Seq<char>,
    prefix1: Seq<char>,
    n1: nat,
    prefix2: Seq<char>,
    n2: nat,
)
    requires
        unique_name(component_prefix, prefix1, n1) == unique_name(component_prefix, prefix2, n2),
    ensures
        prefix1 == prefix2,
        n1 == n2,
{
    let s = unique_name(component_prefix, prefix1, n1);
    let x1 = component_prefix + prefix1 + seq!['_'];
    let x2 = component_prefix + prefix2 + seq!['_'];
    let l1 = (component_prefix + prefix1).len();
    let l2 = (component_prefix + prefix2).len();
    lemma_decimal_no_underscore(n1);
    lemma_decimal_no_underscore(n2);
    lemma_parse_decimal(n1);
    lemma_parse_decimal(n2);
    assert(s == x1 + decimal(n1));
    assert(s == x2 + decimal(n2));
    assert(x1.len() == l1 + 1 && x2.len() == l2 + 1);
    assert(s.len() == l1 + 1 + decimal(n1).len());
    assert(s.len() == l2 + 1 + decimal(n2).len());
    assert(s[l1 as int] == x1[l1 as int]);
    assert(s[l2 as int] == x2[l2 as int]);
    if l1 < l2 {
        assert(s[l2 as int] == decimal(n1)[l2 - l1 - 1]);
    }
    if l2 < l1 {
        assert(s[l1 as int] == decimal(n2)[l1 - l2 - 1]);
    }
    assert(l1 == l2);
    assert(prefix1 =~= s.subrange(component_prefix.len() as int, l1 as int));
    assert(prefix2 =~= s.subrange(component_prefix.len() as int, l2 as int));
    assert(decimal(n1) =~= s.subrange(l1 as int + 1, s.len() as int));
    assert(decimal(n2) =~= s.subrange(l2 as int + 1, s.len() as int));
    lemma_decimal_injective(n1, n2);
}

/// The id of a transform made by a pipeline is never `root`.
pub proof fn lemma_transform_id_not_root(component_prefix: Seq<char>, n: nat)
    ensures
        unique_name(component_prefix, "transform"@, n) != "root"@,
{
    reveal_strlit("transform");
    reveal_strlit("root");
    assert(unique_name(component_prefix, "transform"@, n).len() > 4);
}

/// A part of a `Pipeline` to help construct it: names made unique by a counter.
#[derive(Debug)]
pub struct PipelineContext {
    component_prefix: String,
    counter: usize,
}

impl PipelineContext {
    pub closed spec fn prefix(&self) -> Seq<char> {
        self.component_prefix@
    }

    pub closed spec fn counter(&self) -> nat {
        self.counter as nat
    }

    pub fn new(component_prefix: String) -> (r: Self)
        ensures
            r.prefix() == component_prefix@,
            r.counter() == 0,
    {
        PipelineContext { component_prefix, counter: 0 }
    }

    /// `{component_prefix}{prefix}_{counter}`; the counter then goes up by one.
    pub fn create_unique_name(&mut self, prefix: String) -> (r: String)
        requires
            old(self).counter() < usize::MAX,
        ensures
            r@ == unique_name(old(self).prefix(), prefix@, old(self).counter()),
            r@ == old(self).prefix() + prefix@ + seq!['_'] + decimal(old(self).counter()),
            final(self).counter() == old(self).counter() + 1,
            final(self).prefix() == old(self).prefix(),
    {
        let n = self.get_and_increment_counter();
        let mut name = self.component_prefix.clone();
        name.append(prefix.as_str());
        proof {
            reveal_strlit("_");
        }
        name.append("_");
        append_decimal(&mut name, n);
        name
    }

    fn get_and_increment_counter(&mut self) -> (r: usize)
        requires
            old(self).counter() < usize::MAX,
        ensures
            r == old(self).counter(),
            final(self).counter() == old(self).counter() + 1,
            final(self).prefix() == old(self).prefix(),
    {
        self.counter = self.counter + 1;
        self.counter - 1
    }
}

/// The id under which the `n`-th distinct coder is registered: `coder_{n}`.
pub open spec fn coder_id(n: nat) -> Seq<char> {
    seq!['c', 'o', 'd', 'e', 'r', '_'] + decimal(n)
}

/// Registering the coder `c` among `coders`, `counter` distinct coders having been
/// registered: the coders afterwards, the counter afterwards, and the id of `c`. A coder
/// already present keeps its id and nothing changes; otherwise it is added as
/// `coder_{counter + 1}`.
pub open spec fn registered(coders: Map<Seq<char>, CoderView>, counter: nat, c: CoderView) -> (
    Map<Seq<char>, CoderView>,
    nat,
    Seq<char>,
) {
    if exists|k: Seq<char>| #[trigger] coders.contains_key(k) && coders[k] == c {
        (coders, counter, choose|k: Seq<char>| #[trigger] coders.contains_key(k) && coders[k] == c)
    } else {
        (coders.insert(coder_id(counter + 1), c), counter + 1, coder_id(counter + 1))
    }
}

/// The coder that stands for the URN tree `t`, with the coders and counter after its
/// components are registered, one after the other, depth first.
pub open spec fn tree_proto(coders: Map<Seq<char>, CoderView>, counter: nat, t: UrnTree) -> (
    Map<Seq<char>, CoderView>,
    nat,
    CoderView,
)
    decreases t,
{
    let f = forest_ids(coders, counter, t.components);
    (
        f.0,
        f.1,
        CoderView {
            spec: Some(FunctionSpecView { urn: t.urn, payload: Seq::empty() }),
            component_coder_ids: f.2,
        },
    )
}

/// The coders, counter and ids after the coders standing for the trees `ts` are
/// registered in order.
pub open spec fn forest_ids(coders: Map<Seq<char>, CoderView>, counter: nat, ts: Seq<UrnTree>) -> (
    Map<Seq<char>, CoderView>,
    nat,
    Seq<Seq<char>>,
)
    decreases ts,
{
    if ts.len() == 0 {
        (coders, counter, Seq::empty())
    } else {
        let init = forest_ids(coders, counter, ts.subrange(0, ts.len() - 1));
        let last = tree_proto(init.0, init.1, ts[ts.len() - 1]);
        let reg = registered(last.0, last.1, last.2);
        (reg.0, reg.1, init.2.push(reg.2))
    }
}

/// `id` names, in `coders`, a coder with the URN of `t` and no payload, whose component
/// coders name the components of `t` in turn.
pub open spec fn represents(coders: Map<Seq<char>, CoderView>, id: Seq<char>, t: UrnTree) -> bool
    decreases t,
{
    &&& coders.contains_key(id)
    &&& coders[id].spec == Some(FunctionSpecView { urn: t.urn, payload: Seq::empty() })
    &&& coders[id].component_coder_ids.len() == t.components.len()
    &&& forall|i: int|
        0 <= i < t.components.len() ==> represents(
            coders,
            coders[id].component_coder_ids[i],
            #[trigger] t.components[i],
        )
}

/// Every coder of `c1` is in `c2`, under the same id.
pub open spec fn coders_grow(c1: Map<Seq<char>, CoderView>, c2: Map<Seq<char>, CoderView>) -> bool {
    forall|k: Seq<char>| #[trigger] c1.contains_key(k) ==> c2.contains_key(k) && c2[k] == c1[k]
}

/// Growing coders twice is growing them.
pub proof fn lemma_coders_grow_trans(
    a: Map<Seq<char>, CoderView>,
    b: Map<Seq<char>, CoderView>,
    c: Map<Seq<char>, CoderView>,
)
    requires
        coders_grow(a, b),
        coders_grow(b, c),
    ensures
        coders_grow(a, c),
{
    assert forall|k: Seq<char>| #[trigger] a.contains_key(k) implies c.contains_key(k) && c[k] == a[k] by {
        assert(b.contains_key(k));
    }
}

/// Adding coders keeps what an id represents.
pub proof fn lemma_represents_grow(
    c1: Map<Seq<char>, CoderView>,
    c2: Map<Seq<char>, CoderView>,
    id: Seq<char>,
    t: UrnTree,
)
    requires
        represents(c1, id, t),
        coders_grow(c1, c2),
    ensures
        represents(c2, id, t),
    decreases t,
{
    assert forall|i: int| 0 <= i < t.components.len() implies represents(
        c2,
        c2[id].component_coder_ids[i],
        #[trigger] t.components[i],
    ) by {
        lemma_represents_grow(c1, c2, c1[id].component_coder_ids[i], t.components[i]);
    }
}

/// The number of coders in a URN tree.
pub open spec fn coder_tree_size(t: UrnTree) -> nat
    decreases t,
{
    1 + forest_size(t.components)
}

/// The number of coders in a list of URN trees.
pub open spec fn forest_size(ts: Seq<UrnTree>) -> nat
    decreases ts,
{
    if ts.len() == 0 {
        0
    } else {
        forest_size(ts.subrange(0, ts.len() - 1)) + coder_tree_size(ts[ts.len() - 1])
    }
}

/// A prefix of a list of trees holds no more coders than the list.
pub proof fn lemma_forest_prefix_bound(ts: Seq<UrnTree>, n: nat)
    requires
        n <= ts.len(),
    ensures
        forest_size(ts.subrange(0, n as int)) <= forest_size(ts),
    decreases ts.len() - n,
{
    if n < ts.len() {
        lemma_forest_prefix_bound(ts, n + 1);
        assert(ts.subrange(0, (n + 1) as int).subrange(0, n as int) =~= ts.subrange(0, n as int));
    } else {
        assert(ts.subrange(0, n as int) =~= ts);
    }
}

/// A transform with `child` added to its subtransforms.
pub open spec fn with_subtransform(t: PTransformView, child: Seq<char>) -> PTransformView {
    PTransformView {
        unique_name: t.unique_name,
        spec: t.spec,
        subtransforms: t.subtransforms.push(child),
        inputs: t.inputs,
        outputs: t.outputs,
        environment_id: t.environment_id,
    }
}

/// A transform with `outputs` as its outputs.
pub open spec fn with_outputs(t: PTransformView, outputs: Map<Seq<char>, Seq<char>>) -> PTransformView {
    PTransformView {
        unique_name: t.unique_name,
        spec: t.spec,
        subtransforms: t.subtransforms,
        inputs: t.inputs,
        outputs,
        environment_id: t.environment_id,
    }
}

/// A transform just applied: named `name`, reading the PCollections that `input` reaches,
/// with no spec, subtransforms or outputs yet.
pub open spec fn new_transform(name: Seq<char>, input: PValue, environment_id: Seq<char>) -> PTransformView {
    PTransformView {
        unique_name: name,
        spec: None,
        subtransforms: Seq::empty(),
        inputs: flattened(input.spec_id(), input.spec_type(), None),
        outputs: Map::empty(),
        environment_id,
    }
}

/// The bytes coder, without payload or components.
pub open spec fn bytes_coder_view() -> CoderView {
    CoderView {
        spec: Some(FunctionSpecView { urn: BYTES_CODER_URN@, payload: Seq::empty() }),
        component_coder_ids: Seq::empty(),
    }
}

/// The id that the bytes coder gets in a pipeline with `coders` and `coder_counter`:
/// its present id, or the next one.
pub open spec fn root_coder_id(coders: Map<Seq<char>, CoderView>, coder_counter: nat) -> Seq<char> {
    if exists|k: Seq<char>| #[trigger] coders.contains_key(k) && coders[k] == bytes_coder_view() {
        choose|k: Seq<char>| #[trigger] coders.contains_key(k) && coders[k] == bytes_coder_view()
    } else {
        coder_id(coder_counter + 1)
    }
}

/// The root transform: no spec, no inputs, one output `out`.
pub open spec fn root_transform(pcoll_name: Seq<char>) -> PTransformView {
    PTransformView {
        unique_name: "root"@,
        spec: None,
        subtransforms: Seq::empty(),
        inputs: Map::empty(),
        outputs: map!["out"@ => pcoll_name],
        environment_id: Seq::empty(),
    }
}

/// Whether `k` is listed among the top-level transforms `roots` or among the
/// subtransforms of some transform.
pub open spec fn listed(transforms: Map<Seq<char>, PTransformView>, roots: Seq<Seq<char>>, k: Seq<char>) -> bool {
    roots.contains(k) || exists|p: Seq<char>| #[trigger] transforms.contains_key(p) && transforms[p].subtransforms.contains(k)
}

/// Every transform but `root` sits exactly once either in the list of top-level
/// transforms or among the subtransforms of one parent; every id listed is a transform;
/// `root` is not listed and has no subtransforms.
pub open spec fn placed_once(transforms: Map<Seq<char>, PTransformView>, roots: Seq<Seq<char>>) -> bool {
    &&& roots.no_duplicates()
    &&& forall|p: Seq<char>| #[trigger] transforms.contains_key(p) ==> transforms[p].subtransforms.no_duplicates()
    &&& forall|p: Seq<char>, k: Seq<char>|
        transforms.contains_key(p) && #[trigger] transforms[p].subtransforms.contains(k) ==> !roots.contains(k)
    &&& forall|p1: Seq<char>, p2: Seq<char>, k: Seq<char>|
        transforms.contains_key(p1) && transforms.contains_key(p2) && p1 != p2
            && #[trigger] transforms[p1].subtransforms.contains(k) ==> !#[trigger] transforms[p2].subtransforms.contains(k)
    &&& forall|k: Seq<char>| #[trigger] listed(transforms, roots, k) ==> transforms.contains_key(k) && k != "root"@
    &&& forall|k: Seq<char>| #[trigger] transforms.contains_key(k) && k != "root"@ ==> listed(transforms, roots, k)
    &&& transforms.contains_key("root"@) ==> transforms["root"@].subtransforms.len() == 0
}

/// A new top-level transform keeps every transform placed once.
proof fn lemma_placed_new_root_child(
    transforms: Map<Seq<char>, PTransformView>,
    roots: Seq<Seq<char>>,
    id: Seq<char>,
    v: PTransformView,
)
    requires
        placed_once(transforms, roots),
        !transforms.contains_key(id),
        id != "root"@,
        v.subtransforms.len() == 0,
    ensures
        placed_once(transforms.insert(id, v), roots.push(id)),
{
    let t2 = transforms.insert(id, v);
    let r2 = roots.push(id);
    assert(!listed(transforms, roots, id));
    assert(r2.no_duplicates()) by {
        assert forall|a: int, b: int| 0 <= a < r2.len() && 0 <= b < r2.len() && a != b implies r2[a] != r2[b] by {
            if a < roots.len() && b < roots.len() {
            } else if a < roots.len() {
                assert(roots.contains(r2[a]));
            } else {
                assert(roots.contains(r2[b]));
            }
        }
    }
    assert forall|p: Seq<char>, k: Seq<char>| t2.contains_key(p) && #[trigger] t2[p].subtransforms.contains(k) implies !r2.contains(k) by {
        assert(p != id);
        assert(transforms.contains_key(p) && transforms[p].subtransforms.contains(k));
        assert(listed(transforms, roots, k));
        if r2.contains(k) {
            let j = choose|j: int| 0 <= j < r2.len() && r2[j] == k;
            if j < roots.len() {
                assert(roots.contains(k));
            }
        }
    }
    assert forall|k: Seq<char>| #[trigger] listed(t2, r2, k) implies t2.contains_key(k) && k != "root"@ by {
        if k != id {
            if r2.contains(k) {
                let j = choose|j: int| 0 <= j < r2.len() && r2[j] == k;
                assert(roots[j] == k);
                assert(listed(transforms, roots, k));
            } else {
                let p = choose|p: Seq<char>| #[trigger] t2.contains_key(p) && t2[p].subtransforms.contains(k);
                assert(p != id);
                assert(listed(transforms, roots, k));
            }
        }
    }
    assert forall|k: Seq<char>| #[trigger] t2.contains_key(k) && k != "root"@ implies listed(t2, r2, k) by {
        if k == id {
            assert(r2[roots.len() as int] == id);
        } else {
            assert(listed(transforms, roots, k));
            if roots.contains(k) {
                let j = choose|j: int| 0 <= j < roots.len() && roots[j] == k;
                assert(r2[j] == k);
            } else {
                let p = choose|p: Seq<char>| #[trigger] transforms.contains_key(p) && transforms[p].subtransforms.contains(k);
                assert(t2.contains_key(p) && t2[p].subtransforms.contains(k));
            }
        }
    }
}

/// A new subtransform of `parent` keeps every transform placed once.
proof fn lemma_placed_new_child(
    transforms: Map<Seq<char>, PTransformView>,
    roots: Seq<Seq<char>>,
    parent: Seq<char>,
    id: Seq<char>,
    v: PTransformView,
)
    requires
        placed_once(transforms, roots),
        transforms.contains_key(parent),
        parent != "root"@,
        !transforms.contains_key(id),
        id != "root"@,
        v.subtransforms.len() == 0,
    ensures
        placed_once(transforms.insert(parent, with_subtransform(transforms[parent], id)).insert(id, v), roots),
{
    let t1 = transforms.insert(parent, with_subtransform(transforms[parent], id));
    let t2 = t1.insert(id, v);
    assert(!listed(transforms, roots, id));
    assert(parent != id);
    let ps = transforms[parent].subtransforms;
    assert(t2[parent].subtransforms == ps.push(id));
    assert(!ps.contains(id));
    assert(!roots.contains(id));
    assert(ps.push(id).no_duplicates()) by {
        assert forall|a: int, b: int| 0 <= a < ps.len() + 1 && 0 <= b < ps.len() + 1 && a != b implies ps.push(id)[a]
            != ps.push(id)[b] by {
            if a < ps.len() && b < ps.len() {
            } else if a < ps.len() {
                assert(ps.contains(ps[a]));
            } else {
                assert(ps.contains(ps[b]));
            }
        }
    }
    assert forall|p: Seq<char>| #[trigger] t2.contains_key(p) implies t2[p].subtransforms.no_duplicates() by {
        if p != parent && p != id {
            assert(transforms.contains_key(p));
        }
    }
    assert forall|p: Seq<char>, k: Seq<char>| t2.contains_key(p) && #[trigger] t2[p].subtransforms.contains(k) implies !roots.contains(k) by {
        assert(p != id);
        if p == parent {
            if k != id {
                let j = choose|j: int| 0 <= j < ps.len() + 1 && ps.push(id)[j] == k;
                assert(ps[j] == k);
                assert(transforms[parent].subtransforms.contains(k));
            }
        } else {
            assert(transforms[p].subtransforms.contains(k));
        }
    }
    assert forall|p1: Seq<char>, p2: Seq<char>, k: Seq<char>|
        t2.contains_key(p1) && t2.contains_key(p2) && p1 != p2 && #[trigger] t2[p1].subtransforms.contains(k) implies !#[trigger] t2[p2].subtransforms.contains(
        k,
    ) by {
        if p1 != id && p2 != id && t2[p2].subtransforms.contains(k) {
            if k == id {
                if p1 != parent {
                    assert(transforms[p1].subtransforms.contains(id));
                    assert(listed(transforms, roots, id));
                } else {
                    assert(transforms[p2].subtransforms.contains(id));
                    assert(listed(transforms, roots, id));
                }
            } else {
                if p1 == parent {
                    let j = choose|j: int| 0 <= j < ps.len() + 1 && ps.push(id)[j] == k;
                    assert(ps[j] == k);
                    assert(transforms[parent].subtransforms.contains(k));
                    assert(transforms[p2].subtransforms.contains(k));
                } else if p2 == parent {
                    let j = choose|j: int| 0 <= j < ps.len() + 1 && ps.push(id)[j] == k;
                    assert(ps[j] == k);
                    assert(transforms[parent].subtransforms.contains(k));
                    assert(transforms[p1].subtransforms.contains(k));
                } else {
                    assert(transforms[p1].subtransforms.contains(k));
                    assert(transforms[p2].subtransforms.contains(k));
                }
            }
        }
    }
    assert forall|k: Seq<char>| #[trigger] listed(t2, roots, k) implies t2.contains_key(k) && k != "root"@ by {
        if k != id {
            if roots.contains(k) {
                assert(listed(transforms, roots, k));
            } else {
                let p = choose|p: Seq<char>| #[trigger] t2.contains_key(p) && t2[p].subtransforms.contains(k);
                assert(p != id);
                if p == parent {
                    let j = choose|j: int| 0 <= j < ps.len() + 1 && ps.push(id)[j] == k;
                    assert(ps[j] == k);
                    assert(transforms[parent].subtransforms.contains(k));
                } else {
                    assert(transforms[p].subtransforms.contains(k));
                }
                assert(listed(transforms, roots, k));
            }
        }
    }
    assert forall|k: Seq<char>| #[trigger] t2.contains_key(k) && k != "root"@ implies listed(t2, roots, k) by {
        if k == id {
            assert(ps.push(id)[ps.len() as int] == id);
            assert(t2.contains_key(parent) && t2[parent].subtransforms.contains(id));
        } else {
            assert(listed(transforms, roots, k));
            if !roots.contains(k) {
                let p = choose|p: Seq<char>| #[trigger] transforms.contains_key(p) && transforms[p].subtransforms.contains(k);
                if p == parent {
                    let j = choose|j: int| 0 <= j < ps.len() && ps[j] == k;
                    assert(ps.push(id)[j] == k);
                }
                assert(t2.contains_key(p) && t2[p].subtransforms.contains(k));
            }
        }
    }
}

/// Replacing a transform by one with the same subtransforms keeps every transform
/// placed once.
proof fn lemma_placed_replace(
    transforms: Map<Seq<char>, PTransformView>,
    roots: Seq<Seq<char>>,
    k0: Seq<char>,
    v: PTransformView,
)
    requires
        placed_once(transforms, roots),
        transforms.contains_key(k0) || (k0 == "root"@ && v.subtransforms.len() == 0),
        transforms.contains_key(k0) ==> v.subtransforms == transforms[k0].subtransforms,
    ensures
        placed_once(transforms.insert(k0, v), roots),
{
    let t2 = transforms.insert(k0, v);
    assert forall|p: Seq<char>| #[trigger] t2.contains_key(p) implies t2[p].subtransforms.no_duplicates() by {
        if p != k0 {
            assert(transforms.contains_key(p));
        }
    }
    assert forall|p: Seq<char>, k: Seq<char>| t2.contains_key(p) && #[trigger] t2[p].subtransforms.contains(k) implies !roots.contains(k) by {
        assert(transforms[p].subtransforms.contains(k));
    }
    assert forall|p1: Seq<char>, p2: Seq<char>, k: Seq<char>|
        t2.contains_key(p1) && t2.contains_key(p2) && p1 != p2 && #[trigger] t2[p1].subtransforms.contains(k) implies !#[trigger] t2[p2].subtransforms.contains(
        k,
    ) by {
        assert(transforms[p1].subtransforms.contains(k));
        if t2[p2].subtransforms.contains(k) {
            assert(transforms[p2].subtransforms.contains(k));
        }
    }
    assert forall|k: Seq<char>| #[trigger] listed(t2, roots, k) implies t2.contains_key(k) && k != "root"@ by {
        if !roots.contains(k) {
            let p = choose|p: Seq<char>| #[trigger] t2.contains_key(p) && t2[p].subtransforms.contains(k);
            assert(transforms[p].subtransforms.contains(k));
        }
        assert(listed(transforms, roots, k));
    }
    assert forall|k: Seq<char>| #[trigger] t2.contains_key(k) && k != "root"@ implies listed(t2, roots, k) by {
        if k == k0 {
            assert(transforms.contains_key(k0));
        }
        assert(listed(transforms, roots, k));
        if !roots.contains(k) {
            let p = choose|p: Seq<char>| #[trigger] transforms.contains_key(p) && transforms[p].subtransforms.contains(k);
            assert(t2.contains_key(p) && t2[p].subtransforms.contains(k));
        }
    }
}

/// Corresponds to the `Pipeline` in the Runner API's proto, with what is needed to build it.
#[derive(Debug)]
pub struct Pipeline {
    context: PipelineContext,
    default_environment: String,
    proto: proto::Pipeline,
    transform_stack: Vec<String>,
    used_stage_names: Vec<String>,
    coder_proto_counter: usize,
}

impl Pipeline {
    /// The coders of the pipeline by id.
    pub closed spec fn coders(&self) -> Map<Seq<char>, CoderView> {
        assoc_view(self.proto.components.coders@).map_values(|c: proto::Coder| c.view())
    }

    /// The transforms of the pipeline by id.
    pub closed spec fn transforms(&self) -> Map<Seq<char>, PTransformView> {
        assoc_view(self.proto.components.transforms@).map_values(|t: proto::PTransform| t.view())
    }

    /// The PCollections of the pipeline by id.
    pub closed spec fn pcollections(&self) -> Map<Seq<char>, PCollectionView> {
        assoc_view(self.proto.components.pcollections@).map_values(|p: proto::PCollection| p.view())
    }

    /// The ids of the top-level transforms, in the order they were applied.
    pub closed spec fn root_transform_ids(&self) -> Seq<Seq<char>> {
        strings_view(self.proto.root_transform_ids@)
    }

    /// The ids of the transforms being expanded, innermost last.
    pub closed spec fn transform_stack(&self) -> Seq<Seq<char>> {
        strings_view(self.transform_stack@)
    }

    /// The unique names of the stages applied so far.
    pub closed spec fn used_stage_names(&self) -> Set<Seq<char>> {
        strings_view(self.used_stage_names@).to_set()
    }

    /// How many names have been made for transforms and PCollections.
    pub closed spec fn name_counter(&self) -> nat {
        self.context.counter()
    }

    /// How many distinct coders have been registered.
    pub closed spec fn coder_counter(&self) -> nat {
        self.coder_proto_counter as nat
    }

    pub closed spec fn component_prefix(&self) -> Seq<char> {
        self.context.prefix()
    }

    pub closed spec fn default_environment(&self) -> Seq<char> {
        self.default_environment@
    }

    /// The internal invariant of the pipeline: the invariant of its parts, and every
    /// transform placed once in the graph.
    pub closed spec fn wf(&self) -> bool {
        &&& self.wf_core()
        &&& placed_once(self.transforms(), self.root_transform_ids())
    }

    /// The invariant of the parts of the pipeline: distinct keys, the ids still to be made
    /// free, the transforms being expanded registered.
    closed spec fn wf_core(&self) -> bool {
        let coders = self.proto.components.coders@;
        let transforms = self.proto.components.transforms@;
        let pcollections = self.proto.components.pcollections@;
        &&& keys_distinct(coders)
        &&& forall|i: int, j: int|
            0 <= i < j < coders.len() ==> (#[trigger] coders[i]).1.view() != (#[trigger] coders[j]).1.view()
        &&& keys_distinct(transforms)
        &&& keys_distinct(pcollections)
        &&& forall|i: int| 0 <= i < transforms.len() ==> (#[trigger] transforms[i]).1.wf()
        &&& forall|i: int|
            0 <= i < self.transform_stack@.len() ==> has_key(transforms, #[trigger] self.transform_stack@[i]@)
        &&& forall|i: int| 0 <= i < self.transform_stack@.len() ==> #[trigger] self.transform_stack@[i]@ != "root"@
        &&& self.proto.components.windowing_strategies@.len() == 0
        &&& self.proto.components.environments@.len() == 0
        &&& forall|i: int, j: nat|
            0 <= i < coders.len() && j > self.coder_proto_counter ==> #[trigger] coders[i].0@ != #[trigger] coder_id(j)
        &&& forall|i: int, j: nat|
            0 <= i < transforms.len() && j >= self.context.counter() ==> #[trigger] transforms[i].0@
                != #[trigger] unique_name(self.context.prefix(), "transform"@, j)
        &&& forall|i: int, j: nat|
            0 <= i < pcollections.len() && j >= self.context.counter() ==> #[trigger] pcollections[i].0@
                != #[trigger] unique_name(self.context.prefix(), "pc"@, j)
        &&& forall|i: int, j: nat|
            0 <= i < transforms.len() && j >= self.context.counter() ==> #[trigger] transforms[i].0@
                != #[trigger] unique_name(self.context.prefix(), "pc"@, j)
    }

    /// In a pipeline, every transform but `root` sits exactly once either among the
    /// top-level transforms or among the subtransforms of one parent, and only transforms
    /// are listed; the transforms being expanded are transforms.
    pub proof fn lemma_placed_once(&self)
        requires
            self.wf(),
        ensures
            placed_once(self.transforms(), self.root_transform_ids()),
            forall|i: int|
                0 <= i < self.transform_stack().len() ==> self.transforms().contains_key(
                    #[trigger] self.transform_stack()[i],
                ),
    {
        assert forall|i: int| 0 <= i < self.transform_stack().len() implies self.transforms().contains_key(
            #[trigger] self.transform_stack()[i],
        ) by {
            assert(self.transform_stack()[i] == self.transform_stack@[i]@);
        }
    }

    /// A new pipeline, with empty components.
    pub fn new(component_prefix: String) -> (r: Self)
        ensures
            r.wf(),
            r.coders() == Map::<Seq<char>, CoderView>::empty(),
            r.transforms() == Map::<Seq<char>, PTransformView>::empty(),
            r.pcollections() == Map::<Seq<char>, PCollectionView>::empty(),
            r.root_transform_ids() == Seq::<Seq<char>>::empty(),
            r.transform_stack() == Seq::<Seq<char>>::empty(),
            r.used_stage_names() == Set::<Seq<char>>::empty(),
            r.name_counter() == 0,
            r.coder_counter() == 0,
            r.component_prefix() == component_prefix@,
            r.default_environment() == component_prefix@ + "rustEnvironment"@,
    {
        let mut default_environment = component_prefix.clone();
        default_environment.append("rustEnvironment");
        let components = proto::Components {
            transforms: Vec::new(),
            pcollections: Vec::new(),
            windowing_strategies: Vec::new(),
            coders: Vec::new(),
            environments: Vec::new(),
        };
        let proto = proto::Pipeline { components, root_transform_ids: Vec::new() };
        let r = Pipeline {
            context: PipelineContext::new(component_prefix),
            default_environment,
            proto,
            transform_stack: Vec::new(),
            used_stage_names: Vec::new(),
            coder_proto_counter: 0,
        };
        proof {
            lemma_assoc_view_empty(r.proto.components.coders@);
            lemma_assoc_view_empty(r.proto.components.transforms@);
            lemma_assoc_view_empty(r.proto.components.pcollections@);
            assert(r.coders() =~= Map::<Seq<char>, CoderView>::empty());
            assert(r.transforms() =~= Map::<Seq<char>, PTransformView>::empty());
            assert(r.pcollections() =~= Map::<Seq<char>, PCollectionView>::empty());
            assert(r.root_transform_ids() =~= Seq::<Seq<char>>::empty());
            assert(r.transform_stack() =~= Seq::<Seq<char>>::empty());
            assert(r.used_stage_names() =~= Set::<Seq<char>>::empty());
        }
        r
    }

    /// The pipeline proto built so far.
    pub fn get_proto(&self) -> (r: &proto::Pipeline)
        ensures
            assoc_view(r.components.coders@).map_values(|c: proto::Coder| c.view()) == self.coders(),
            assoc_view(r.components.transforms@).map_values(|t: proto::PTransform| t.view())
                == self.transforms(),
            assoc_view(r.components.pcollections@).map_values(|p: proto::PCollection| p.view())
                == self.pcollections(),
            strings_view(r.root_transform_ids@) == self.root_transform_ids(),
            self.wf() ==> r.components.windowing_strategies@.len() == 0,
            self.wf() ==> r.components.environments@.len() == 0,
    {
        &self.proto
    }

    /// Everything but the coders and their counter is as in `other`.
    pub open spec fn same_graph(&self, other: &Pipeline) -> bool {
        &&& self.transforms() == other.transforms()
        &&& self.pcollections() == other.pcollections()
        &&& self.root_transform_ids() == other.root_transform_ids()
        &&& self.transform_stack() == other.transform_stack()
        &&& self.used_stage_names() == other.used_stage_names()
        &&& self.name_counter() == other.name_counter()
        &&& self.component_prefix() == other.component_prefix()
        &&& self.default_environment() == other.default_environment()
    }

    /// Every coder of `other` is a coder of `self`, under the same id.
    pub open spec fn keeps_coders_of(&self, other: &Pipeline) -> bool {
        forall|k: Seq<char>|
            other.coders().contains_key(k) ==> self.coders().contains_key(k) && #[trigger] self.coders()[k]
                == other.coders()[k]
    }

    /// If the `coder_proto` is already registered, return its ID.
    /// Else, the `coder_proto` is registered and its newly-created ID is returned.
    pub fn get_coder_id(&mut self, coder_proto: proto::Coder) -> (r: String)
        requires
            old(self).wf(),
            old(self).coder_counter() < usize::MAX,
        ensures
            final(self).wf(),
            final(self).same_graph(old(self)),
            final(self).coders().contains_key(r@),
            final(self).coders()[r@] == coder_proto.view(),
            forall|k: Seq<char>|
                #[trigger] old(self).coders().contains_key(k) && old(self).coders()[k] == coder_proto.view() ==> r@ == k,
            final(self).coders() == registered(old(self).coders(), old(self).coder_counter(), coder_proto.view()).0,
            final(self).coder_counter() == registered(old(self).coders(), old(self).coder_counter(), coder_proto.view()).1,
            r@ == registered(old(self).coders(), old(self).coder_counter(), coder_proto.view()).2,
            coders_grow(old(self).coders(), final(self).coders()),
            old(self).coders().contains_key(r@) ==> final(self).coders() == old(self).coders()
                && final(self).coder_counter() == old(self).coder_counter(),
            !old(self).coders().contains_key(r@) ==> {
                &&& r@ == coder_id(old(self).coder_counter() + 1)
                &&& final(self).coder_counter() == old(self).coder_counter() + 1
                &&& final(self).coders() == old(self).coders().insert(r@, coder_proto.view())
                &&& forall|k: Seq<char>|
                    old(self).coders().contains_key(k) ==> #[trigger] old(self).coders()[k]
                        != coder_proto.view()
            },
    {
        let ghost view = coder_proto.view();
        let mut i: usize = 0;
        while i < self.proto.components.coders.len()
            invariant
                self.wf(),
                *self == *old(self),
                view == coder_proto.view(),
                i <= self.proto.components.coders@.len(),
                forall|j: int| 0 <= j < i ==> (#[trigger] self.proto.components.coders@[j]).1.view() != view,
            decreases self.proto.components.coders@.len() - i,
        {
            if self.proto.components.coders[i].1.same(&coder_proto) {
                let id = self.proto.components.coders[i].0.clone();
                proof {
                    let coders = self.proto.components.coders@;
                    lemma_assoc_view_at(coders, i as int);
                    assert forall|k: Seq<char>| #[trigger] self.coders().contains_key(k) && self.coders()[k] == view implies id@ == k by {
                        let j = key_index(coders, k);
                        lemma_assoc_view_at(coders, j);
                        if j != i as int {
                            if j < i {
                                assert(coders[j].1.view() != coders[i as int].1.view());
                            } else {
                                assert(coders[i as int].1.view() != coders[j].1.view());
                            }
                        }
                    }
                    assert(self.coders().contains_key(id@) && self.coders()[id@] == view);
                    let k0 = choose|k: Seq<char>| #[trigger] self.coders().contains_key(k) && self.coders()[k] == view;
                    assert(id@ == k0);
                }
                return id;
            }
            i = i + 1;
        }
        proof {
            let coders = self.proto.components.coders@;
            assert forall|k: Seq<char>| self.coders().contains_key(k) implies #[trigger] self.coders()[k] != view by {
                let j = key_index(coders, k);
                lemma_assoc_view_at(coders, j);
            }
        }
        self.coder_proto_counter = self.coder_proto_counter + 1;
        let mut new_coder_id = String::from_str("coder_");
        proof {
            reveal_strlit("coder_");
        }
        append_decimal(&mut new_coder_id, self.coder_proto_counter);
        let ghost n = self.coder_proto_counter as nat;
        assert(new_coder_id@ =~= coder_id(n));
        let ghost before = *self;
        assoc_insert(&mut self.proto.components.coders, new_coder_id.clone(), coder_proto);
        proof {
            let coders = self.proto.components.coders@;
            let old_coders = before.proto.components.coders@;
            assert(!has_key(old_coders, new_coder_id@)) by {
                if has_key(old_coders, new_coder_id@) {
                    let j0 = key_index(old_coders, new_coder_id@);
                    assert(old_coders[j0].0@ != coder_id(n));
                }
            }
            assert(coders == old_coders.push((new_coder_id, coder_proto)));
            assert forall|a: int, b: int| 0 <= a < b < coders.len() implies (#[trigger] coders[a]).1.view() != (#[trigger] coders[b]).1.view() by {
                if b < old_coders.len() {
                    assert(old_coders[a] == coders[a] && old_coders[b] == coders[b]);
                } else {
                    assert(old_coders[a] == coders[a]);
                    assert(old_coders[a].1.view() != view);
                }
            }
            assert forall|i: int, j: nat|
                0 <= i < coders.len() && j > self.coder_proto_counter implies #[trigger] coders[i].0@
                != #[trigger] coder_id(j) by {
                if i < old_coders.len() {
                    assert(old_coders[i] == coders[i]);
                } else {
                    if coder_id(n) == coder_id(j) {
                        lemma_prefixed_decimal_injective(seq!['c', 'o', 'd', 'e', 'r', '_'], n, j);
                    }
                }
            }
            assert(self.coders() =~= before.coders().insert(new_coder_id@, view));
            assert(!exists|k: Seq<char>| #[trigger] before.coders().contains_key(k) && before.coders()[k] == view);
        }
        new_coder_id
    }

    /// Recursively construct a coder (and its component coders) in protocol buffer
    /// representation for the Runner API. The component coders are registered in the
    /// pipeline; the coder itself is returned, not registered.
    pub fn coder_to_proto(&mut self, coder_urn_tree: &CoderUrnTree) -> (r: proto::Coder)
        requires
            old(self).wf(),
            old(self).coder_counter() + coder_tree_size(coder_urn_tree.spec_tree()) <= usize::MAX,
        ensures
            final(self).wf(),
            final(self).same_graph(old(self)),
            coders_grow(old(self).coders(), final(self).coders()),
            final(self).coder_counter() + 1 <= old(self).coder_counter() + coder_tree_size(
                coder_urn_tree.spec_tree(),
            ),
            r.view().spec == Some(FunctionSpecView { urn: coder_urn_tree.coder_urn@, payload: Seq::empty() }),
            r.view().component_coder_ids.len() == coder_urn_tree.spec_tree().components.len(),
            forall|i: int|
                0 <= i < coder_urn_tree.spec_tree().components.len() ==> represents(
                    final(self).coders(),
                    r.view().component_coder_ids[i],
                    #[trigger] coder_urn_tree.spec_tree().components[i],
                ),
            final(self).coders() == tree_proto(old(self).coders(), old(self).coder_counter(), coder_urn_tree.spec_tree()).0,
            final(self).coder_counter() == tree_proto(
                old(self).coders(),
                old(self).coder_counter(),
                coder_urn_tree.spec_tree(),
            ).1,
            r.view() == tree_proto(old(self).coders(), old(self).coder_counter(), coder_urn_tree.spec_tree()).2,
        decreases coder_urn_tree.spec_tree(),
    {
        let ghost tree = coder_urn_tree.spec_tree();
        let ghost start = *self;
        let mut component_coder_ids: Vec<String> = Vec::new();
        let n = coder_urn_tree.component_coder_urns.len();
        let mut i: usize = 0;
        while i < n
            invariant
                n == coder_urn_tree.component_coder_urns@.len(),
                tree == coder_urn_tree.spec_tree(),
                tree.components.len() == n,
                i <= n,
                self.wf(),
                self.same_graph(&start),
                start == *old(self),
                coders_grow(start.coders(), self.coders()),
                start.coder_counter() + coder_tree_size(tree) <= usize::MAX,
                self.coder_counter() <= start.coder_counter() + forest_size(tree.components.subrange(0, i as int)),
                component_coder_ids@.len() == i,
                forall|j: int|
                    0 <= j < i ==> represents(self.coders(), component_coder_ids@[j]@, #[trigger] tree.components[j]),
                self.coders() == forest_ids(start.coders(), start.coder_counter(), tree.components.subrange(0, i as int)).0,
                self.coder_counter() == forest_ids(start.coders(), start.coder_counter(), tree.components.subrange(0, i as int)).1,
                strings_view(component_coder_ids@) == forest_ids(
                    start.coders(),
                    start.coder_counter(),
                    tree.components.subrange(0, i as int),
                ).2,
            decreases n - i,
        {
            let ghost before = *self;
            let child = &coder_urn_tree.component_coder_urns[i];
            assert(child.spec_tree() == tree.components[i as int]);
            proof {
                assert(tree.components.subrange(0, i + 1).subrange(0, i as int) =~= tree.components.subrange(0, i as int));
                assert(forest_size(tree.components.subrange(0, i + 1)) == forest_size(tree.components.subrange(0, i as int))
                    + coder_tree_size(tree.components[i as int]));
                lemma_forest_prefix_bound(tree.components, (i + 1) as nat);
            }
            let child_proto = self.coder_to_proto(child);
            let ghost mid = *self;
            let id = self.get_coder_id(child_proto);
            proof {
                lemma_coders_grow_trans(before.coders(), mid.coders(), self.coders());
                lemma_coders_grow_trans(start.coders(), before.coders(), self.coders());
                assert(represents(self.coders(), id@, tree.components[i as int])) by {
                    let t = tree.components[i as int];
                    assert forall|k: int| 0 <= k < t.components.len() implies represents(
                        self.coders(),
                        self.coders()[id@].component_coder_ids[k],
                        #[trigger] t.components[k],
                    ) by {
                        lemma_represents_grow(mid.coders(), self.coders(), child_proto.view().component_coder_ids[k], t.components[k]);
                    }
                }
                assert forall|j: int| 0 <= j < i implies represents(
                    self.coders(),
                    component_coder_ids@[j]@,
                    #[trigger] tree.components[j],
                ) by {
                    lemma_represents_grow(before.coders(), self.coders(), component_coder_ids@[j]@, tree.components[j]);
                }
            }
            let ghost ids_before = component_coder_ids@;
            component_coder_ids.push(id);
            proof {
                let sub = tree.components.subrange(0, i + 1);
                assert(sub.subrange(0, sub.len() - 1) =~= tree.components.subrange(0, i as int));
                assert(sub[sub.len() - 1] == tree.components[i as int]);
                assert(strings_view(component_coder_ids@) =~= strings_view(ids_before).push(id@));
            }
            i = i + 1;
        }
        let spec = proto::FunctionSpec { urn: String::from_str(coder_urn_tree.coder_urn), payload: Vec::new() };
        let r = proto::Coder { spec: Some(spec), component_coder_ids };
        proof {
            assert(tree.components.subrange(0, n as int) =~= tree.components);
            assert(r.view().component_coder_ids =~= strings_view(component_coder_ids@));
            assert(r.view().spec == Some(FunctionSpecView { urn: coder_urn_tree.coder_urn@, payload: Seq::empty() }));
            assert forall|j: int| 0 <= j < tree.components.len() implies represents(
                self.coders(),
                r.view().component_coder_ids[j],
                #[trigger] tree.components[j],
            ) by {
                assert(r.view().component_coder_ids[j] == component_coder_ids@[j]@);
            }
        }
        r
    }

    /// A new PCollection, named `{component_prefix}pc_{counter}`, whose coder is
    /// `coder_id`; returns its id.
    pub fn create_pcollection_id_internal(&mut self, coder_id: String) -> (r: String)
        requires
            old(self).wf(),
            old(self).name_counter() < usize::MAX,
        ensures
            final(self).wf(),
            r@ == unique_name(old(self).component_prefix(), "pc"@, old(self).name_counter()),
            !old(self).pcollections().contains_key(r@),
            !old(self).transforms().contains_key(r@),
            final(self).pcollections() == old(self).pcollections().insert(
                r@,
                PCollectionView { unique_name: r@, coder_id: coder_id@ },
            ),
            final(self).name_counter() == old(self).name_counter() + 1,
            final(self).coders() == old(self).coders(),
            final(self).coder_counter() == old(self).coder_counter(),
            final(self).transforms() == old(self).transforms(),
            final(self).root_transform_ids() == old(self).root_transform_ids(),
            final(self).transform_stack() == old(self).transform_stack(),
            final(self).used_stage_names() == old(self).used_stage_names(),
            final(self).component_prefix() == old(self).component_prefix(),
            final(self).default_environment() == old(self).default_environment(),
    {
        proof {
            reveal_strlit("pc");
        }
        let ghost c = self.context.counter();
        let pcoll_id = self.context.create_unique_name(String::from_str("pc"));
        let pcoll_proto = proto::PCollection { unique_name: pcoll_id.clone(), coder_id };
        let ghost before = *self;
        proof {
            let old_p = before.proto.components.pcollections@;
            if has_key(old_p, pcoll_id@) {
                let j0 = key_index(old_p, pcoll_id@);
                assert(old_p[j0].0@ != unique_name(before.context.prefix(), "pc"@, c));
            }
        }
        assoc_insert(&mut self.proto.components.pcollections, pcoll_id.clone(), pcoll_proto);
        proof {
            let ps = self.proto.components.pcollections@;
            let old_p = before.proto.components.pcollections@;
            assert(ps == old_p.push((pcoll_id, pcoll_proto)));
            assert forall|i: int, j: nat|
                0 <= i < ps.len() && j >= self.context.counter() implies #[trigger] ps[i].0@
                != #[trigger] unique_name(self.context.prefix(), "pc"@, j) by {
                if i < old_p.len() {
                    assert(old_p[i] == ps[i]);
                } else {
                    lemma_unique_names_distinct(self.context.prefix(), "pc"@, c, j);
                }
            }
            let ts = self.proto.components.transforms@;
            assert forall|i: int, j: nat|
                0 <= i < ts.len() && j >= self.context.counter() implies #[trigger] ts[i].0@
                != #[trigger] unique_name(self.context.prefix(), "transform"@, j) by {
                assert(j >= before.context.counter());
            }
            assert(self.pcollections() =~= before.pcollections().insert(
                pcoll_id@,
                PCollectionView { unique_name: pcoll_id@, coder_id: pcoll_proto.coder_id@ },
            ));
        }
        pcoll_id
    }

    /// A new PCollection whose elements are coded by the coder of the given URN tree;
    /// the coder and its components are registered as needed.
    pub fn create_pcollection_internal(&mut self, coder_urn_tree: &CoderUrnTree) -> (r: PValue)
        requires
            old(self).wf(),
            old(self).name_counter() < usize::MAX,
            old(self).coder_counter() + coder_tree_size(coder_urn_tree.spec_tree()) + 1 <= usize::MAX,
        ensures
            final(self).wf(),
            r.spec_type() == PType::PCollection,
            r.spec_id() == unique_name(old(self).component_prefix(), "pc"@, old(self).name_counter()),
            !old(self).pcollections().contains_key(r.spec_id()),
            !old(self).transforms().contains_key(r.spec_id()),
            final(self).pcollections().dom() == old(self).pcollections().dom().insert(r.spec_id()),
            forall|k: Seq<char>|
                old(self).pcollections().contains_key(k) ==> #[trigger] final(self).pcollections()[k]
                    == old(self).pcollections()[k],
            final(self).pcollections()[r.spec_id()].unique_name == r.spec_id(),
            represents(
                final(self).coders(),
                final(self).pcollections()[r.spec_id()].coder_id,
                coder_urn_tree.spec_tree(),
            ),
            coders_grow(old(self).coders(), final(self).coders()),
            final(self).coder_counter() <= old(self).coder_counter() + coder_tree_size(coder_urn_tree.spec_tree()),
            final(self).name_counter() == old(self).name_counter() + 1,
            final(self).transforms() == old(self).transforms(),
            final(self).root_transform_ids() == old(self).root_transform_ids(),
            final(self).transform_stack() == old(self).transform_stack(),
            final(self).used_stage_names() == old(self).used_stage_names(),
            final(self).component_prefix() == old(self).component_prefix(),
            final(self).default_environment() == old(self).default_environment(),
    {
        let coder_proto = self.coder_to_proto(coder_urn_tree);
        let ghost mid = *self;
        let coder_id = self.get_coder_id(coder_proto);
        let ghost t = coder_urn_tree.spec_tree();
        proof {
            assert forall|k: int| 0 <= k < t.components.len() implies represents(
                self.coders(),
                self.coders()[coder_id@].component_coder_ids[k],
                #[trigger] t.components[k],
            ) by {
                lemma_represents_grow(mid.coders(), self.coders(), coder_proto.view().component_coder_ids[k], t.components[k]);
            }
        }
        proof {
            lemma_coders_grow_trans(old(self).coders(), mid.coders(), self.coders());
        }
        let ghost with_coder = *self;
        let id = self.create_pcollection_id_internal(coder_id);
        proof {
            assert(self.pcollections().dom() =~= with_coder.pcollections().dom().insert(id@));
        }
        PValue::new(PType::PCollection, id)
    }

    /// What the name of a transform applied now starts with: the unique name of the
    /// innermost transform being expanded and a slash, or nothing at the top level.
    pub open spec fn parent_prefix(&self) -> Seq<char> {
        if self.transform_stack().len() == 0 {
            Seq::empty()
        } else {
            self.transforms()[self.transform_stack().last()].unique_name + seq!['/']
        }
    }

    /// The transforms once `child` is recorded as a subtransform of the innermost
    /// transform being expanded (unchanged at the top level).
    pub open spec fn transforms_with_child(&self, child: Seq<char>) -> Map<Seq<char>, PTransformView> {
        if self.transform_stack().len() == 0 {
            self.transforms()
        } else {
            let parent = self.transform_stack().last();
            self.transforms().insert(parent, with_subtransform(self.transforms()[parent], child))
        }
    }

    /// The top-level transform ids once `child` is applied.
    pub open spec fn roots_with_child(&self, child: Seq<char>) -> Seq<Seq<char>> {
        if self.transform_stack().len() == 0 {
            self.root_transform_ids().push(child)
        } else {
            self.root_transform_ids()
        }
    }

    /// The unique name of the innermost transform being expanded, followed by a slash;
    /// empty at the top level.
    pub fn parent_name(&self) -> (r: String)
        requires
            self.wf(),
        ensures
            r@ == self.parent_prefix(),
            self.transform_stack().len() == 0 ==> r@ == Seq::<char>::empty(),
            self.transform_stack().len() > 0 ==> r@ == self.transforms()[self.transform_stack()[self.transform_stack().len()
                - 1]].unique_name + seq!['/'],
    {
        if self.transform_stack.len() == 0 {
            assert(self.transform_stack() =~= Seq::<Seq<char>>::empty());
            return String::new();
        }
        let last = self.transform_stack.len() - 1;
        let parent = &self.transform_stack[last];
        assert(self.transform_stack().last() == parent@);
        match assoc_find(&self.proto.components.transforms, parent) {
            Some(i) => {
                proof {
                    lemma_assoc_view_at(self.proto.components.transforms@, i as int);
                }
                let mut name = self.proto.components.transforms[i].1.unique_name.clone();
                proof {
                    reveal_strlit("/");
                }
                name.append("/");
                name
            },
            None => {
                proof {
                    assert(has_key(self.proto.components.transforms@, self.transform_stack@[last as int]@));
                }
                String::new()
            },
        }
    }

    /// Whether a stage of this unique name was applied already.
    pub fn has_stage_name(&self, name: &String) -> (r: bool)
        ensures
            r == self.used_stage_names().contains(name@),
    {
        let mut i: usize = 0;
        while i < self.used_stage_names.len()
            invariant
                i <= self.used_stage_names@.len(),
                forall|j: int| 0 <= j < i ==> #[trigger] self.used_stage_names@[j]@ != name@,
            decreases self.used_stage_names@.len() - i,
        {
            if self.used_stage_names[i] == *name {
                assert(strings_view(self.used_stage_names@)[i as int] == name@);
                return true;
            }
            i = i + 1;
        }
        assert(!strings_view(self.used_stage_names@).contains(name@)) by {
            if strings_view(self.used_stage_names@).contains(name@) {
                let j = choose|j: int| 0 <= j < self.used_stage_names@.len() && strings_view(self.used_stage_names@)[j] == name@;
                assert(self.used_stage_names@[j]@ != name@);
            }
        }
        false
    }

    /// Records `child` as a subtransform of the transform `parent`.
    fn add_subtransform(&mut self, parent: &String, child: String)
        requires
            old(self).wf_core(),
            old(self).transforms().contains_key(parent@),
        ensures
            final(self).wf_core(),
            final(self).transforms() == old(self).transforms().insert(
                parent@,
                with_subtransform(old(self).transforms()[parent@], child@),
            ),
            final(self).transform_stack() == old(self).transform_stack(),
            final(self).root_transform_ids() == old(self).root_transform_ids(),
            final(self).used_stage_names() == old(self).used_stage_names(),
            final(self).coders() == old(self).coders(),
            final(self).pcollections() == old(self).pcollections(),
            final(self).name_counter() == old(self).name_counter(),
            final(self).coder_counter() == old(self).coder_counter(),
            final(self).component_prefix() == old(self).component_prefix(),
            final(self).default_environment() == old(self).default_environment(),
    {
        let ghost before = *self;
        let ghost ts0 = self.proto.components.transforms@;
        let i = match assoc_find(&self.proto.components.transforms, parent) {
            Some(i) => i,
            None => {
                proof {
                    assert(has_key(ts0, parent@));
                }
                return;
            },
        };
        proof {
            lemma_assoc_view_at(ts0, i as int);
        }
        let (k, mut t) = self.proto.components.transforms.remove(i);
        t.subtransforms.push(child);
        self.proto.components.transforms.insert(i, (k, t));
        proof {
            let ts = self.proto.components.transforms@;
            assert(ts =~= ts0.update(i as int, (k, t)));
            assert forall|a: int, b: int| 0 <= a < ts.len() && 0 <= b < ts.len() && a != b implies #[trigger] ts[a].0@
                != #[trigger] ts[b].0@ by {
                assert(ts0[a].0@ != ts0[b].0@);
            }
            assert forall|a: int| 0 <= a < ts.len() implies (#[trigger] ts[a]).1.wf() by {
                assert(ts0[a].1.wf());
            }
            assert forall|a: int| 0 <= a < self.transform_stack@.len() implies has_key(
                ts,
                #[trigger] self.transform_stack@[a]@,
            ) by {
                let j = key_index(ts0, self.transform_stack@[a]@);
                assert(ts[j].0@ == ts0[j].0@);
            }
            assert forall|a: int, j: nat|
                0 <= a < ts.len() && j >= self.context.counter() implies #[trigger] ts[a].0@
                != #[trigger] unique_name(self.context.prefix(), "transform"@, j) by {
                assert(ts0[a].0@ != unique_name(self.context.prefix(), "transform"@, j));
            }
            assert(t.view() == with_subtransform(ts0[i as int].1.view(), child@)) by {
                assert(t.view().subtransforms =~= ts0[i as int].1.view().subtransforms.push(child@));
            }
            assert forall|kk: Seq<char>| #[trigger] assoc_view(ts).contains_key(kk) == assoc_view(ts0).contains_key(kk) by {
                if has_key(ts0, kk) {
                    let j = key_index(ts0, kk);
                    assert(ts[j].0@ == kk);
                }
                if has_key(ts, kk) {
                    let j = key_index(ts, kk);
                    assert(ts0[j].0@ == kk);
                }
            }
            assert forall|kk: Seq<char>| self.transforms().contains_key(kk) implies #[trigger] self.transforms()[kk]
                == before.transforms().insert(parent@, with_subtransform(before.transforms()[parent@], child@))[kk] by {
                let j = key_index(ts, kk);
                lemma_assoc_view_at(ts, j);
                lemma_assoc_view_at(ts0, j);
            }
            assert(self.transforms() =~= before.transforms().insert(
                parent@,
                with_subtransform(before.transforms()[parent@], child@),
            ));
        }
    }

    /// The state after applying, at the current position, a transform named `name`
    /// with id `id` that reads `input`.
    pub open spec fn pre_applied(&self, after: &Pipeline, id: Seq<char>, name: Seq<char>, input: PValue) -> bool {
        &&& id == unique_name(self.component_prefix(), "transform"@, self.name_counter())
        &&& !self.transforms().contains_key(id)
        &&& after.transforms() == self.transforms_with_child(id).insert(
            id,
            new_transform(name, input, self.default_environment()),
        )
        &&& after.root_transform_ids() == self.roots_with_child(id)
        &&& after.used_stage_names() == self.used_stage_names().insert(name)
        &&& after.name_counter() == self.name_counter() + 1
        &&& after.transform_stack() == self.transform_stack()
        &&& after.coders() == self.coders()
        &&& after.coder_counter() == self.coder_counter()
        &&& after.pcollections() == self.pcollections()
        &&& after.component_prefix() == self.component_prefix()
        &&& after.default_environment() == self.default_environment()
    }

    /// Registers a new transform, named after the transform being expanded and
    /// `bad_id`, that reads `input`; it becomes a top-level transform, or a subtransform
    /// of the transform being expanded. Returns its id and its proto.
    pub fn pre_apply_transform_named(&mut self, input: &PValue, bad_id: String) -> (r: (String, proto::PTransform))
        requires
            old(self).wf(),
            input.spec_type() != PType::PValueMap,
            old(self).name_counter() < usize::MAX,
            !old(self).used_stage_names().contains(old(self).parent_prefix() + bad_id@),
        ensures
            final(self).wf(),
            old(self).pre_applied(final(self), r.0@, old(self).parent_prefix() + bad_id@, *input),
            r.1.wf(),
            r.1.view() == new_transform(old(self).parent_prefix() + bad_id@, *input, old(self).default_environment()),
    {
        let ghost start = *self;
        let mut stage_name = self.parent_name();
        stage_name.append(bad_id.as_str());
        proof {
            reveal_strlit("transform");
        }
        let ghost c = self.context.counter();
        let transform_id = self.context.create_unique_name(String::from_str("transform"));
        proof {
            let ts = self.proto.components.transforms@;
            if has_key(ts, transform_id@) {
                let j = key_index(ts, transform_id@);
                assert(ts[j].0@ != unique_name(self.context.prefix(), "transform"@, c));
            }
            assert(!start.transforms().contains_key(transform_id@));
            let ts = self.proto.components.transforms@;
            assert forall|a: int, j: nat|
                0 <= a < ts.len() && j >= self.context.counter() implies #[trigger] ts[a].0@
                != #[trigger] unique_name(self.context.prefix(), "transform"@, j) by {
                assert(j >= c);
            }
            let ps = self.proto.components.pcollections@;
            assert forall|a: int, j: nat|
                0 <= a < ps.len() && j >= self.context.counter() implies #[trigger] ps[a].0@
                != #[trigger] unique_name(self.context.prefix(), "pc"@, j) by {
                assert(j >= c);
            }
            assert forall|a: int, j: nat|
                0 <= a < ts.len() && j >= self.context.counter() implies #[trigger] ts[a].0@
                != #[trigger] unique_name(self.context.prefix(), "pc"@, j) by {
                assert(j >= c);
            }
        }
        let ghost counted = *self;
        if self.transform_stack.len() == 0 {
            self.proto.root_transform_ids.push(transform_id.clone());
            assert(self.root_transform_ids() =~= start.root_transform_ids().push(transform_id@));
            assert(self.transform_stack() =~= Seq::<Seq<char>>::empty());
        } else {
            let last = self.transform_stack.len() - 1;
            let parent = self.transform_stack[last].clone();
            assert(self.transform_stack().last() == parent@);
            proof {
                assert(has_key(self.proto.components.transforms@, self.transform_stack@[last as int]@));
            }
            self.add_subtransform(&parent, transform_id.clone());
        }
        let ghost parented = *self;
        self.used_stage_names.push(stage_name.clone());
        proof {
            assert(strings_view(self.used_stage_names@) =~= strings_view(parented.used_stage_names@).push(stage_name@));
            let sv = strings_view(self.used_stage_names@);
            let pv = strings_view(parented.used_stage_names@);
            assert forall|x: Seq<char>| #[trigger] sv.contains(x) == pv.push(stage_name@).contains(x) by {}
            assert forall|x: Seq<char>| #[trigger] self.used_stage_names().contains(x) == parented.used_stage_names().insert(stage_name@).contains(x) by {
                if pv.contains(x) {
                    let i = choose|i: int| 0 <= i < pv.len() && pv[i] == x;
                    assert(sv[i] == x);
                }
                if x == stage_name@ {
                    assert(sv[pv.len() as int] == x);
                }
                if sv.contains(x) {
                    let i = choose|i: int| 0 <= i < sv.len() && sv[i] == x;
                    if i < pv.len() {
                        assert(pv[i] == x);
                    }
                }
            }
            assert(self.used_stage_names() =~= parented.used_stage_names().insert(stage_name@));
        }
        let inputs = flatten_pvalue(input, None);
        let transform_proto = proto::PTransform {
            unique_name: stage_name,
            spec: None,
            subtransforms: Vec::new(),
            inputs,
            outputs: Vec::new(),
            environment_id: self.default_environment.clone(),
        };
        proof {
            lemma_assoc_view_empty(transform_proto.outputs@);
            assert(transform_proto.view().subtransforms =~= Seq::<Seq<char>>::empty());
            assert(transform_proto.view().outputs =~= Map::<Seq<char>, Seq<char>>::empty());
        }
        let stored = transform_proto.copy();
        let ghost before_insert = *self;
        assoc_insert(&mut self.proto.components.transforms, transform_id.clone(), stored);
        proof {
            let ts = self.proto.components.transforms@;
            let ts0 = before_insert.proto.components.transforms@;
            assert(before_insert.transforms() == parented.transforms());
            assert(!parented.transforms().contains_key(transform_id@));
            assert(!has_key(ts0, transform_id@));
            assert(ts == ts0.push((transform_id, stored)));
            assert forall|a: int| 0 <= a < ts.len() implies (#[trigger] ts[a]).1.wf() by {
                if a < ts0.len() {
                    assert(ts0[a].1.wf());
                }
            }
            assert forall|a: int| 0 <= a < self.transform_stack@.len() implies has_key(
                ts,
                #[trigger] self.transform_stack@[a]@,
            ) by {
                let j = key_index(ts0, self.transform_stack@[a]@);
                assert(ts[j].0@ == ts0[j].0@);
            }
            assert forall|a: int, j: nat|
                0 <= a < ts.len() && j >= self.context.counter() implies #[trigger] ts[a].0@
                != #[trigger] unique_name(self.context.prefix(), "transform"@, j) by {
                if a < ts0.len() {
                    assert(ts0[a] == ts[a]);
                } else {
                    lemma_unique_names_distinct(self.context.prefix(), "transform"@, c, j);
                }
            }
            assert forall|a: int, j: nat|
                0 <= a < ts.len() && j >= self.context.counter() implies #[trigger] ts[a].0@
                != #[trigger] unique_name(self.context.prefix(), "pc"@, j) by {
                if a < ts0.len() {
                    assert(ts0[a] == ts[a]);
                } else if ts[a].0@ == unique_name(self.context.prefix(), "pc"@, j) {
                    lemma_unique_names_injective(self.context.prefix(), "transform"@, c, "pc"@, j);
                    reveal_strlit("pc");
                    assert("transform"@.len() != "pc"@.len());
                }
            }
            assert(self.transforms() =~= before_insert.transforms().insert(transform_id@, stored.view()));
            assert(!start.transforms().contains_key(transform_id@));
            assert(start.transforms_with_child(transform_id@) == parented.transforms());
            lemma_transform_id_not_root(start.component_prefix(), c);
            assert(stored.view().subtransforms.len() == 0);
            if start.transform_stack().len() == 0 {
                lemma_placed_new_root_child(start.transforms(), start.root_transform_ids(), transform_id@, stored.view());
            } else {
                let last = start.transform_stack@.len() - 1;
                assert(start.transform_stack().last() == start.transform_stack@[last]@);
                lemma_placed_new_child(
                    start.transforms(),
                    start.root_transform_ids(),
                    start.transform_stack().last(),
                    transform_id@,
                    stored.view(),
                );
            }
        }
        (transform_id, transform_proto)
    }

    /// The state `after` applying a primitive transform with id `id`, named `name`,
    /// of spec `spec`, that reads `input` and writes `output`, a new PCollection whose
    /// coder is that of `tree`.
    pub open spec fn primitive_applied(
        &self,
        after: &Pipeline,
        id: Seq<char>,
        name: Seq<char>,
        input: PValue,
        spec: FunctionSpecView,
        tree: UrnTree,
        output: PValue,
    ) -> bool {
        &&& id == unique_name(self.component_prefix(), "transform"@, self.name_counter())
        &&& !self.transforms().contains_key(id)
        &&& output.spec_type() == PType::PCollection
        &&& output.spec_id() == unique_name(self.component_prefix(), "pc"@, self.name_counter() + 1)
        &&& !self.pcollections().contains_key(output.spec_id())
        &&& !self.transforms().contains_key(output.spec_id())
        &&& output.spec_id() != id
        &&& after.transforms() == self.transforms_with_child(id).insert(
            id,
            PTransformView {
                unique_name: name,
                spec: Some(spec),
                subtransforms: Seq::empty(),
                inputs: flattened(input.spec_id(), input.spec_type(), None),
                outputs: map!["main"@ => output.spec_id()],
                environment_id: self.default_environment(),
            },
        )
        &&& after.root_transform_ids() == self.roots_with_child(id)
        &&& after.used_stage_names() == self.used_stage_names().insert(name)
        &&& after.name_counter() == self.name_counter() + 2
        &&& after.transform_stack() == self.transform_stack()
        &&& after.pcollections().dom() == self.pcollections().dom().insert(output.spec_id())
        &&& forall|k: Seq<char>|
            self.pcollections().contains_key(k) ==> #[trigger] after.pcollections()[k] == self.pcollections()[k]
        &&& after.pcollections()[output.spec_id()].unique_name == output.spec_id()
        &&& represents(after.coders(), after.pcollections()[output.spec_id()].coder_id, tree)
        &&& coders_grow(self.coders(), after.coders())
        &&& after.coder_counter() <= self.coder_counter() + coder_tree_size(tree)
        &&& after.component_prefix() == self.component_prefix()
        &&& after.default_environment() == self.default_environment()
    }

    /// Applies a primitive transform of spec `spec` to `input`, named after the
    /// transform being expanded and `bad_id`; its output is a new PCollection coded by
    /// the coder of `out_coder_urn`.
    pub fn apply_transform_named(
        &mut self,
        spec: proto::FunctionSpec,
        input: &PValue,
        out_coder_urn: &CoderUrnTree,
        bad_id: String,
    ) -> (r: PValue)
        requires
            old(self).wf(),
            input.spec_type() != PType::PValueMap,
            old(self).name_counter() + 2 <= usize::MAX,
            old(self).coder_counter() + coder_tree_size(out_coder_urn.spec_tree()) + 1 <= usize::MAX,
            !old(self).used_stage_names().contains(old(self).parent_prefix() + bad_id@),
        ensures
            final(self).wf(),
            old(self).primitive_applied(
                final(self),
                unique_name(old(self).component_prefix(), "transform"@, old(self).name_counter()),
                old(self).parent_prefix() + bad_id@,
                *input,
                spec.view(),
                out_coder_urn.spec_tree(),
                r,
            ),
    {
        let ghost start = *self;
        let ghost name = start.parent_prefix() + bad_id@;
        let ghost spec_view = spec.view();
        let (transform_id, mut transform_proto) = self.pre_apply_transform_named(input, bad_id);
        let ghost applied = *self;
        self.transform_stack.push(transform_id.clone());
        proof {
            let ts = self.proto.components.transforms@;
            assert(self.transforms().contains_key(transform_id@));
            assert(has_key(ts, transform_id@));
            assert forall|a: int| 0 <= a < self.transform_stack@.len() implies has_key(
                ts,
                #[trigger] self.transform_stack@[a]@,
            ) by {
                if a < applied.transform_stack@.len() {
                    assert(self.transform_stack@[a] == applied.transform_stack@[a]);
                }
            }
        }
        proof {
            lemma_transform_id_not_root(start.component_prefix(), start.name_counter());
            assert forall|a: int| 0 <= a < self.transform_stack@.len() implies #[trigger] self.transform_stack@[a]@ != "root"@ by {
                if a < applied.transform_stack@.len() {
                    assert(self.transform_stack@[a] == applied.transform_stack@[a]);
                }
            }
        }
        let ghost pushed = *self;
        assert(pushed.transform_stack() =~= applied.transform_stack().push(transform_id@));
        transform_proto.spec = Some(spec);
        let result = self.create_pcollection_internal(out_coder_urn);
        let ghost created = *self;
        let outputs = flatten_pvalue(&result, None);
        transform_proto.outputs = outputs;
        proof {
            assert(transform_proto.view().outputs =~= map!["main"@ => result.spec_id()]) by {
                reveal_strlit("main");
            }
        }
        let ghost before_insert = *self;
        let ghost tp_view = transform_proto.view();
        assert(tp_view == PTransformView {
            unique_name: name,
            spec: Some(spec_view),
            subtransforms: Seq::empty(),
            inputs: flattened(input.spec_id(), input.spec_type(), None),
            outputs: map!["main"@ => result.spec_id()],
            environment_id: start.default_environment(),
        });
        assoc_insert(&mut self.proto.components.transforms, transform_id.clone(), transform_proto);
        proof {
            let ts = self.proto.components.transforms@;
            let ts0 = before_insert.proto.components.transforms@;
            assert(has_key(ts0, transform_id@));
            assert(ts.len() == ts0.len());
            assert forall|a: int| 0 <= a < ts.len() implies (#[trigger] ts[a]).1.wf() by {
                assert(ts[a].0@ == ts0[a].0@);
                if ts[a].0@ != transform_id@ {
                    assert(ts[a] == ts0[a]);
                    assert(ts0[a].1.wf());
                }
            }
            assert forall|a: int| 0 <= a < self.transform_stack@.len() implies has_key(
                ts,
                #[trigger] self.transform_stack@[a]@,
            ) by {
                let j = key_index(ts0, self.transform_stack@[a]@);
                assert(ts[j].0@ == ts0[j].0@);
            }
            assert forall|a: int, j: nat|
                0 <= a < ts.len() && j >= self.context.counter() implies #[trigger] ts[a].0@
                != #[trigger] unique_name(self.context.prefix(), "transform"@, j) by {
                assert(ts0[a].0@ != unique_name(self.context.prefix(), "transform"@, j));
            }
        }
        let ghost inserted = *self;
        self.transform_stack.pop();
        proof {
            assert(strings_view(self.transform_stack@) =~= strings_view(inserted.transform_stack@).drop_last());
            assert(self.transform_stack() =~= applied.transform_stack());
            assert(self.transform_stack() == start.transform_stack());
            assert(before_insert.transforms() == applied.transforms());
            assert(self.transforms() =~= before_insert.transforms().insert(transform_id@, tp_view));
            assert(tp_view.subtransforms =~= before_insert.transforms()[transform_id@].subtransforms);
            lemma_placed_replace(before_insert.transforms(), before_insert.root_transform_ids(), transform_id@, tp_view);
            assert(self.transforms() =~= start.transforms_with_child(transform_id@).insert(
                transform_id@,
                PTransformView {
                    unique_name: name,
                    spec: Some(spec_view),
                    subtransforms: Seq::empty(),
                    inputs: flattened(input.spec_id(), input.spec_type(), None),
                    outputs: map!["main"@ => result.spec_id()],
                    environment_id: start.default_environment(),
                },
            ));
        }
        result
    }

    /// Applies a primitive transform of spec `spec` to `input`, under a name drawn at
    /// random; its output is a new PCollection coded by the coder of `out_coder_urn`.
    /// Returns `None`, and changes nothing, when the name drawn is taken.
    pub fn apply_transform(&mut self, spec: proto::FunctionSpec, input: &PValue, out_coder_urn: &CoderUrnTree) -> (r:
        Option<PValue>)
        requires
            old(self).wf(),
            input.spec_type() != PType::PValueMap,
            old(self).name_counter() + 2 <= usize::MAX,
            old(self).coder_counter() + coder_tree_size(out_coder_urn.spec_tree()) + 1 <= usize::MAX,
        ensures
            final(self).wf(),
            r is None ==> *final(self) == *old(self),
            r is None ==> exists|bad_id: Seq<char>|
                #[trigger] spec_bad_id(bad_id) && old(self).used_stage_names().contains(
                    old(self).parent_prefix() + bad_id,
                ),
            r matches Some(output) ==> exists|bad_id: Seq<char>|
                #[trigger] spec_bad_id(bad_id) && old(self).primitive_applied(
                    final(self),
                    unique_name(old(self).component_prefix(), "transform"@, old(self).name_counter()),
                    old(self).parent_prefix() + bad_id,
                    *input,
                    spec.view(),
                    out_coder_urn.spec_tree(),
                    output,
                ),
    {
        let bad_id = get_bad_id();
        let mut name = self.parent_name();
        name.append(bad_id.as_str());
        if self.has_stage_name(&name) {
            assert(spec_bad_id(bad_id@) && self.used_stage_names().contains(self.parent_prefix() + bad_id@));
            return None;
        }
        let ghost bad = bad_id@;
        let ghost start = *self;
        let ghost spec_view = spec.view();
        let output = self.apply_transform_named(spec, input, out_coder_urn, bad_id);
        assert(start.primitive_applied(
            self,
            unique_name(start.component_prefix(), "transform"@, start.name_counter()),
            start.parent_prefix() + bad,
            *input,
            spec_view,
            out_coder_urn.spec_tree(),
            output,
        ));
        assert(spec_bad_id(bad));
        assert(exists|b: Seq<char>|
                spec_bad_id(b) && #[trigger] start.primitive_applied(
                    self,
                    unique_name(start.component_prefix(), "transform"@, start.name_counter()),
                    start.parent_prefix() + b,
                    *input,
                    spec_view,
                    out_coder_urn.spec_tree(),
                    output,
                ));
        Some(output)
    }

    /// Registers `transform` under its unique name, replacing a transform of that id.
    fn register_proto_transform(&mut self, transform: proto::PTransform)
        requires
            old(self).wf(),
            transform.wf(),
            transform.unique_name@ == "root"@,
            transform.subtransforms@.len() == 0,
            forall|j: nat|
                j >= old(self).name_counter() ==> transform.unique_name@ != #[trigger] unique_name(
                    old(self).component_prefix(),
                    "transform"@,
                    j,
                ),
            forall|j: nat|
                j >= old(self).name_counter() ==> transform.unique_name@ != #[trigger] unique_name(
                    old(self).component_prefix(),
                    "pc"@,
                    j,
                ),
        ensures
            final(self).wf(),
            final(self).transforms() == old(self).transforms().insert(transform.unique_name@, transform.view()),
            final(self).coders() == old(self).coders(),
            final(self).coder_counter() == old(self).coder_counter(),
            final(self).pcollections() == old(self).pcollections(),
            final(self).root_transform_ids() == old(self).root_transform_ids(),
            final(self).transform_stack() == old(self).transform_stack(),
            final(self).used_stage_names() == old(self).used_stage_names(),
            final(self).name_counter() == old(self).name_counter(),
            final(self).component_prefix() == old(self).component_prefix(),
            final(self).default_environment() == old(self).default_environment(),
    {
        let ghost before = *self;
        let ghost view = transform.view();
        let ghost name = transform.unique_name@;
        let key = transform.unique_name.clone();
        let ghost k = key@;
        assoc_insert(&mut self.proto.components.transforms, key, transform);
        proof {
            let ts = self.proto.components.transforms@;
            let ts0 = before.proto.components.transforms@;
            assert forall|a: int| 0 <= a < ts.len() implies (#[trigger] ts[a]).1.wf() by {
                if a < ts0.len() && ts[a].0@ != k {
                    assert(ts[a] == ts0[a]);
                }
            }
            assert forall|a: int| 0 <= a < self.transform_stack@.len() implies has_key(
                ts,
                #[trigger] self.transform_stack@[a]@,
            ) by {
                let j = key_index(ts0, self.transform_stack@[a]@);
                assert(ts[j].0@ == ts0[j].0@);
            }
            assert forall|a: int, j: nat|
                0 <= a < ts.len() && j >= self.context.counter() implies #[trigger] ts[a].0@
                != #[trigger] unique_name(self.context.prefix(), "transform"@, j) by {
                if a < ts0.len() {
                    assert(ts[a].0@ == ts0[a].0@);
                } else {
                    assert(ts[a].0@ == k);
                    assert(k == name);
                    assert(name != unique_name(before.component_prefix(), "transform"@, j));
                }
            }
            assert forall|a: int, j: nat|
                0 <= a < ts.len() && j >= self.context.counter() implies #[trigger] ts[a].0@
                != #[trigger] unique_name(self.context.prefix(), "pc"@, j) by {
                if a < ts0.len() {
                    assert(ts[a].0@ == ts0[a].0@);
                } else {
                    assert(ts[a].0@ == k);
                    assert(k == name);
                    assert(name != unique_name(before.component_prefix(), "pc"@, j));
                }
            }
            assert(self.transforms() =~= before.transforms().insert(k, view));
            if before.transforms().contains_key(k) {
                assert(view.subtransforms =~= before.transforms()[k].subtransforms);
            }
            lemma_placed_replace(before.transforms(), before.root_transform_ids(), k, view);
        }
    }

    /// Registers the root of the pipeline: the bytes coder, and a transform `root`
    /// without spec or inputs whose output `out` is `pcoll_name`. Returns the root,
    /// identified by `pcoll_name`.
    pub fn register_root_named(&mut self, pcoll_name: String) -> (r: PValue)
        requires
            old(self).wf(),
            old(self).coder_counter() < usize::MAX,
        ensures
            final(self).wf(),
            r.spec_type() == PType::Root,
            r.spec_id() == pcoll_name@,
            final(self).coders().contains_key(root_coder_id(old(self).coders(), old(self).coder_counter())),
            final(self).coders() == old(self).coders().insert(
                root_coder_id(old(self).coders(), old(self).coder_counter()),
                bytes_coder_view(),
            ),
            coders_grow(old(self).coders(), final(self).coders()),
            final(self).coder_counter() == registered(old(self).coders(), old(self).coder_counter(), bytes_coder_view()).1,
            final(self).coder_counter() <= old(self).coder_counter() + 1,
            final(self).transforms() == old(self).transforms().insert("root"@, root_transform(pcoll_name@)),
            final(self).pcollections() == old(self).pcollections(),
            final(self).root_transform_ids() == old(self).root_transform_ids(),
            final(self).transform_stack() == old(self).transform_stack(),
            final(self).used_stage_names() == old(self).used_stage_names(),
            final(self).name_counter() == old(self).name_counter(),
            final(self).component_prefix() == old(self).component_prefix(),
            final(self).default_environment() == old(self).default_environment(),
    {
        let ghost start = *self;
        proof {
            reveal_strlit("beam:coder:bytes:v1");
        }
        let coder_proto = proto::Coder {
            spec: Some(proto::FunctionSpec { urn: String::from_str(BYTES_CODER_URN), payload: Vec::new() }),
            component_coder_ids: Vec::new(),
        };
        proof {
            assert(coder_proto.view().component_coder_ids =~= Seq::<Seq<char>>::empty());
            assert(coder_proto.spec.unwrap().payload@ =~= Seq::<u8>::empty());
            assert(coder_proto.view() == bytes_coder_view());
        }
        let coder_id = self.get_coder_id(coder_proto);
        proof {
            if start.coders().contains_key(coder_id@) {
                assert(start.coders()[coder_id@] == bytes_coder_view());
                assert(exists|k: Seq<char>| #[trigger] start.coders().contains_key(k) && start.coders()[k] == bytes_coder_view());
                let k0 = choose|k: Seq<char>| #[trigger] start.coders().contains_key(k) && start.coders()[k] == bytes_coder_view();
                assert(coder_id@ == k0);
                assert(self.coders() =~= start.coders().insert(coder_id@, bytes_coder_view()));
            } else {
                assert(!exists|k: Seq<char>| #[trigger] start.coders().contains_key(k) && start.coders()[k] == bytes_coder_view());
            }
            assert(coder_id@ == root_coder_id(start.coders(), start.coder_counter()));
        }
        let mut outputs: Vec<(String, String)> = Vec::new();
        proof {
            reveal_strlit("out");
            reveal_strlit("root");
        }
        outputs.push((String::from_str("out"), pcoll_name.clone()));
        let transform = proto::PTransform {
            unique_name: String::from_str("root"),
            spec: None,
            subtransforms: Vec::new(),
            inputs: Vec::new(),
            outputs,
            environment_id: String::new(),
        };
        proof {
            lemma_assoc_view_empty(transform.inputs@);
            lemma_assoc_view_at(transform.outputs@, 0);
            assert(transform.view().inputs =~= Map::<Seq<char>, Seq<char>>::empty());
            assert(transform.view().outputs =~= map!["out"@ => pcoll_name@]);
            assert(transform.view().subtransforms =~= Seq::<Seq<char>>::empty());
            assert(transform.view() == root_transform(pcoll_name@));
            assert forall|j: nat| j >= self.name_counter() implies transform.unique_name@ != #[trigger] unique_name(
                self.component_prefix(),
                "transform"@,
                j,
            ) by {
                reveal_strlit("transform");
                assert(unique_name(self.component_prefix(), "transform"@, j).len() > 4);
            }
            assert forall|j: nat| j >= self.name_counter() implies transform.unique_name@ != #[trigger] unique_name(
                self.component_prefix(),
                "pc"@,
                j,
            ) by {
                reveal_strlit("pc");
                let u = unique_name(self.component_prefix(), "pc"@, j);
                lemma_parse_decimal(j);
                if self.component_prefix().len() == 0 {
                    assert(u[0] == 'p');
                } else {
                    assert(u.len() > 4);
                }
            }
        }
        self.register_proto_transform(transform);
        PValue::new(PType::Root, pcoll_name)
    }

    /// Registers the root of the pipeline under the id `root` (see `register_root_named`).
    pub fn register_root(&mut self) -> (r: PValue)
        requires
            old(self).wf(),
            old(self).coder_counter() < usize::MAX,
        ensures
            final(self).wf(),
            r.spec_type() == PType::Root,
            r.spec_id() == "root"@,
            final(self).coders() == old(self).coders().insert(
                root_coder_id(old(self).coders(), old(self).coder_counter()),
                bytes_coder_view(),
            ),
            coders_grow(old(self).coders(), final(self).coders()),
            final(self).coder_counter() == registered(old(self).coders(), old(self).coder_counter(), bytes_coder_view()).1,
            final(self).coder_counter() <= old(self).coder_counter() + 1,
            final(self).transforms() == old(self).transforms().insert("root"@, root_transform("root"@)),
            final(self).pcollections() == old(self).pcollections(),
            final(self).root_transform_ids() == old(self).root_transform_ids(),
            final(self).transform_stack() == old(self).transform_stack(),
            final(self).used_stage_names() == old(self).used_stage_names(),
            final(self).name_counter() == old(self).name_counter(),
            final(self).component_prefix() == old(self).component_prefix(),
            final(self).default_environment() == old(self).default_environment(),
    {
        proof {
            reveal_strlit("root");
        }
        self.register_root_named(String::from_str("root"))
    }

    /// Where a transform applied at the current position lands: at the top level it is
    /// appended to the top-level transforms and named by its own name `bad_id`; while
    /// transforms are being expanded, it is appended to the subtransforms of the innermost
    /// one (the last on the stack) and named by that transform's unique name, a slash and
    /// `bad_id`. No other transform changes.
    pub proof fn lemma_pre_applied_nesting(&self, after: &Pipeline, id: Seq<char>, bad_id: Seq<char>, input: PValue)
        requires
            self.wf(),
            self.pre_applied(after, id, self.parent_prefix() + bad_id, input),
        ensures
            after.transforms().contains_key(id),
            after.transforms()[id].subtransforms.len() == 0,
            self.transform_stack().len() == 0 ==> {
                &&& after.transforms()[id].unique_name == bad_id
                &&& after.root_transform_ids() == self.root_transform_ids().push(id)
                &&& forall|k: Seq<char>|
                    #[trigger] self.transforms().contains_key(k) ==> after.transforms()[k] == self.transforms()[k]
            },
            self.transform_stack().len() > 0 ==> {
                let parent = self.transform_stack()[self.transform_stack().len() - 1];
                &&& after.root_transform_ids() == self.root_transform_ids()
                &&& after.transforms()[parent].subtransforms == self.transforms()[parent].subtransforms.push(id)
                &&& after.transforms()[parent].unique_name == self.transforms()[parent].unique_name
                &&& after.transforms()[id].unique_name == self.transforms()[parent].unique_name + seq!['/'] + bad_id
                &&& forall|k: Seq<char>|
                    #[trigger] self.transforms().contains_key(k) && k != parent ==> after.transforms()[k]
                        == self.transforms()[k]
            },
    {
        self.lemma_placed_once();
        if self.transform_stack().len() == 0 {
            assert(Seq::<char>::empty() + bad_id =~= bad_id);
        } else {
            let parent = self.transform_stack()[self.transform_stack().len() - 1];
            assert(self.transforms().contains_key(parent));
            assert(parent != id);
        }
    }

    /// Where a primitive transform applied at the current position lands: as for
    /// `lemma_pre_applied_nesting`, with its spec and outputs recorded.
    pub proof fn lemma_primitive_applied_nesting(
        &self,
        after: &Pipeline,
        id: Seq<char>,
        bad_id: Seq<char>,
        input: PValue,
        spec: FunctionSpecView,
        tree: UrnTree,
        output: PValue,
    )
        requires
            self.wf(),
            self.primitive_applied(after, id, self.parent_prefix() + bad_id, input, spec, tree, output),
        ensures
            after.transforms().contains_key(id),
            after.transforms()[id].subtransforms.len() == 0,
            after.transforms()[id].spec == Some(spec),
            self.transform_stack().len() == 0 ==> {
                &&& after.transforms()[id].unique_name == bad_id
                &&& after.root_transform_ids() == self.root_transform_ids().push(id)
                &&& forall|k: Seq<char>|
                    #[trigger] self.transforms().contains_key(k) ==> after.transforms()[k] == self.transforms()[k]
            },
            self.transform_stack().len() > 0 ==> {
                let parent = self.transform_stack()[self.transform_stack().len() - 1];
                &&& after.root_transform_ids() == self.root_transform_ids()
                &&& after.transforms()[parent].subtransforms == self.transforms()[parent].subtransforms.push(id)
                &&& after.transforms()[parent].unique_name == self.transforms()[parent].unique_name
                &&& after.transforms()[id].unique_name == self.transforms()[parent].unique_name + seq!['/'] + bad_id
                &&& forall|k: Seq<char>|
                    #[trigger] self.transforms().contains_key(k) && k != parent ==> after.transforms()[k]
                        == self.transforms()[k]
            },
    {
        self.lemma_placed_once();
        if self.transform_stack().len() == 0 {
            assert(Seq::<char>::empty() + bad_id =~= bad_id);
        } else {
            let parent = self.transform_stack()[self.transform_stack().len() - 1];
            assert(self.transforms().contains_key(parent));
            assert(parent != id);
        }
    }

    /// Where a composite transform begun at the current position lands: as for
    /// `lemma_pre_applied_nesting`; it is then the transform being expanded.
    pub proof fn lemma_began_nesting(&self, after: &Pipeline, id: Seq<char>, bad_id: Seq<char>, input: PValue)
        requires
            self.wf(),
            self.began(after, id, self.parent_prefix() + bad_id, input),
        ensures
            after.transforms().contains_key(id),
            after.transforms()[id].subtransforms.len() == 0,
            after.transform_stack() == self.transform_stack().push(id),
            self.transform_stack().len() == 0 ==> {
                &&& after.transforms()[id].unique_name == bad_id
                &&& after.root_transform_ids() == self.root_transform_ids().push(id)
                &&& forall|k: Seq<char>|
                    #[trigger] self.transforms().contains_key(k) ==> after.transforms()[k] == self.transforms()[k]
            },
            self.transform_stack().len() > 0 ==> {
                let parent = self.transform_stack()[self.transform_stack().len() - 1];
                &&& after.root_transform_ids() == self.root_transform_ids()
                &&& after.transforms()[parent].subtransforms == self.transforms()[parent].subtransforms.push(id)
                &&& after.transforms()[parent].unique_name == self.transforms()[parent].unique_name
                &&& after.transforms()[id].unique_name == self.transforms()[parent].unique_name + seq!['/'] + bad_id
                &&& forall|k: Seq<char>|
                    #[trigger] self.transforms().contains_key(k) && k != parent ==> after.transforms()[k]
                        == self.transforms()[k]
            },
    {
        self.lemma_placed_once();
        if self.transform_stack().len() == 0 {
            assert(Seq::<char>::empty() + bad_id =~= bad_id);
        } else {
            let parent = self.transform_stack()[self.transform_stack().len() - 1];
            assert(self.transforms().contains_key(parent));
            assert(parent != id);
        }
    }

    /// The state once a composite transform named `name` with id `id`, reading
    /// `input`, has been registered and made the transform being expanded.
    pub open spec fn began(&self, after: &Pipeline, id: Seq<char>, name: Seq<char>, input: PValue) -> bool {
        &&& id == unique_name(self.component_prefix(), "transform"@, self.name_counter())
        &&& !self.transforms().contains_key(id)
        &&& after.transforms() == self.transforms_with_child(id).insert(
            id,
            new_transform(name, input, self.default_environment()),
        )
        &&& after.root_transform_ids() == self.roots_with_child(id)
        &&& after.used_stage_names() == self.used_stage_names().insert(name)
        &&& after.name_counter() == self.name_counter() + 1
        &&& after.transform_stack() == self.transform_stack().push(id)
        &&& after.coders() == self.coders()
        &&& after.coder_counter() == self.coder_counter()
        &&& after.pcollections() == self.pcollections()
        &&& after.component_prefix() == self.component_prefix()
        &&& after.default_environment() == self.default_environment()
    }

    /// Starts applying a composite transform to `input`, named after the transform
    /// being expanded and `bad_id`: it is registered as a top-level transform or a
    /// subtransform of the transform being expanded, and becomes the transform being
    /// expanded, so that the transforms applied until `end_transform` are its
    /// subtransforms. Returns its id.
    pub fn begin_transform_named(&mut self, input: &PValue, bad_id: String) -> (r: String)
        requires
            old(self).wf(),
            input.spec_type() != PType::PValueMap,
            old(self).name_counter() < usize::MAX,
            !old(self).used_stage_names().contains(old(self).parent_prefix() + bad_id@),
        ensures
            final(self).wf(),
            old(self).began(final(self), r@, old(self).parent_prefix() + bad_id@, *input),
    {
        let ghost start = *self;
        let (transform_id, _transform_proto) = self.pre_apply_transform_named(input, bad_id);
        let ghost applied = *self;
        self.transform_stack.push(transform_id.clone());
        proof {
            lemma_transform_id_not_root(start.component_prefix(), start.name_counter());
            let ts = self.proto.components.transforms@;
            assert(self.transforms().contains_key(transform_id@));
            assert forall|a: int| 0 <= a < self.transform_stack@.len() implies has_key(
                ts,
                #[trigger] self.transform_stack@[a]@,
            ) && self.transform_stack@[a]@ != "root"@ by {
                if a < applied.transform_stack@.len() {
                    assert(self.transform_stack@[a] == applied.transform_stack@[a]);
                }
            }
            assert(self.transform_stack() =~= applied.transform_stack().push(transform_id@));
        }
        transform_id
    }

    /// Starts applying a composite transform to `input`, under a name drawn at random
    /// (see `begin_transform_named`). Returns `None`, and changes nothing, when the name
    /// drawn is taken.
    pub fn begin_transform(&mut self, input: &PValue) -> (r: Option<String>)
        requires
            old(self).wf(),
            input.spec_type() != PType::PValueMap,
            old(self).name_counter() < usize::MAX,
        ensures
            final(self).wf(),
            r is None ==> *final(self) == *old(self),
            r is None ==> exists|bad_id: Seq<char>|
                #[trigger] spec_bad_id(bad_id) && old(self).used_stage_names().contains(
                    old(self).parent_prefix() + bad_id,
                ),
            r matches Some(id) ==> exists|bad_id: Seq<char>|
                #[trigger] spec_bad_id(bad_id) && old(self).began(final(self), id@, old(self).parent_prefix() + bad_id, *input),
    {
        let bad_id = get_bad_id();
        let mut name = self.parent_name();
        name.append(bad_id.as_str());
        if self.has_stage_name(&name) {
            assert(spec_bad_id(bad_id@) && self.used_stage_names().contains(self.parent_prefix() + bad_id@));
            return None;
        }
        let ghost bad = bad_id@;
        let ghost start = *self;
        let id = self.begin_transform_named(input, bad_id);
        assert(spec_bad_id(bad) && start.began(self, id@, start.parent_prefix() + bad, *input));
        Some(id)
    }

    /// Ends the expansion of the transform being expanded: the PCollections that `output`
    /// reaches become its outputs, and the transform that was being expanded before it is
    /// again. Returns its id.
    pub fn end_transform(&mut self, output: &PValue) -> (r: String)
        requires
            old(self).wf(),
            old(self).transform_stack().len() > 0,
            output.spec_type() != PType::PValueMap,
        ensures
            final(self).wf(),
            r@ == old(self).transform_stack().last(),
            final(self).transforms() == old(self).transforms().insert(
                r@,
                with_outputs(old(self).transforms()[r@], flattened(output.spec_id(), output.spec_type(), None)),
            ),
            final(self).transform_stack() == old(self).transform_stack().drop_last(),
            final(self).root_transform_ids() == old(self).root_transform_ids(),
            final(self).used_stage_names() == old(self).used_stage_names(),
            final(self).coders() == old(self).coders(),
            final(self).coder_counter() == old(self).coder_counter(),
            final(self).pcollections() == old(self).pcollections(),
            final(self).name_counter() == old(self).name_counter(),
            final(self).component_prefix() == old(self).component_prefix(),
            final(self).default_environment() == old(self).default_environment(),
    {
        let ghost start = *self;
        let last = self.transform_stack.len() - 1;
        let id = self.transform_stack[last].clone();
        proof {
            assert(start.transform_stack().last() == id@);
            assert(has_key(self.proto.components.transforms@, self.transform_stack@[last as int]@));
        }
        let ghost ts0 = self.proto.components.transforms@;
        let i = match assoc_find(&self.proto.components.transforms, &id) {
            Some(i) => i,
            None => {
                proof {
                    assert(false);
                }
                return id;
            },
        };
        proof {
            lemma_assoc_view_at(ts0, i as int);
        }
        let mut t = self.proto.components.transforms[i].1.copy();
        let outputs = flatten_pvalue(output, None);
        t.outputs = outputs;
        let ghost t_view = t.view();
        proof {
            assert(t_view == with_outputs(start.transforms()[id@], flattened(output.spec_id(), output.spec_type(), None)));
        }
        assoc_insert(&mut self.proto.components.transforms, id.clone(), t);
        proof {
            let ts = self.proto.components.transforms@;
            assert(ts.len() == ts0.len());
            assert forall|a: int| 0 <= a < ts.len() implies (#[trigger] ts[a]).1.wf() by {
                assert(ts[a].0@ == ts0[a].0@);
                if ts[a].0@ != id@ {
                    assert(ts[a] == ts0[a]);
                    assert(ts0[a].1.wf());
                }
            }
            assert forall|a: int, j: nat|
                0 <= a < ts.len() && j >= self.context.counter() implies #[trigger] ts[a].0@
                != #[trigger] unique_name(self.context.prefix(), "transform"@, j) by {
                assert(ts[a].0@ == ts0[a].0@);
            }
            assert forall|a: int, j: nat|
                0 <= a < ts.len() && j >= self.context.counter() implies #[trigger] ts[a].0@
                != #[trigger] unique_name(self.context.prefix(), "pc"@, j) by {
                assert(ts[a].0@ == ts0[a].0@);
            }
            assert(self.transforms() =~= start.transforms().insert(id@, t_view));
            assert(t_view.subtransforms == start.transforms()[id@].subtransforms);
            lemma_placed_replace(start.transforms(), start.root_transform_ids(), id@, t_view);
        }
        let ghost inserted = *self;
        self.transform_stack.pop();
        proof {
            let ts = self.proto.components.transforms@;
            assert forall|a: int| 0 <= a < self.transform_stack@.len() implies has_key(
                ts,
                #[trigger] self.transform_stack@[a]@,
            ) && self.transform_stack@[a]@ != "root"@ by {
                assert(self.transform_stack@[a] == inserted.transform_stack@[a]);
                let j = key_index(ts0, self.transform_stack@[a]@);
                assert(ts[j].0@ == ts0[j].0@);
            }
            assert(strings_view(self.transform_stack@) =~= strings_view(inserted.transform_stack@).drop_last());
        }
        id
    }
}

impl Default for Pipeline {
    /// An empty pipeline without component prefix, as `new` makes it from "".
    fn default() -> (r: Self)
        ensures
            r.wf(),
            r.coders() == Map::<Seq<char>, CoderView>::empty(),
            r.transforms() == Map::<Seq<char>, PTransformView>::empty(),
            r.pcollections() == Map::<Seq<char>, PCollectionView>::empty(),
            r.root_transform_ids() == Seq::<Seq<char>>::empty(),
            r.transform_stack() == Seq::<Seq<char>>::empty(),
            r.used_stage_names() == Set::<Seq<char>>::empty(),
            r.name_counter() == 0,
            r.coder_counter() == 0,
            r.component_prefix() == Seq::<char>::empty(),
            r.default_environment() == "rustEnvironment"@,
    {
        Pipeline::new(String::new())
    }
}

} // verus!
