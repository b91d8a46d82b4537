//! Checking the contents of a PCollection in tests: the elements, in any order.

use vstd::prelude::*;
use vstd::relations::{sorted_by, total_ordering};
use vstd::seq_lib::{group_to_multiset_ensures, lemma_sorted_unique, to_multiset_build, to_multiset_insert};
use vstd::multiset::group_multiset_axioms;

verus! {

/// The order that elements are sorted by.
pub open spec fn ascending() -> spec_fn(u64, u64) -> bool {
    |x: u64, y: u64| x <= y
}

/// The values of the `Some` entries of `s`, in order.
pub open spec fn present_values(s: Seq<Option<u64>>) -> Seq<u64>
    decreases s.len(),
{
    if s.len() == 0 {
        Seq::empty()
    } else {
        match s.last() {
            Some(x) => present_values(s.drop_last()).push(x),
            None => present_values(s.drop_last()),
        }
    }
}

/// Each value occurs among the present values as often as `Some` of it occurs in `s`.
pub proof fn lemma_present_values_count(s: Seq<Option<u64>>, v: u64)
    ensures
        present_values(s).to_multiset().count(v) == s.to_multiset().count(Some(v)),
    decreases s.len(),
{
    broadcast use group_to_multiset_ensures, group_multiset_axioms;

    if s.len() > 0 {
        lemma_present_values_count(s.drop_last(), v);
        assert(s == s.drop_last().push(s.last()));
        to_multiset_build(s.drop_last(), s.last());
        match s.last() {
            Some(x) => {
                to_multiset_build(present_values(s.drop_last()), x);
            },
            None => {},
        }
    } else {
        assert(present_values(s) =~= Seq::<u64>::empty());
    }
}

/// The ascending order is a total order.
pub proof fn lemma_ascending_total()
    ensures
        total_ordering(ascending()),
{
}

/// A sorted copy of `values`: the same elements, ascending.
pub fn sorted_copy(values: &[u64]) -> (r: Vec<u64>)
    ensures
        sorted_by(r@, ascending()),
        r@.to_multiset() == values@.to_multiset(),
{
    broadcast use group_to_multiset_ensures, group_multiset_axioms;

    let mut r: Vec<u64> = Vec::new();
    let mut i: usize = 0;
    assert(values@.subrange(0, 0) =~= Seq::<u64>::empty());
    assert(r@ =~= Seq::<u64>::empty());
    while i < values.len()
        invariant
            i <= values@.len(),
            sorted_by(r@, ascending()),
            r@.to_multiset() == values@.subrange(0, i as int).to_multiset(),
        decreases values@.len() - i,
    {
        let x = values[i];
        let mut j: usize = 0;
        while j < r.len() && r[j] <= x
            invariant
                j <= r@.len(),
                forall|a: int| 0 <= a < j ==> r@[a] <= x,
            decreases r@.len() - j,
        {
            j = j + 1;
        }
        let ghost before = r@;
        r.insert(j, x);
        proof {
            assert(r@ == before.insert(j as int, x));
            assert forall|a: int, b: int| 0 <= a < b < r@.len() implies #[trigger] (ascending())(r@[a], r@[b]) by {
                if b < j {
                    assert((ascending())(before[a], before[b]));
                } else if a < j && b == j {
                } else if a < j {
                    assert((ascending())(before[a], before[b - 1]));
                } else if a == j {
                    assert(x < before[j as int]);
                    assert((ascending())(before[j as int], before[b - 1]) || b - 1 == j);
                } else {
                    assert((ascending())(before[a - 1], before[b - 1]));
                }
            }
            assert(values@.subrange(0, i + 1) == values@.subrange(0, i as int).push(x));
            to_multiset_insert(before, j as int, x);
            to_multiset_build(values@.subrange(0, i as int), x);
        }
        i = i + 1;
    }
    assert(values@.subrange(0, values@.len() as int) == values@);
    r
}

/// A check that a PCollection holds exactly the expected elements, in any order.
pub struct AssertEqualUnordered {
    expected_sorted: Vec<u64>,
}

impl AssertEqualUnordered {
    #[verifier::type_invariant]
    closed spec fn inv(self) -> bool {
        sorted_by(self.expected_sorted@, ascending())
    }

    /// The expected elements, ascending.
    pub closed spec fn spec_expected(&self) -> Seq<u64> {
        self.expected_sorted@
    }

    /// A check for the elements of `expected_slice`.
    pub fn new(expected_slice: &[u64]) -> (r: Self)
        ensures
            sorted_by(r.spec_expected(), ascending()),
            r.spec_expected().to_multiset() == expected_slice@.to_multiset(),
    {
        AssertEqualUnordered { expected_sorted: sorted_copy(expected_slice) }
    }

    /// Whether the values of the `Some` entries of `actual` are the expected elements,
    /// each as many times as expected, in any order; the `None` entries are ignored.
    pub fn matches(&self, actual: &[Option<u64>]) -> (r: bool)
        ensures
            r == (present_values(actual@).to_multiset() == self.spec_expected().to_multiset()),
            r == forall|v: u64| #[trigger] actual@.to_multiset().count(Some(v)) == self.spec_expected().to_multiset().count(v),
    {
        proof {
            use_type_invariant(self);
        }
        let mut values: Vec<u64> = Vec::new();
        let mut i: usize = 0;
        while i < actual.len()
            invariant
                i <= actual@.len(),
                values@ == present_values(actual@.subrange(0, i as int)),
            decreases actual@.len() - i,
        {
            assert(actual@.subrange(0, i + 1).drop_last() == actual@.subrange(0, i as int));
            match actual[i] {
                Some(x) => values.push(x),
                None => {},
            }
            i = i + 1;
        }
        assert(actual@.subrange(0, actual@.len() as int) == actual@);
        let sorted = sorted_copy(values.as_slice());
        let expected = &self.expected_sorted;
        let mut same = sorted.len() == expected.len();
        let mut k: usize = 0;
        while same && k < sorted.len()
            invariant
                same ==> sorted@.len() == expected@.len(),
                k <= sorted@.len(),
                same ==> forall|a: int| 0 <= a < k ==> sorted@[a] == expected@[a],
                !same ==> sorted@ != expected@,
            decreases sorted@.len() - k + (if same { 1int } else { 0int }),
        {
            if sorted[k] != expected[k] {
                same = false;
            } else {
                k = k + 1;
            }
        }
        proof {
            let pm = present_values(actual@).to_multiset();
            let em = self.spec_expected().to_multiset();
            assert forall|v: u64| #[trigger] actual@.to_multiset().count(Some(v)) == pm.count(v) by {
                lemma_present_values_count(actual@, v);
            }
            if forall|v: u64| #[trigger] actual@.to_multiset().count(Some(v)) == em.count(v) {
                assert forall|v: u64| #[trigger] pm.count(v) == em.count(v) by {
                    assert(actual@.to_multiset().count(Some(v)) == pm.count(v));
                    assert(actual@.to_multiset().count(Some(v)) == em.count(v));
                }
                assert(pm =~= em);
            }
            if same {
                assert(sorted@ == expected@);
            }
            if present_values(actual@).to_multiset() == self.spec_expected().to_multiset() {
                lemma_ascending_total();
                lemma_sorted_unique(sorted@, expected@, ascending());
            }
        }
        same
    }
}

} // verus!
