//! Ids drawn at random for pipeline components.

use vstd::prelude::*;

use crate::text::{append_decimal, decimal, usize_to_string};

verus! {

/// `rand::random::<usize>()`: a number drawn from the thread-local generator; any
/// value may come back.
#[verifier::external_body]
fn random_usize() -> usize {
    rand::random::<usize>()
}

/// A placeholder id: the decimal numeral of some number.
pub open spec fn spec_bad_id(id: Seq<char>) -> bool {
    exists|n: usize| id == decimal(n as nat)
}

/// A placeholder id drawn at random.
pub fn get_bad_id() -> (r: String)
    ensures
        spec_bad_id(r@),
{
    let n = random_usize();
    usize_to_string(n)
}

/// A PCollection name drawn at random: `ref_PCollection_` followed by a number.
pub fn get_pcollection_name() -> (r: String)
    ensures
        exists|n: usize| r@ == "ref_PCollection_"@ + decimal(n as nat),
{
    let n = random_usize();
    let mut name = String::from_str("ref_PCollection_");
    append_decimal(&mut name, n);
    name
}

} // verus!
