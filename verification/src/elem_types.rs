//! Element types of PCollections, and the coder each of them is encoded with by default.

use bytes::Bytes;
use core::marker::PhantomData;
use vstd::prelude::*;

use crate::coders::required_coders::{IterableCoder, KVCoder};
use crate::coders::{CoderUrnTree, UrnTree};
use crate::urns::{BYTES_CODER_URN, STR_UTF8_CODER_URN, UNIT_CODER_URN, VARINT_CODER_URN};

verus! {

/// A key-value pair. Pairs are ordered by key, then by value.
#[derive(Clone, Debug, PartialEq, Eq, PartialOrd, Ord)]
pub struct KV<K, V> {
    pub k: K,
    pub v: V,
}

impl<K, V> KV<K, V> {
    pub fn new(k: K, v: V) -> (r: Self)
        ensures
            r.k == k,
            r.v == v,
    {
        KV { k, v }
    }

    pub fn as_values(&self) -> (r: &V)
        ensures
            *r == self.v,
    {
        &self.v
    }
}

/// A series of elements of type `E`, as an element type of its own.
#[derive(Debug)]
pub struct Iterable<E> {
    phantom: PhantomData<E>,
}

/// Element types used in Beam pipelines (in PTransforms, PCollections, Coders, ...).
///
/// To use byte arrays as elements, use `bytes::Bytes` rather than `Vec<u8>`: `Vec<u8>`
/// is coded element by element by the iterable coder.
pub trait ElemType {}

/// The coder used for an element type.
pub trait DefaultCoder {
    /// The URN tree of the type's coder.
    spec fn default_coder_tree() -> UrnTree;

    /// The URN tree of the type's coder.
    fn default_coder_urn() -> (r: CoderUrnTree)
        ensures
            r.spec_tree() == Self::default_coder_tree(),
    ;
}

/// The tree of a coder without components.
pub open spec fn leaf_tree(urn: Seq<char>) -> UrnTree {
    UrnTree { urn, components: Seq::empty() }
}

impl ElemType for Bytes {}

impl DefaultCoder for Bytes {
    open spec fn default_coder_tree() -> UrnTree {
        leaf_tree(BYTES_CODER_URN@)
    }

    fn default_coder_urn() -> (r: CoderUrnTree) {
        CoderUrnTree::leaf(BYTES_CODER_URN)
    }
}

impl ElemType for String {}

impl DefaultCoder for String {
    open spec fn default_coder_tree() -> UrnTree {
        leaf_tree(STR_UTF8_CODER_URN@)
    }

    fn default_coder_urn() -> (r: CoderUrnTree) {
        CoderUrnTree::leaf(STR_UTF8_CODER_URN)
    }
}

impl ElemType for () {}

impl DefaultCoder for () {
    open spec fn default_coder_tree() -> UrnTree {
        leaf_tree(UNIT_CODER_URN@)
    }

    fn default_coder_urn() -> (r: CoderUrnTree) {
        CoderUrnTree::leaf(UNIT_CODER_URN)
    }
}

impl ElemType for u64 {}

impl DefaultCoder for u64 {
    open spec fn default_coder_tree() -> UrnTree {
        leaf_tree(VARINT_CODER_URN@)
    }

    fn default_coder_urn() -> (r: CoderUrnTree) {
        CoderUrnTree::leaf(VARINT_CODER_URN)
    }
}

impl ElemType for i64 {}

impl DefaultCoder for i64 {
    open spec fn default_coder_tree() -> UrnTree {
        leaf_tree(VARINT_CODER_URN@)
    }

    fn default_coder_urn() -> (r: CoderUrnTree) {
        CoderUrnTree::leaf(VARINT_CODER_URN)
    }
}

impl ElemType for i8 {}

impl DefaultCoder for i8 {
    open spec fn default_coder_tree() -> UrnTree {
        leaf_tree(VARINT_CODER_URN@)
    }

    fn default_coder_urn() -> (r: CoderUrnTree) {
        CoderUrnTree::leaf(VARINT_CODER_URN)
    }
}

impl ElemType for i16 {}

impl DefaultCoder for i16 {
    open spec fn default_coder_tree() -> UrnTree {
        leaf_tree(VARINT_CODER_URN@)
    }

    fn default_coder_urn() -> (r: CoderUrnTree) {
        CoderUrnTree::leaf(VARINT_CODER_URN)
    }
}

impl ElemType for i32 {}

impl DefaultCoder for i32 {
    open spec fn default_coder_tree() -> UrnTree {
        leaf_tree(VARINT_CODER_URN@)
    }

    fn default_coder_urn() -> (r: CoderUrnTree) {
        CoderUrnTree::leaf(VARINT_CODER_URN)
    }
}

impl ElemType for isize {}

impl DefaultCoder for isize {
    open spec fn default_coder_tree() -> UrnTree {
        leaf_tree(VARINT_CODER_URN@)
    }

    fn default_coder_urn() -> (r: CoderUrnTree) {
        CoderUrnTree::leaf(VARINT_CODER_URN)
    }
}

impl ElemType for u8 {}

impl DefaultCoder for u8 {
    open spec fn default_coder_tree() -> UrnTree {
        leaf_tree(VARINT_CODER_URN@)
    }

    fn default_coder_urn() -> (r: CoderUrnTree) {
        CoderUrnTree::leaf(VARINT_CODER_URN)
    }
}

impl ElemType for u16 {}

impl DefaultCoder for u16 {
    open spec fn default_coder_tree() -> UrnTree {
        leaf_tree(VARINT_CODER_URN@)
    }

    fn default_coder_urn() -> (r: CoderUrnTree) {
        CoderUrnTree::leaf(VARINT_CODER_URN)
    }
}

impl ElemType for u32 {}

impl DefaultCoder for u32 {
    open spec fn default_coder_tree() -> UrnTree {
        leaf_tree(VARINT_CODER_URN@)
    }

    fn default_coder_urn() -> (r: CoderUrnTree) {
        CoderUrnTree::leaf(VARINT_CODER_URN)
    }
}

impl ElemType for usize {}

impl DefaultCoder for usize {
    open spec fn default_coder_tree() -> UrnTree {
        leaf_tree(VARINT_CODER_URN@)
    }

    fn default_coder_urn() -> (r: CoderUrnTree) {
        CoderUrnTree::leaf(VARINT_CODER_URN)
    }
}

impl<K: ElemType, V: ElemType> ElemType for KV<K, V> {}

impl<K: ElemType + DefaultCoder, V: ElemType + DefaultCoder> DefaultCoder for KV<K, V> {
    open spec fn default_coder_tree() -> UrnTree {
        KVCoder::spec_coder_urn_tree(K::default_coder_tree(), V::default_coder_tree())
    }

    fn default_coder_urn() -> (r: CoderUrnTree) {
        KVCoder::coder_urn_tree(K::default_coder_urn(), V::default_coder_urn())
    }
}

impl<E: ElemType> ElemType for Vec<E> {}

impl<E: ElemType + DefaultCoder> DefaultCoder for Vec<E> {
    open spec fn default_coder_tree() -> UrnTree {
        IterableCoder::spec_coder_urn_tree(E::default_coder_tree())
    }

    fn default_coder_urn() -> (r: CoderUrnTree) {
        IterableCoder::coder_urn_tree(E::default_coder_urn())
    }
}

impl<E: ElemType> ElemType for Iterable<E> {}

impl<E: ElemType + DefaultCoder> DefaultCoder for Iterable<E> {
    open spec fn default_coder_tree() -> UrnTree {
        IterableCoder::spec_coder_urn_tree(E::default_coder_tree())
    }

    fn default_coder_urn() -> (r: CoderUrnTree) {
        IterableCoder::coder_urn_tree(E::default_coder_urn())
    }
}

} // verus!
