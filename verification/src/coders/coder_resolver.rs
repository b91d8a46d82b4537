//! Resolvers: the coder of an element type, found from a coder URN.

use core::marker::PhantomData;
use vstd::prelude::*;

use crate::coders::required_coders::{BytesCoder, KVCoder};
use crate::elem_types::{DefaultCoder, KV};
use crate::urns::{BYTES_CODER_URN, KV_CODER_URN};

verus! {

/// Finds the coder of an element type from a coder URN.
pub trait CoderResolver {
    /// The element type.
    type E;
    /// The coder that is resolved.
    type C;

    /// The URN that the resolver knows.
    spec fn known_urn(&self) -> Seq<char>;

    /// The coder for `coder_urn`, if it is the URN that the resolver knows.
    fn resolve(&self, coder_urn: &str) -> (r: Option<Self::C>)
        ensures
            r is Some <==> coder_urn@ == self.known_urn(),
    ;
}

/// Resolves `BytesCoder`, the coder of byte arrays.
#[derive(Debug)]
pub struct BytesCoderResolverDefault;

impl CoderResolver for BytesCoderResolverDefault {
    type E = Vec<u8>;
    type C = BytesCoder;

    open spec fn known_urn(&self) -> Seq<char> {
        BYTES_CODER_URN@
    }

    fn resolve(&self, coder_urn: &str) -> (r: Option<BytesCoder>) {
        if String::from_str(coder_urn) == String::from_str(BYTES_CODER_URN) {
            Some(BytesCoder {  })
        } else {
            None
        }
    }
}

/// Resolves the coder of key-value pairs whose keys and values have their default coders.
#[derive(Debug)]
pub struct KVCoderResolverDefault<K, V> {
    phantom: PhantomData<KV<K, V>>,
}

impl<K, V> KVCoderResolverDefault<K, V> {
    pub fn new() -> Self {
        KVCoderResolverDefault { phantom: PhantomData }
    }
}

impl<K: DefaultCoder, V: DefaultCoder> CoderResolver for KVCoderResolverDefault<K, V> {
    type E = KV<K, V>;
    type C = KVCoder;

    open spec fn known_urn(&self) -> Seq<char> {
        KV_CODER_URN@
    }

    /// The key-value coder, with the default coders of `K` and `V` as its components.
    fn resolve(&self, coder_urn: &str) -> (r: Option<KVCoder>)
        ensures
            r matches Some(c) ==> c.key_coder.spec_tree() == K::default_coder_tree()
                && c.value_coder.spec_tree() == V::default_coder_tree(),
    {
        if String::from_str(coder_urn) == String::from_str(KV_CODER_URN) {
            Some(KVCoder { key_coder: K::default_coder_urn(), value_coder: V::default_coder_urn() })
        } else {
            None
        }
    }
}

} // verus!
