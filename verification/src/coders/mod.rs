//! Coders: how elements of a PCollection are turned into bytes and back.

pub mod coder_resolver;
pub mod preset_coder;
pub mod required_coders;
pub mod rust_coders;
pub mod standard_coders;

use vstd::prelude::*;

use crate::assoc::{assoc_get, assoc_insert, assoc_view, keys_distinct, lemma_assoc_view_empty};
use crate::urns::{
    BYTES_CODER_URN, GENERAL_OBJECT_CODER_URN, ITERABLE_CODER_URN, KV_CODER_URN, STR_UTF8_CODER_URN,
    VARINT_CODER_URN,
};

verus! {

/// The context for encoding a PCollection element.
/// For example, for strings of utf8 characters or bytes, `WholeStream` encoding means
/// that the string will be encoded as-is; while `NeedsDelimiters` encoding means that the
/// string will be encoded prefixed with its length.
#[derive(Clone, Copy, Debug, PartialEq, Eq, Structural)]
pub enum Context {
    /// The encoding/decoding function does not need to delimit the start and end of the
    /// current element in the stream of bytes.
    WholeStream,
    /// The encoding must be such that when decoding, the coder is able to stop decoding
    /// data at the end of the current element.
    NeedsDelimiters,
}

/// Why decoding failed.
#[derive(Clone, Copy, Debug, PartialEq, Eq, Structural)]
pub enum CoderError {
    /// The input ended before the element did.
    UnexpectedEof,
    /// A varint ran past the longest encoding its type allows.
    InvalidData,
    /// The bytes of a string are not valid UTF-8.
    InvalidUtf8,
}


/// The kinds of coders known to a `CoderRegistry`.
#[derive(Clone, Copy, Debug, PartialEq, Eq, Structural)]
pub enum CoderTypeDiscriminants {
    // ******* Required coders *******
    Bytes,
    Iterable,
    KV,
    // ******* Rust coders *******
    GeneralObject,
    // ******* Standard coders *******
    StrUtf8,
    VarIntCoder,
}

/// The coder types of the SDK.
#[derive(Clone, Copy, Debug, PartialEq, Eq, Structural)]
pub enum CoderType {
    // ******* Required coders *******
    Bytes,
    Iterable,
    KV,
    // ******* Rust coders *******
    GeneralObject,
    // ******* Standard coders *******
    StrUtf8,
    VarIntCoder,
}

impl CoderType {
    pub open spec fn spec_discriminant(self) -> CoderTypeDiscriminants {
        match self {
            CoderType::Bytes => CoderTypeDiscriminants::Bytes,
            CoderType::Iterable => CoderTypeDiscriminants::Iterable,
            CoderType::KV => CoderTypeDiscriminants::KV,
            CoderType::GeneralObject => CoderTypeDiscriminants::GeneralObject,
            CoderType::StrUtf8 => CoderTypeDiscriminants::StrUtf8,
            CoderType::VarIntCoder => CoderTypeDiscriminants::VarIntCoder,
        }
    }

    /// The discriminant of a coder type.
    pub fn discriminant(&self) -> (r: CoderTypeDiscriminants)
        ensures
            r == self.spec_discriminant(),
    {
        match self {
            CoderType::Bytes => CoderTypeDiscriminants::Bytes,
            CoderType::Iterable => CoderTypeDiscriminants::Iterable,
            CoderType::KV => CoderTypeDiscriminants::KV,
            CoderType::GeneralObject => CoderTypeDiscriminants::GeneralObject,
            CoderType::StrUtf8 => CoderTypeDiscriminants::StrUtf8,
            CoderType::VarIntCoder => CoderTypeDiscriminants::VarIntCoder,
        }
    }
}

/// The base interface for coders, which encode elements of a PCollection into bytes
/// and decode them back.
pub trait CoderI<T> {
    /// The inputs that `decode` is defined on.
    spec fn decode_allowed(&self, reader: Seq<u8>, context: Context) -> bool;

    /// The URN that identifies the coder.
    fn get_coder_urn(&self) -> &'static str;

    /// Encode an element, appending its bytes to `writer`.
    fn encode(&self, element: &T, writer: &mut Vec<u8>, context: &Context) -> usize;

    /// Decode an element from the front of `reader`; also returns the number of bytes
    /// that the element took.
    fn decode(&self, reader: &[u8], context: &Context) -> (r: Result<(T, usize), CoderError>)
        requires
            self.decode_allowed(reader@, *context),
    ;
}

/// The coder types registered for the preset coder URNs.
pub open spec fn preset_registry() -> Map<Seq<char>, CoderTypeDiscriminants> {
    map![
        BYTES_CODER_URN@ => CoderTypeDiscriminants::Bytes,
        GENERAL_OBJECT_CODER_URN@ => CoderTypeDiscriminants::GeneralObject,
        KV_CODER_URN@ => CoderTypeDiscriminants::KV,
        ITERABLE_CODER_URN@ => CoderTypeDiscriminants::Iterable,
        STR_UTF8_CODER_URN@ => CoderTypeDiscriminants::StrUtf8,
        VARINT_CODER_URN@ => CoderTypeDiscriminants::VarIntCoder,
    ]
}

/// Maps coder URNs to coder types.
pub struct CoderRegistry {
    internal_registry: Vec<(String, CoderTypeDiscriminants)>,
}

impl View for CoderRegistry {
    type V = Map<Seq<char>, CoderTypeDiscriminants>;

    closed spec fn view(&self) -> Self::V {
        assoc_view(self.internal_registry@)
    }
}

impl CoderRegistry {
    #[verifier::type_invariant]
    closed spec fn wf(self) -> bool {
        keys_distinct(self.internal_registry@)
    }

    /// A registry that knows the preset coders.
    pub fn new() -> (r: Self)
        ensures
            r@ == preset_registry(),
    {
        let mut internal_registry: Vec<(String, CoderTypeDiscriminants)> = Vec::new();
        proof {
            lemma_assoc_view_empty(internal_registry@);
        }
        assoc_insert(&mut internal_registry, String::from_str(BYTES_CODER_URN), CoderTypeDiscriminants::Bytes);
        assoc_insert(
            &mut internal_registry,
            String::from_str(GENERAL_OBJECT_CODER_URN),
            CoderTypeDiscriminants::GeneralObject,
        );
        assoc_insert(&mut internal_registry, String::from_str(KV_CODER_URN), CoderTypeDiscriminants::KV);
        assoc_insert(
            &mut internal_registry,
            String::from_str(ITERABLE_CODER_URN),
            CoderTypeDiscriminants::Iterable,
        );
        assoc_insert(
            &mut internal_registry,
            String::from_str(STR_UTF8_CODER_URN),
            CoderTypeDiscriminants::StrUtf8,
        );
        assoc_insert(
            &mut internal_registry,
            String::from_str(VARINT_CODER_URN),
            CoderTypeDiscriminants::VarIntCoder,
        );
        let r = Self { internal_registry };
        assert(r@ =~= preset_registry());
        r
    }

    /// Whether a coder type is registered for `urn`.
    pub fn has_coder_type(&self, urn: &str) -> (r: bool)
        ensures
            r == self@.contains_key(urn@),
    {
        proof {
            use_type_invariant(self);
        }
        let key = String::from_str(urn);
        assoc_get(&self.internal_registry, &key).is_some()
    }

    /// The coder type registered for `urn`.
    pub fn get_coder_type(&self, urn: &str) -> (r: &CoderTypeDiscriminants)
        requires
            self@.contains_key(urn@),
        ensures
            *r == self@[urn@],
    {
        proof {
            use_type_invariant(self);
        }
        let key = String::from_str(urn);
        match assoc_get(&self.internal_registry, &key) {
            Some(t) => t,
            None => {
                proof {
                    assert(false);
                }
                &self.internal_registry[0].1
            },
        }
    }

    /// Registers `coder_type` for `urn`, replacing what was registered for it.
    pub fn register(&mut self, urn: &'static str, coder_type: CoderTypeDiscriminants)
        ensures
            final(self)@ == old(self)@.insert(urn@, coder_type),
    {
        proof {
            use_type_invariant(&*self);
        }
        let mut registry = Vec::new();
        std::mem::swap(&mut registry, &mut self.internal_registry);
        assoc_insert(&mut registry, String::from_str(urn), coder_type);
        self.internal_registry = registry;
    }
}

impl Default for CoderRegistry {
    /// The registry of the preset coders, as `new` makes it.
    fn default() -> (r: Self)
        ensures
            r@ == preset_registry(),
    {
        CoderRegistry::new()
    }
}

/// A coder's URN and the URNs of its component coders.
#[derive(Debug)]
pub struct CoderUrnTree {
    pub coder_urn: &'static str,
    pub component_coder_urns: Vec<CoderUrnTree>,
}

/// A coder URN tree as a mathematical value.
pub struct UrnTree {
    pub urn: Seq<char>,
    pub components: Seq<UrnTree>,
}

impl CoderUrnTree {
    pub open spec fn spec_tree(&self) -> UrnTree
        decreases self,
    {
        UrnTree {
            urn: self.coder_urn@,
            components: Seq::new(
                self.component_coder_urns@.len(),
                |i: int|
                    if 0 <= i < self.component_coder_urns@.len() {
                        self.component_coder_urns@[i].spec_tree()
                    } else {
                        UrnTree { urn: Seq::empty(), components: Seq::empty() }
                    },
            ),
        }
    }

    /// A tree of one coder without components.
    pub fn leaf(coder_urn: &'static str) -> (r: Self)
        ensures
            r.coder_urn == coder_urn,
            r.component_coder_urns@.len() == 0,
            r.spec_tree() == (UrnTree { urn: coder_urn@, components: Seq::empty() }),
    {
        let r = CoderUrnTree { coder_urn, component_coder_urns: Vec::new() };
        assert(r.spec_tree().components =~= Seq::<UrnTree>::empty());
        r
    }
}

} // verus!
