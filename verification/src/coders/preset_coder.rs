//! The coders that the SDK builds from their URN alone.

use vstd::prelude::*;

use crate::coders::required_coders::{BytesCoder, IterableCoder, KVCoder};
use crate::coders::rust_coders::{GeneralObjectCoder, UnitCoder};
use crate::coders::standard_coders::StrUtf8Coder;
use crate::coders::CoderUrnTree;
use crate::urns::{lemma_preset_urn_roundtrip, PresetCoderUrn, BYTES_CODER_URN, GENERAL_OBJECT_CODER_URN, STR_UTF8_CODER_URN};

verus! {

/// A coder of one of the preset kinds.
#[derive(Debug)]
pub enum PresetCoder {
    Bytes(BytesCoder),
    Kv(KVCoder),
    Iterable(IterableCoder),
    StrUtf8(StrUtf8Coder),
    Unit(UnitCoder),
    GeneralObject(GeneralObjectCoder<String>),
}

/// The component coders that a preset coder of kind `variant` needs: a key and a value
/// coder for key-value pairs, an element coder for iterables, none for the others.
pub open spec fn components_needed(variant: PresetCoderUrn) -> nat {
    match variant {
        PresetCoderUrn::Kv => 2,
        PresetCoderUrn::Iterable => 1,
        _ => 0,
    }
}

/// The coder of kind `variant`, made from `component_coders` where it has components
/// (taken from the end of the list). Varint coders are not built from their URN: which
/// integer type they code is not known from it.
pub fn preset_coder_from_variant(variant: &PresetCoderUrn, component_coders: Vec<CoderUrnTree>) -> (r: PresetCoder)
    requires
        *variant != PresetCoderUrn::VarInt,
        component_coders@.len() >= components_needed(*variant),
    ensures
        match *variant {
            PresetCoderUrn::Bytes => r is Bytes,
            PresetCoderUrn::Kv => r matches PresetCoder::Kv(c) && c.key_coder == component_coders@[component_coders@.len() - 2]
                && c.value_coder == component_coders@[component_coders@.len() - 1],
            PresetCoderUrn::Iterable => r matches PresetCoder::Iterable(c) && c.elem_coder
                == component_coders@[component_coders@.len() - 1],
            PresetCoderUrn::StrUtf8 => r is StrUtf8,
            PresetCoderUrn::Unit => r is Unit,
            PresetCoderUrn::GeneralObject => r is GeneralObject,
            PresetCoderUrn::VarInt => false,
        },
{
    match variant {
        PresetCoderUrn::Bytes => PresetCoder::Bytes(BytesCoder::new()),
        PresetCoderUrn::Kv => PresetCoder::Kv(KVCoder::new(component_coders)),
        PresetCoderUrn::Iterable => PresetCoder::Iterable(IterableCoder::new(component_coders)),
        PresetCoderUrn::StrUtf8 => PresetCoder::StrUtf8(StrUtf8Coder::new()),
        PresetCoderUrn::Unit => PresetCoder::Unit(UnitCoder::new()),
        PresetCoderUrn::GeneralObject => PresetCoder::GeneralObject(GeneralObjectCoder::new()),
        PresetCoderUrn::VarInt => {
            proof {
                assert(false);
            }
            PresetCoder::Unit(UnitCoder::new())
        },
    }
}

/// Whether a preset coder of kind `variant` can be built from its URN alone: those with
/// component coders, and varint coders, cannot.
pub open spec fn built_from_urn_alone(variant: PresetCoderUrn) -> bool {
    variant == PresetCoderUrn::Bytes || variant == PresetCoderUrn::StrUtf8 || variant == PresetCoderUrn::GeneralObject
}

/// The preset coder of the URN of `urn_tree`, or `None` when the URN is not that of a
/// preset coder (it is then one of the user's coders).
pub fn coder_from_urn(urn_tree: &CoderUrnTree) -> (r: Option<PresetCoder>)
    requires
        forall|v: PresetCoderUrn| #[trigger] v.spec_urn() == urn_tree.coder_urn@ ==> built_from_urn_alone(v),
    ensures
        r is None <==> forall|v: PresetCoderUrn| #[trigger] v.spec_urn() != urn_tree.coder_urn@,
        r matches Some(c) ==> {
            &&& urn_tree.coder_urn@ == BYTES_CODER_URN@ ==> c is Bytes
            &&& urn_tree.coder_urn@ == STR_UTF8_CODER_URN@ ==> c is StrUtf8
            &&& urn_tree.coder_urn@ == GENERAL_OBJECT_CODER_URN@ ==> c is GeneralObject
        },
{
    match PresetCoderUrn::from_urn(urn_tree.coder_urn) {
        Some(variant) => {
            proof {
                assert(built_from_urn_alone(variant));
                if urn_tree.coder_urn@ == BYTES_CODER_URN@ {
                    lemma_preset_urn_roundtrip(PresetCoderUrn::Bytes, variant);
                }
                if urn_tree.coder_urn@ == STR_UTF8_CODER_URN@ {
                    lemma_preset_urn_roundtrip(PresetCoderUrn::StrUtf8, variant);
                }
                if urn_tree.coder_urn@ == GENERAL_OBJECT_CODER_URN@ {
                    lemma_preset_urn_roundtrip(PresetCoderUrn::GeneralObject, variant);
                }
            }
            Some(preset_coder_from_variant(&variant, Vec::new()))
        },
        None => None,
    }
}

} // verus!
