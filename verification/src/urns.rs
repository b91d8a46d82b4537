//! URNs that identify coders and transforms in the Beam model.

use vstd::prelude::*;

verus! {

// ******* Standard coders *******
pub const BYTES_CODER_URN: &'static str = "beam:coder:bytes:v1";

pub const KV_CODER_URN: &'static str = "beam:coder:kvcoder:v1";

pub const ITERABLE_CODER_URN: &'static str = "beam:coder:iterable:v1";

// ******* Required coders *******
pub const STR_UTF8_CODER_URN: &'static str = "beam:coder:string_utf8:v1";

pub const VARINT_CODER_URN: &'static str = "beam:coder:varint:v1";

// ******* Rust coders *******
pub const UNIT_CODER_URN: &'static str = "beam:coder:rustsdk:1.0:unit:v1";

pub const GENERAL_OBJECT_CODER_URN: &'static str = "beam:coder:rustsdk:1.0:genericobject:v1";

// ******* Transforms *******
pub const IMPULSE_URN: &'static str = "beam:transform:impulse:v1";

pub const PAR_DO_URN: &'static str = "beam:transform:pardo:v1";

pub const GROUP_BY_KEY_URN: &'static str = "beam:transform:group_by_key:v1";

/// The payload of an impulse transform.
pub const IMPULSE_BUFFER: &'static str = "impulse";

/// Makes the contents of all URN literals known to the prover.
pub proof fn reveal_urns()
    ensures
        BYTES_CODER_URN@ == "beam:coder:bytes:v1"@,
        KV_CODER_URN@ == "beam:coder:kvcoder:v1"@,
        ITERABLE_CODER_URN@ == "beam:coder:iterable:v1"@,
        STR_UTF8_CODER_URN@ == "beam:coder:string_utf8:v1"@,
        VARINT_CODER_URN@ == "beam:coder:varint:v1"@,
        UNIT_CODER_URN@ == "beam:coder:rustsdk:1.0:unit:v1"@,
        GENERAL_OBJECT_CODER_URN@ == "beam:coder:rustsdk:1.0:genericobject:v1"@,
        // the coder URNs have pairwise distinct lengths
        BYTES_CODER_URN@.len() == 19,
        KV_CODER_URN@.len() == 21,
        ITERABLE_CODER_URN@.len() == 22,
        STR_UTF8_CODER_URN@.len() == 25,
        VARINT_CODER_URN@.len() == 20,
        UNIT_CODER_URN@.len() == 30,
        GENERAL_OBJECT_CODER_URN@.len() == 39,
{
    reveal_strlit("beam:coder:bytes:v1");
    reveal_strlit("beam:coder:kvcoder:v1");
    reveal_strlit("beam:coder:iterable:v1");
    reveal_strlit("beam:coder:string_utf8:v1");
    reveal_strlit("beam:coder:varint:v1");
    reveal_strlit("beam:coder:rustsdk:1.0:unit:v1");
    reveal_strlit("beam:coder:rustsdk:1.0:genericobject:v1");
}

/// The coders that the SDK knows by URN.
#[derive(Clone, Copy, Debug, PartialEq, Eq, Structural)]
pub enum PresetCoderUrn {
    Bytes,
    Kv,
    Iterable,
    StrUtf8,
    VarInt,
    Unit,
    GeneralObject,
}

impl PresetCoderUrn {
    /// The URN of a preset coder.
    pub open spec fn spec_urn(self) -> Seq<char> {
        match self {
            PresetCoderUrn::Bytes => BYTES_CODER_URN@,
            PresetCoderUrn::Kv => KV_CODER_URN@,
            PresetCoderUrn::Iterable => ITERABLE_CODER_URN@,
            PresetCoderUrn::StrUtf8 => STR_UTF8_CODER_URN@,
            PresetCoderUrn::VarInt => VARINT_CODER_URN@,
            PresetCoderUrn::Unit => UNIT_CODER_URN@,
            PresetCoderUrn::GeneralObject => GENERAL_OBJECT_CODER_URN@,
        }
    }

    /// All preset coders, in declaration order.
    pub open spec fn all() -> Seq<PresetCoderUrn> {
        seq![
            PresetCoderUrn::Bytes,
            PresetCoderUrn::Kv,
            PresetCoderUrn::Iterable,
            PresetCoderUrn::StrUtf8,
            PresetCoderUrn::VarInt,
            PresetCoderUrn::Unit,
            PresetCoderUrn::GeneralObject,
        ]
    }

    pub fn as_str(&self) -> (r: &'static str)
        ensures
            r@ == self.spec_urn(),
    {
        match self {
            PresetCoderUrn::Bytes => BYTES_CODER_URN,
            PresetCoderUrn::Kv => KV_CODER_URN,
            PresetCoderUrn::Iterable => ITERABLE_CODER_URN,
            PresetCoderUrn::StrUtf8 => STR_UTF8_CODER_URN,
            PresetCoderUrn::VarInt => VARINT_CODER_URN,
            PresetCoderUrn::Unit => UNIT_CODER_URN,
            PresetCoderUrn::GeneralObject => GENERAL_OBJECT_CODER_URN,
        }
    }

    /// The first preset coder (in declaration order) whose URN is `urn`, if any.
    pub fn from_urn(urn: &str) -> (r: Option<PresetCoderUrn>)
        ensures
            match r {
                Some(v) => v.spec_urn() == urn@,
                None => forall|v: PresetCoderUrn| #[trigger] v.spec_urn() != urn@,
            },
    {
        let target = String::from_str(urn);
        let variants = [
            PresetCoderUrn::Bytes,
            PresetCoderUrn::Kv,
            PresetCoderUrn::Iterable,
            PresetCoderUrn::StrUtf8,
            PresetCoderUrn::VarInt,
            PresetCoderUrn::Unit,
            PresetCoderUrn::GeneralObject,
        ];
        assert(variants@ == Self::all());
        let mut i: usize = 0;
        while i < 7
            invariant
                variants@ == Self::all(),
                target@ == urn@,
                i <= 7,
                forall|j: int| 0 <= j < i ==> #[trigger] Self::all()[j].spec_urn() != urn@,
            decreases 7 - i,
        {
            let candidate = String::from_str(variants[i].as_str());
            if candidate == target {
                return Some(variants[i]);
            }
            i = i + 1;
        }
        assert forall|v: PresetCoderUrn| #[trigger] v.spec_urn() != urn@ by {
            match v {
                PresetCoderUrn::Bytes => assert(Self::all()[0] == v),
                PresetCoderUrn::Kv => assert(Self::all()[1] == v),
                PresetCoderUrn::Iterable => assert(Self::all()[2] == v),
                PresetCoderUrn::StrUtf8 => assert(Self::all()[3] == v),
                PresetCoderUrn::VarInt => assert(Self::all()[4] == v),
                PresetCoderUrn::Unit => assert(Self::all()[5] == v),
                PresetCoderUrn::GeneralObject => assert(Self::all()[6] == v),
            }
        }
        None
    }
}

/// Distinct preset coders have distinct URNs.
pub proof fn lemma_preset_urns_distinct(a: PresetCoderUrn, b: PresetCoderUrn)
    requires
        a != b,
    ensures
        a.spec_urn() != b.spec_urn(),
{
    reveal_urns();
}

/// Looking up the URN of a preset coder finds that coder.
pub proof fn lemma_preset_urn_roundtrip(v: PresetCoderUrn, found: PresetCoderUrn)
    requires
        found.spec_urn() == v.spec_urn(),
    ensures
        found == v,
{
    if found != v {
        lemma_preset_urns_distinct(found, v);
    }
}

} // verus!
