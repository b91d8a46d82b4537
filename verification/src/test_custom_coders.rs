//! An element type with a coder of its own, as users of the SDK write them.

use vstd::prelude::*;
use vstd::utf8::{decode_utf8, encode_utf8, encode_utf8_decode_utf8, encode_utf8_valid_utf8, valid_utf8};

use crate::coders::required_coders::append_slice;
use crate::coders::standard_coders::string_from_utf8;
use crate::coders::{CoderError, CoderI, CoderUrnTree, Context};
use crate::elem_types::{leaf_tree, DefaultCoder, ElemType};
use crate::coders::UrnTree;

verus! {

/// The URN of `MyCoder`.
pub const MY_CODER_URN: &'static str = "beam:coder:rustsdk:1.0:MyCoder";

/// What `MyCoder` writes before the field.
pub const ENCODING_PREFIX: &'static str = "ENCPREFIX";

#[derive(Clone, PartialEq, Eq, Debug)]
pub struct MyElement {
    pub some_field: String,
}

impl ElemType for MyElement {}

impl DefaultCoder for MyElement {
    open spec fn default_coder_tree() -> UrnTree {
        leaf_tree(MY_CODER_URN@)
    }

    fn default_coder_urn() -> (r: CoderUrnTree) {
        CoderUrnTree::leaf(MY_CODER_URN)
    }
}

/// Codes a `MyElement` as the UTF-8 bytes of its field behind a fixed prefix; the
/// element takes the whole rest of the stream.
#[derive(Debug)]
pub struct MyCoder;

impl MyCoder {
    /// A coder from its component coders, of which it has none.
    pub fn new(component_coders: Vec<CoderUrnTree>) -> Self {
        MyCoder
    }

    /// The bytes written for an element whose field is `field`.
    pub open spec fn encoding(field: Seq<char>) -> Seq<u8> {
        encode_utf8(ENCODING_PREFIX@ + field)
    }

    /// The inputs that can be decoded: UTF-8 text that starts with the prefix.
    pub open spec fn decodable(input: Seq<u8>) -> bool {
        valid_utf8(input) && decode_utf8(input).len() >= ENCODING_PREFIX@.len()
            && decode_utf8(input).subrange(0, ENCODING_PREFIX@.len() as int) == ENCODING_PREFIX@
    }

    /// The field of the element that a decodable input holds.
    pub open spec fn decoded_field(input: Seq<u8>) -> Seq<char> {
        decode_utf8(input).subrange(ENCODING_PREFIX@.len() as int, decode_utf8(input).len() as int)
    }

    /// Decoding what encoding a field wrote gives the field back.
    pub proof fn lemma_roundtrip(field: Seq<char>)
        ensures
            Self::decodable(Self::encoding(field)),
            Self::decoded_field(Self::encoding(field)) == field,
    {
        let text = ENCODING_PREFIX@ + field;
        encode_utf8_valid_utf8(text);
        encode_utf8_decode_utf8(text);
        assert(text.subrange(0, ENCODING_PREFIX@.len() as int) == ENCODING_PREFIX@);
        assert(text.subrange(ENCODING_PREFIX@.len() as int, text.len() as int) == field);
    }
}

impl CoderI<MyElement> for MyCoder {
    open spec fn decode_allowed(&self, reader: Seq<u8>, context: Context) -> bool {
        Self::decodable(reader)
    }

    fn get_coder_urn(&self) -> (r: &'static str)
        ensures
            r == MY_CODER_URN,
    {
        MY_CODER_URN
    }

    /// Writes the prefix and the field; returns 0.
    fn encode(&self, element: &MyElement, writer: &mut Vec<u8>, context: &Context) -> (n: usize)
        ensures
            final(writer)@ == old(writer)@ + Self::encoding(element.some_field@),
            n == 0,
    {
        let mut text = String::from_str(ENCODING_PREFIX);
        text.append(element.some_field.as_str());
        append_slice(writer, text.as_str().as_bytes());
        0
    }

    /// Reads the whole input: the field is the text after the prefix.
    fn decode(&self, reader: &[u8], context: &Context) -> (r: Result<(MyElement, usize), CoderError>)
        ensures
            r matches Ok((e, k)) && e.some_field@ == Self::decoded_field(reader@) && k == reader@.len(),
    {
        let mut buf: Vec<u8> = Vec::new();
        append_slice(&mut buf, reader);
        match string_from_utf8(buf) {
            Some(text) => {
                proof {
                    reveal_strlit("ENCPREFIX");
                }
                let n = text.unicode_len();
                let field = String::from_str(text.as_str().substring_char(9, n));
                Ok((MyElement { some_field: field }, reader.len()))
            },
            None => {
                proof {
                    assert(buf@ == reader@);
                }
                Err(CoderError::InvalidUtf8)
            },
        }
    }
}

} // verus!
