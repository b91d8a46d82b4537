//! Coders specific to the Rust SDK.

use core::marker::PhantomData;
use vstd::prelude::*;
use vstd::utf8::{decode_utf8, encode_utf8, valid_utf8};

use crate::varint::{varint_bytes, varint_parse};

use crate::coders::required_coders::BytesCoder;
use crate::coders::standard_coders::StrUtf8Coder;
use crate::coders::{CoderError, CoderI, Context};
use crate::urns::{GENERAL_OBJECT_CODER_URN, UNIT_CODER_URN};

verus! {

/// The marker byte written before a string by `GeneralObjectCoder` (`'S'`).
pub open spec fn string_marker() -> u8 {
    83
}

/// The marker byte that `GeneralObjectCoder` reserves for other objects (`'Z'`); decoding
/// it is not defined.
pub open spec fn other_marker() -> u8 {
    90
}

/// Coder for objects of the Rust SDK; strings are written as a marker byte followed by
/// their `StrUtf8Coder` encoding.
#[derive(Debug)]
pub struct GeneralObjectCoder<T> {
    phantom: PhantomData<T>,
}

impl<T> GeneralObjectCoder<T> {
    pub fn new() -> Self {
        GeneralObjectCoder { phantom: PhantomData }
    }
}

impl<T> Default for GeneralObjectCoder<T> {
    fn default() -> Self {
        GeneralObjectCoder { phantom: PhantomData }
    }
}

impl GeneralObjectCoder<String> {
    /// The bytes written for the string `s`.
    pub open spec fn encoding(s: Seq<char>, context: Context) -> Seq<u8> {
        seq![string_marker()] + StrUtf8Coder::encoding(s, context)
    }

    /// Decoding reads one marker byte, whatever it is but `'Z'`, then a string.
    pub open spec fn decoding(input: Seq<u8>, context: Context) -> Result<(Seq<char>, nat), CoderError> {
        if input.len() == 0 {
            Err(CoderError::UnexpectedEof)
        } else {
            match StrUtf8Coder::decoding(input.drop_first(), context) {
                Ok((s, k)) => Ok((s, k + 1)),
                Err(e) => Err(e),
            }
        }
    }

    /// The format of a string: the marker `'S'`, then its UTF-8 bytes as they are in
    /// `WholeStream`, or behind a varint holding their count in `NeedsDelimiters`.
    /// Decoding skips one marker byte (any but `'Z'`), then reads the string in the same
    /// context; the marker is counted among the bytes read.
    pub proof fn lemma_format(s: Seq<char>, marker: u8, rest: Seq<u8>)
        requires
            marker != other_marker(),
        ensures
            Self::encoding(s, Context::WholeStream) == seq![83u8] + encode_utf8(s),
            Self::encoding(s, Context::NeedsDelimiters) == seq![83u8] + varint_bytes(encode_utf8(s).len()) + encode_utf8(
                s,
            ),
            Self::decoding(Seq::empty(), Context::WholeStream) == Err::<(Seq<char>, nat), CoderError>(
                CoderError::UnexpectedEof,
            ),
            Self::decoding(seq![marker] + rest, Context::WholeStream) == (if valid_utf8(rest) {
                Ok::<(Seq<char>, nat), CoderError>((decode_utf8(rest), rest.len() + 1))
            } else {
                Err::<(Seq<char>, nat), CoderError>(CoderError::InvalidUtf8)
            }),
            Self::decoding(seq![marker] + rest, Context::NeedsDelimiters) == (match varint_parse(rest) {
                Some((n, k)) => if k + n <= rest.len() {
                    if valid_utf8(rest.subrange(k as int, k + n)) {
                        Ok::<(Seq<char>, nat), CoderError>(
                            (decode_utf8(rest.subrange(k as int, k + n)), (k + n + 1) as nat),
                        )
                    } else {
                        Err::<(Seq<char>, nat), CoderError>(CoderError::InvalidUtf8)
                    }
                } else {
                    Err::<(Seq<char>, nat), CoderError>(CoderError::UnexpectedEof)
                },
                None => Err::<(Seq<char>, nat), CoderError>(CoderError::InvalidData),
            }),
    {
        assert((seq![marker] + rest).drop_first() =~= rest);
        assert(Self::encoding(s, Context::NeedsDelimiters) =~= seq![83u8] + varint_bytes(encode_utf8(s).len())
            + encode_utf8(s));
    }

    /// Decoding the encoding of a string, followed by anything in `NeedsDelimiters`,
    /// gives back the string.
    pub proof fn lemma_roundtrip(s: Seq<char>, rest: Seq<u8>, context: Context)
        requires
            encode_utf8(s).len() <= u64::MAX,
            context == Context::NeedsDelimiters || rest.len() == 0,
        ensures
            (Self::encoding(s, context) + rest)[0] != other_marker(),
            BytesCoder::delimiter_readable((Self::encoding(s, context) + rest).drop_first(), context),
            Self::decoding(Self::encoding(s, context) + rest, context) == Ok::<(Seq<char>, nat), CoderError>(
                (s, Self::encoding(s, context).len()),
            ),
    {
        let input = Self::encoding(s, context) + rest;
        assert(input.drop_first() =~= StrUtf8Coder::encoding(s, context) + rest);
        StrUtf8Coder::lemma_roundtrip(s, rest, context);
    }
}

impl CoderI<String> for GeneralObjectCoder<String> {
    open spec fn decode_allowed(&self, reader: Seq<u8>, context: Context) -> bool {
        reader.len() == 0 || (reader[0] != other_marker() && BytesCoder::delimiter_readable(
            reader.drop_first(),
            context,
        ))
    }

    fn get_coder_urn(&self) -> (r: &'static str)
        ensures
            r == GENERAL_OBJECT_CODER_URN,
    {
        GENERAL_OBJECT_CODER_URN
    }

    /// Encode a string after its marker; returns the count of the string's encoding.
    fn encode(&self, element: &String, writer: &mut Vec<u8>, context: &Context) -> (n: usize)
        ensures
            final(writer)@ == old(writer)@ + Self::encoding(element@, *context),
            *context == Context::WholeStream ==> final(writer)@ == old(writer)@ + seq![83u8] + encode_utf8(element@),
            *context == Context::NeedsDelimiters ==> final(writer)@ == old(writer)@ + seq![83u8] + varint_bytes(
                encode_utf8(element@).len(),
            ) + encode_utf8(element@),
            n == encode_utf8(element@).len(),
    {
        let ghost before = writer@;
        writer.push(83u8);
        let n = StrUtf8Coder::new().encode(element, writer, context);
        assert(writer@ =~= before + Self::encoding(element@, *context));
        n
    }

    /// Decode a marker, then a string.
    fn decode(&self, reader: &[u8], context: &Context) -> (r: Result<(String, usize), CoderError>)
        ensures
            match r {
                Ok((s, k)) => Self::decoding(reader@, *context) == Ok::<(Seq<char>, nat), CoderError>(
                    (s@, k as nat),
                ),
                Err(e) => Self::decoding(reader@, *context) == Err::<(Seq<char>, nat), CoderError>(e),
            },
    {
        if reader.len() == 0 {
            return Err(CoderError::UnexpectedEof);
        }
        let rest = &reader[1..reader.len()];
        assert(rest@ =~= reader@.drop_first());
        match StrUtf8Coder::new().decode(rest, context) {
            Ok((s, k)) => Ok((s, k + 1)),
            Err(e) => Err(e),
        }
    }
}

/// Coder for the unit type: nothing is written or read.
#[derive(Clone, Copy, Debug)]
pub struct UnitCoder {}

impl UnitCoder {
    pub fn new() -> Self {
        UnitCoder {  }
    }
}

impl Default for UnitCoder {
    fn default() -> (r: Self)
        ensures
            r == (UnitCoder {  }),
    {
        UnitCoder {  }
    }
}

impl CoderI<()> for UnitCoder {
    open spec fn decode_allowed(&self, reader: Seq<u8>, context: Context) -> bool {
        true
    }

    fn get_coder_urn(&self) -> (r: &'static str)
        ensures
            r == UNIT_CODER_URN,
    {
        UNIT_CODER_URN
    }

    fn encode(&self, _element: &(), writer: &mut Vec<u8>, _context: &Context) -> (n: usize)
        ensures
            final(writer)@ == old(writer)@,
            n == 0,
    {
        0
    }

    fn decode(&self, _reader: &[u8], _context: &Context) -> (r: Result<((), usize), CoderError>)
        ensures
            r == Ok::<((), usize), CoderError>(((), 0)),
    {
        Ok(((), 0))
    }
}

} // verus!
