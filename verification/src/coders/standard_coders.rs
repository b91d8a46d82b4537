//! Standard coders of the Beam model: UTF-8 strings and variable-length integers.

use core::marker::PhantomData;
use vstd::prelude::*;
use vstd::utf8::{decode_utf8, encode_utf8, encode_utf8_decode_utf8, encode_utf8_valid_utf8, valid_utf8};

use crate::coders::required_coders::BytesCoder;
use crate::coders::{CoderError, CoderI, Context};
use crate::urns::{STR_UTF8_CODER_URN, VARINT_CODER_URN};
use crate::varint::{
    lemma_signed_varint_roundtrip, lemma_varint_roundtrip, max_varint_len, read_varint_i64,
    read_varint_u64, signed_varint_parse, varint_bytes, varint_parse, write_varint_i64,
    write_varint_u64, zigzag,
};

verus! {

/// `String::from_utf8` of std: the string whose UTF-8 encoding the bytes are, or `None`
/// when they are not valid UTF-8.
#[verifier::external_body]
pub(crate) fn string_from_utf8(bytes: Vec<u8>) -> (r: Option<String>)
    ensures
        match r {
            Some(s) => valid_utf8(bytes@) && s@ == decode_utf8(bytes@),
            None => !valid_utf8(bytes@),
        },
{
    String::from_utf8(bytes).ok()
}

/// Coder for strings of UTF-8 characters: their UTF-8 bytes, coded as by `BytesCoder`.
#[derive(Clone, Copy, Debug)]
pub struct StrUtf8Coder {}

impl StrUtf8Coder {
    pub fn new() -> Self {
        StrUtf8Coder {  }
    }

    /// The bytes written for the string `s`.
    pub open spec fn encoding(s: Seq<char>, context: Context) -> Seq<u8> {
        BytesCoder::encoding(encode_utf8(s), context)
    }

    /// What decoding `input` gives: the string and the number of bytes consumed.
    pub open spec fn decoding(input: Seq<u8>, context: Context) -> Result<(Seq<char>, nat), CoderError> {
        match BytesCoder::decoding(input, context) {
            Ok((b, k)) => if valid_utf8(b) {
                Ok((decode_utf8(b), k))
            } else {
                Err(CoderError::InvalidUtf8)
            },
            Err(e) => Err(e),
        }
    }

    /// The format of a string: its UTF-8 bytes as they are in `WholeStream`, and behind a
    /// varint holding their count in `NeedsDelimiters`. Decoding in `WholeStream` takes
    /// the whole input as UTF-8 text; in `NeedsDelimiters` it reads the count, then that
    /// many bytes as UTF-8 text.
    pub proof fn lemma_format(s: Seq<char>, input: Seq<u8>)
        ensures
            Self::encoding(s, Context::WholeStream) == encode_utf8(s),
            Self::encoding(s, Context::NeedsDelimiters) == varint_bytes(encode_utf8(s).len()) + encode_utf8(s),
            Self::decoding(input, Context::WholeStream) == (if valid_utf8(input) {
                Ok::<(Seq<char>, nat), CoderError>((decode_utf8(input), input.len()))
            } else {
                Err::<(Seq<char>, nat), CoderError>(CoderError::InvalidUtf8)
            }),
            Self::decoding(input, Context::NeedsDelimiters) == (match varint_parse(input) {
                Some((n, k)) => if k + n <= input.len() {
                    if valid_utf8(input.subrange(k as int, k + n)) {
                        Ok::<(Seq<char>, nat), CoderError>(
                            (decode_utf8(input.subrange(k as int, k + n)), (k + n) as nat),
                        )
                    } else {
                        Err::<(Seq<char>, nat), CoderError>(CoderError::InvalidUtf8)
                    }
                } else {
                    Err::<(Seq<char>, nat), CoderError>(CoderError::UnexpectedEof)
                },
                None => Err::<(Seq<char>, nat), CoderError>(CoderError::InvalidData),
            }),
    {
    }

    /// Decoding the encoding of a string, followed by anything in `NeedsDelimiters`,
    /// gives back the string.
    pub proof fn lemma_roundtrip(s: Seq<char>, rest: Seq<u8>, context: Context)
        requires
            encode_utf8(s).len() <= u64::MAX,
            context == Context::NeedsDelimiters || rest.len() == 0,
        ensures
            BytesCoder::delimiter_readable(Self::encoding(s, context) + rest, context),
            Self::decoding(Self::encoding(s, context) + rest, context) == Ok::<(Seq<char>, nat), CoderError>(
                (s, Self::encoding(s, context).len()),
            ),
    {
        BytesCoder::lemma_roundtrip(encode_utf8(s), rest, context);
        encode_utf8_valid_utf8(s);
        encode_utf8_decode_utf8(s);
    }
}

impl Default for StrUtf8Coder {
    fn default() -> (r: Self)
        ensures
            r == (StrUtf8Coder {  }),
    {
        StrUtf8Coder {  }
    }
}

impl CoderI<String> for StrUtf8Coder {
    open spec fn decode_allowed(&self, reader: Seq<u8>, context: Context) -> bool {
        BytesCoder::delimiter_readable(reader, context)
    }

    fn get_coder_urn(&self) -> (r: &'static str)
        ensures
            r == STR_UTF8_CODER_URN,
    {
        STR_UTF8_CODER_URN
    }

    /// Encode a string; returns the number of bytes of its UTF-8 encoding.
    fn encode(&self, element: &String, writer: &mut Vec<u8>, context: &Context) -> (n: usize)
        ensures
            final(writer)@ == old(writer)@ + Self::encoding(element@, *context),
            *context == Context::WholeStream ==> final(writer)@ == old(writer)@ + encode_utf8(element@),
            *context == Context::NeedsDelimiters ==> final(writer)@ == old(writer)@ + varint_bytes(
                encode_utf8(element@).len(),
            ) + encode_utf8(element@),
            n == encode_utf8(element@).len(),
    {
        let bytes = element.as_str().as_bytes();
        BytesCoder::write_bytes(bytes, writer, context)
    }

    /// Decode a string; fails on bytes that are not UTF-8.
    fn decode(&self, reader: &[u8], context: &Context) -> (r: Result<(String, usize), CoderError>)
        ensures
            match r {
                Ok((s, k)) => Self::decoding(reader@, *context) == Ok::<(Seq<char>, nat), CoderError>(
                    (s@, k as nat),
                ),
                Err(e) => Self::decoding(reader@, *context) == Err::<(Seq<char>, nat), CoderError>(e),
            },
    {
        match BytesCoder::read_bytes(reader, context) {
            Ok((bytes, k)) => match string_from_utf8(bytes) {
                Some(s) => Ok((s, k)),
                None => Err(CoderError::InvalidUtf8),
            },
            Err(e) => Err(e),
        }
    }
}

/// What reading a varint whose value `parse` gives means for the coder: the value, or
/// `InvalidData` when ten bytes with the continuation bit are followed by more input,
/// or `UnexpectedEof` when the input ends first.
pub open spec fn varint_outcome<T>(parse: Option<(T, nat)>, input: Seq<u8>) -> Result<(T, nat), CoderError> {
    match parse {
        Some((v, k)) => Ok((v, k)),
        None => if input.len() > max_varint_len() {
            Err(CoderError::InvalidData)
        } else {
            Err(CoderError::UnexpectedEof)
        },
    }
}

/// Coder for integers as variable-length integers (signed ones zigzag-mapped first).
#[derive(Debug)]
pub struct VarIntCoder<N> {
    _var_int_type: PhantomData<N>,
}

impl<N> VarIntCoder<N> {
    pub fn new() -> Self {
        VarIntCoder { _var_int_type: PhantomData }
    }
}

impl<N> Default for VarIntCoder<N> {
    fn default() -> Self {
        VarIntCoder { _var_int_type: PhantomData }
    }
}

impl CoderI<u64> for VarIntCoder<u64> {
    open spec fn decode_allowed(&self, reader: Seq<u8>, context: Context) -> bool {
        true
    }

    fn get_coder_urn(&self) -> (r: &'static str)
        ensures
            r == VARINT_CODER_URN,
    {
        VARINT_CODER_URN
    }

    /// Encode an integer as a varint, in either context; returns the bytes written.
    fn encode(&self, element: &u64, writer: &mut Vec<u8>, _context: &Context) -> (n: usize)
        ensures
            final(writer)@ == old(writer)@ + varint_bytes(*element as nat),
            n == varint_bytes(*element as nat).len(),
    {
        write_varint_u64(writer, *element)
    }

    /// Decode a varint from the front of the input.
    fn decode(&self, reader: &[u8], _context: &Context) -> (r: Result<(u64, usize), CoderError>)
        ensures
            match r {
                Ok((v, k)) => varint_outcome(varint_parse(reader@), reader@) == Ok::<(u64, nat), CoderError>(
                    (v, k as nat),
                ),
                Err(e) => varint_outcome(varint_parse(reader@), reader@) == Err::<(u64, nat), CoderError>(e),
            },
    {
        match read_varint_u64(reader) {
            Some((v, k)) => Ok((v, k)),
            None => if reader.len() > 10 {
                Err(CoderError::InvalidData)
            } else {
                Err(CoderError::UnexpectedEof)
            },
        }
    }
}

impl CoderI<i64> for VarIntCoder<i64> {
    open spec fn decode_allowed(&self, reader: Seq<u8>, context: Context) -> bool {
        true
    }

    fn get_coder_urn(&self) -> (r: &'static str)
        ensures
            r == VARINT_CODER_URN,
    {
        VARINT_CODER_URN
    }

    /// Encode an integer as the varint of its zigzag mapping; returns the bytes written.
    fn encode(&self, element: &i64, writer: &mut Vec<u8>, _context: &Context) -> (n: usize)
        ensures
            final(writer)@ == old(writer)@ + varint_bytes(zigzag(*element as int)),
            n == varint_bytes(zigzag(*element as int)).len(),
    {
        write_varint_i64(writer, *element)
    }

    /// Decode a zigzag-mapped varint from the front of the input.
    fn decode(&self, reader: &[u8], _context: &Context) -> (r: Result<(i64, usize), CoderError>)
        ensures
            match r {
                Ok((v, k)) => varint_outcome(signed_varint_parse(reader@), reader@) == Ok::<
                    (i64, nat),
                    CoderError,
                >((v, k as nat)),
                Err(e) => varint_outcome(signed_varint_parse(reader@), reader@) == Err::<
                    (i64, nat),
                    CoderError,
                >(e),
            },
    {
        match read_varint_i64(reader) {
            Some((v, k)) => Ok((v, k)),
            None => if reader.len() > 10 {
                Err(CoderError::InvalidData)
            } else {
                Err(CoderError::UnexpectedEof)
            },
        }
    }
}

/// Decoding the varint encoding of an unsigned integer, followed by anything, gives back
/// the integer and the length of its encoding.
pub proof fn lemma_varint_coder_roundtrip(n: u64, rest: Seq<u8>)
    ensures
        varint_outcome(varint_parse(varint_bytes(n as nat) + rest), varint_bytes(n as nat) + rest)
            == Ok::<(u64, nat), CoderError>((n, varint_bytes(n as nat).len())),
{
    lemma_varint_roundtrip(n, rest);
}

/// Decoding the zigzag varint encoding of a signed integer, followed by anything, gives
/// back the integer and the length of its encoding.
pub proof fn lemma_signed_varint_coder_roundtrip(n: i64, rest: Seq<u8>)
    ensures
        varint_outcome(
            signed_varint_parse(varint_bytes(zigzag(n as int)) + rest),
            varint_bytes(zigzag(n as int)) + rest,
        ) == Ok::<(i64, nat), CoderError>((n, varint_bytes(zigzag(n as int)).len())),
{
    lemma_signed_varint_roundtrip(n, rest);
}

} // verus!
