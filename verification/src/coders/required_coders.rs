//! The coders required by the Beam model: they give standard ways to encode data for
//! communication between the runner, the Beam workers and the user's code.

use bytes::Bytes;
use vstd::prelude::*;

use crate::byte_buf::{bytes_as_slice, bytes_contents, bytes_from_vec};
use crate::coders::{CoderError, CoderI, CoderUrnTree, Context, UrnTree};
use crate::urns::{BYTES_CODER_URN, ITERABLE_CODER_URN, KV_CODER_URN};
use crate::varint::{
    lemma_varint_roundtrip, read_varint_u64, varint_bytes, varint_parse,
    write_varint_u64,
};

verus! {

/// Appends all of `data` to `out`.
pub fn append_slice(out: &mut Vec<u8>, data: &[u8])
    ensures
        final(out)@ == old(out)@ + data@,
{
    let mut i: usize = 0;
    while i < data.len()
        invariant
            i <= data@.len(),
            out@ == old(out)@ + data@.subrange(0, i as int),
        decreases data@.len() - i,
    {
        out.push(data[i]);
        i = i + 1;
        assert(data@.subrange(0, i as int) == data@.subrange(0, (i - 1) as int).push(data@[i - 1]));
    }
    assert(data@.subrange(0, i as int) == data@);
}

/// Coder for byte-array data types.
#[derive(Clone, Copy, Debug)]
pub struct BytesCoder {}

impl Default for BytesCoder {
    fn default() -> (r: Self)
        ensures
            r == (BytesCoder {  }),
    {
        BytesCoder {  }
    }
}

impl BytesCoder {
    pub fn new() -> Self {
        BytesCoder {  }
    }

    /// The bytes written for `data`: as-is in `WholeStream`; in `NeedsDelimiters`,
    /// prefixed with a varint holding its length.
    pub open spec fn encoding(data: Seq<u8>, context: Context) -> Seq<u8> {
        match context {
            Context::WholeStream => data,
            Context::NeedsDelimiters => varint_bytes(data.len()) + data,
        }
    }

    /// Decoding is defined unless a delimiter is needed and the input does not start
    /// with a complete varint.
    pub open spec fn delimiter_readable(input: Seq<u8>, context: Context) -> bool {
        context == Context::WholeStream || varint_parse(input) is Some
    }

    /// What decoding `input` gives: the bytes and the number of bytes consumed.
    /// In `WholeStream` all of the input; in `NeedsDelimiters` as many bytes as the
    /// leading varint says, or `UnexpectedEof` when fewer follow it.
    pub open spec fn decoding(input: Seq<u8>, context: Context) -> Result<(Seq<u8>, nat), CoderError> {
        match context {
            Context::WholeStream => Ok((input, input.len())),
            Context::NeedsDelimiters => match varint_parse(input) {
                Some((n, k)) => if k + n <= input.len() {
                    Ok((input.subrange(k as int, k + n), (k + n) as nat))
                } else {
                    Err(CoderError::UnexpectedEof)
                },
                None => Err(CoderError::InvalidData),
            },
        }
    }

    /// Encode the byte string `data` into `writer`; returns the length of `data`.
    /// If context is `NeedsDelimiters`, the byte string is encoded prefixed with a
    /// varint representing its length. If the context is `WholeStream`, the byte string
    /// is encoded as-is.
    pub fn write_bytes(data: &[u8], writer: &mut Vec<u8>, context: &Context) -> (n: usize)
        ensures
            final(writer)@ == old(writer)@ + Self::encoding(data@, *context),
            n == data@.len(),
    {
        match context {
            Context::WholeStream => {
                append_slice(writer, data);
            },
            Context::NeedsDelimiters => {
                let ghost before = writer@;
                let delimiter = data.len() as u64;
                write_varint_u64(writer, delimiter);
                append_slice(writer, data);
                assert(writer@ =~= before + (varint_bytes(data@.len()) + data@));
            },
        }
        data.len()
    }

    /// Decode a byte string from the front of `reader`.
    /// If context is `NeedsDelimiters`, the first bytes are read as a varint holding the
    /// length of the data. If the context is `WholeStream`, the whole input is the data.
    pub fn read_bytes(reader: &[u8], context: &Context) -> (r: Result<(Vec<u8>, usize), CoderError>)
        requires
            Self::delimiter_readable(reader@, *context),
        ensures
            match r {
                Ok((v, k)) => Self::decoding(reader@, *context) == Ok::<(Seq<u8>, nat), CoderError>((v@, k as nat)),
                Err(e) => Self::decoding(reader@, *context) == Err::<(Seq<u8>, nat), CoderError>(e),
            },
    {
        match context {
            Context::WholeStream => {
                let buf = vstd::slice::slice_to_vec(reader);
                let r = Ok((buf, reader.len()));
                r
            },
            Context::NeedsDelimiters => {
                match read_varint_u64(reader) {
                    Some((delimiter, k)) => {
                        if delimiter <= (reader.len() - k) as u64 {
                            let end = k + delimiter as usize;
                            let buf = vstd::slice::slice_to_vec(&reader[k..end]);
                            Ok((buf, end))
                        } else {
                            Err(CoderError::UnexpectedEof)
                        }
                    },
                    None => Err(CoderError::InvalidData),
                }
            },
        }
    }

    /// The format of a byte string: the bytes as they are in `WholeStream`, and behind a
    /// varint holding their count in `NeedsDelimiters`. Decoding in `WholeStream` takes the
    /// whole input; in `NeedsDelimiters` it reads the count, then that many bytes.
    pub proof fn lemma_format(data: Seq<u8>, input: Seq<u8>)
        ensures
            Self::encoding(data, Context::WholeStream) == data,
            Self::encoding(data, Context::NeedsDelimiters) == varint_bytes(data.len()) + data,
            Self::decoding(input, Context::WholeStream) == Ok::<(Seq<u8>, nat), CoderError>((input, input.len())),
            Self::decoding(input, Context::NeedsDelimiters) == (match varint_parse(input) {
                Some((n, k)) => if k + n <= input.len() {
                    Ok::<(Seq<u8>, nat), CoderError>((input.subrange(k as int, k + n), (k + n) as nat))
                } else {
                    Err::<(Seq<u8>, nat), CoderError>(CoderError::UnexpectedEof)
                },
                None => Err::<(Seq<u8>, nat), CoderError>(CoderError::InvalidData),
            }),
    {
    }

    /// Decoding the encoding of `data`, followed by anything in `NeedsDelimiters`,
    /// gives back `data` and the length of the encoding.
    pub proof fn lemma_roundtrip(data: Seq<u8>, rest: Seq<u8>, context: Context)
        requires
            data.len() <= u64::MAX,
            context == Context::NeedsDelimiters || rest.len() == 0,
        ensures
            Self::delimiter_readable(Self::encoding(data, context) + rest, context),
            Self::decoding(Self::encoding(data, context) + rest, context) == Ok::<(Seq<u8>, nat), CoderError>(
                (data, Self::encoding(data, context).len()),
            ),
    {
        match context {
            Context::WholeStream => {
                assert(Self::encoding(data, context) + rest =~= data);
            },
            Context::NeedsDelimiters => {
                let header = varint_bytes(data.len());
                lemma_varint_roundtrip(data.len() as u64, data + rest);
                assert(header + data + rest =~= header + (data + rest));
                let input = header + data + rest;
                assert(input.subrange(header.len() as int, (header.len() + data.len()) as int) =~= data);
            },
        }
    }
}

impl CoderI<Bytes> for BytesCoder {
    open spec fn decode_allowed(&self, reader: Seq<u8>, context: Context) -> bool {
        Self::delimiter_readable(reader, context)
    }

    fn get_coder_urn(&self) -> (r: &'static str)
        ensures
            r == BYTES_CODER_URN,
    {
        BYTES_CODER_URN
    }

    /// Encode the input element (a byte-string) into the output byte stream.
    fn encode(&self, element: &Bytes, writer: &mut Vec<u8>, context: &Context) -> (n: usize)
        ensures
            final(writer)@ == old(writer)@ + Self::encoding(bytes_contents(*element), *context),
            n == bytes_contents(*element).len(),
    {
        let data = bytes_as_slice(element);
        Self::write_bytes(data, writer, context)
    }

    /// Decode the input byte stream into a byte array.
    fn decode(&self, reader: &[u8], context: &Context) -> (r: Result<(Bytes, usize), CoderError>)
        ensures
            match r {
                Ok((v, k)) => Self::decoding(reader@, *context) == Ok::<(Seq<u8>, nat), CoderError>(
                    (bytes_contents(v), k as nat),
                ),
                Err(e) => Self::decoding(reader@, *context) == Err::<(Seq<u8>, nat), CoderError>(e),
            },
    {
        match Self::read_bytes(reader, context) {
            Ok((buf, k)) => Ok((bytes_from_vec(buf), k)),
            Err(e) => Err(e),
        }
    }
}

/// A coder for a key-value pair. Only the coders of its key and its value, by URN,
/// are known of it.
#[derive(Debug)]
pub struct KVCoder {
    pub key_coder: CoderUrnTree,
    pub value_coder: CoderUrnTree,
}

impl KVCoder {
    /// A key-value coder from its component coders: the last one codes values, the one
    /// before it keys.
    pub fn new(component_coders: Vec<CoderUrnTree>) -> (r: Self)
        requires
            component_coders@.len() >= 2,
        ensures
            r.key_coder == component_coders@[component_coders@.len() - 2],
            r.value_coder == component_coders@[component_coders@.len() - 1],
    {
        let mut component_coders = component_coders;
        let value_coder = component_coders.pop().unwrap();
        let key_coder = component_coders.pop().unwrap();
        KVCoder { key_coder, value_coder }
    }

    /// The URN tree of a key-value coder whose key and value coders have the trees `key`
    /// and `value`.
    pub open spec fn spec_coder_urn_tree(key: UrnTree, value: UrnTree) -> UrnTree {
        UrnTree { urn: KV_CODER_URN@, components: seq![key, value] }
    }

    /// The URN tree of a key-value coder with the given key and value coders.
    pub fn coder_urn_tree(key: CoderUrnTree, value: CoderUrnTree) -> (r: CoderUrnTree)
        ensures
            r.spec_tree() == Self::spec_coder_urn_tree(key.spec_tree(), value.spec_tree()),
    {
        let ghost k = key.spec_tree();
        let ghost v = value.spec_tree();
        let mut components = Vec::new();
        components.push(key);
        components.push(value);
        let r = CoderUrnTree { coder_urn: KV_CODER_URN, component_coder_urns: components };
        assert(r.spec_tree().components =~= seq![k, v]);
        r
    }
}

/// A coder for a 'list' or a series of elements of the same type. Only the coder of
/// its elements, by URN, is known of it.
#[derive(Debug)]
pub struct IterableCoder {
    pub elem_coder: CoderUrnTree,
}

impl IterableCoder {
    /// An iterable coder from its component coders: the last one codes the elements.
    pub fn new(component_coders: Vec<CoderUrnTree>) -> (r: Self)
        requires
            component_coders@.len() >= 1,
        ensures
            r.elem_coder == component_coders@[component_coders@.len() - 1],
    {
        let mut component_coders = component_coders;
        let elem_coder = component_coders.pop().unwrap();
        IterableCoder { elem_coder }
    }

    /// The URN tree of an iterable coder whose element coder has the tree `elem`.
    pub open spec fn spec_coder_urn_tree(elem: UrnTree) -> UrnTree {
        UrnTree { urn: ITERABLE_CODER_URN@, components: seq![elem] }
    }

    /// The URN tree of an iterable coder with the given element coder.
    pub fn coder_urn_tree(elem: CoderUrnTree) -> (r: CoderUrnTree)
        ensures
            r.spec_tree() == Self::spec_coder_urn_tree(elem.spec_tree()),
    {
        let ghost e = elem.spec_tree();
        let mut components = Vec::new();
        components.push(elem);
        let r = CoderUrnTree { coder_urn: ITERABLE_CODER_URN, component_coder_urns: components };
        assert(r.spec_tree().components =~= seq![e]);
        r
    }
}

} // verus!
