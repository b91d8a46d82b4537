use apache_beam::coders::preset_coder::{coder_from_urn, preset_coder_from_variant, PresetCoder};
use apache_beam::coders::coder_resolver::{BytesCoderResolverDefault, CoderResolver, KVCoderResolverDefault};
use apache_beam::coders::required_coders::{BytesCoder, IterableCoder, KVCoder};
use apache_beam::coders::rust_coders::{GeneralObjectCoder, UnitCoder};
use apache_beam::coders::standard_coders::{StrUtf8Coder, VarIntCoder};
use apache_beam::coders::{CoderError, CoderI, CoderRegistry, CoderTypeDiscriminants, CoderUrnTree, Context};
use apache_beam::elem_types::{DefaultCoder, KV};
use apache_beam::test_custom_coders::{MyCoder, MyElement};
use apache_beam::urns::PresetCoderUrn;
use bytes::Bytes;

#[test]
fn test_general_object_coder() {
    let coder: GeneralObjectCoder<String> = GeneralObjectCoder::new();
    let input = "abcde".to_string();

    let mut writer: Vec<u8> = Vec::new();
    coder.encode(&input, &mut writer, &Context::NeedsDelimiters);

    let (decoded, _) = coder.decode(&writer, &Context::NeedsDelimiters).unwrap();

    assert_eq!(input, decoded);
}

#[test]
fn general_object_coder_writes_marker_then_string() {
    let coder: GeneralObjectCoder<String> = GeneralObjectCoder::new();
    let mut writer: Vec<u8> = Vec::new();
    let n = coder.encode(&"ab".to_string(), &mut writer, &Context::NeedsDelimiters);
    assert_eq!(writer, vec![b'S', 2, b'a', b'b']);
    assert_eq!(n, 2);
    let (s, k) = coder.decode(&[b'S', 2, b'x', b'y', 9], &Context::NeedsDelimiters).unwrap();
    assert_eq!(s, "xy");
    assert_eq!(k, 4);
    assert_eq!(coder.decode(&[], &Context::WholeStream), Err(CoderError::UnexpectedEof));
}

#[test]
fn bytes_coder_delimited_encoding() {
    let coder = BytesCoder::new();
    let mut writer: Vec<u8> = vec![7];
    let n = coder.encode(&Bytes::from(vec![1u8, 2, 3]), &mut writer, &Context::NeedsDelimiters);
    assert_eq!(n, 3);
    assert_eq!(writer, vec![7, 3, 1, 2, 3]);
}

#[test]
fn bytes_coder_whole_stream_encoding() {
    let coder = BytesCoder::new();
    let mut writer: Vec<u8> = Vec::new();
    coder.encode(&Bytes::from(vec![9u8, 8]), &mut writer, &Context::WholeStream);
    assert_eq!(writer, vec![9, 8]);
    let (b, k) = coder.decode(&[4, 5, 6], &Context::WholeStream).unwrap();
    assert_eq!(b.as_ref(), &[4u8, 5, 6][..]);
    assert_eq!(k, 3);
}

#[test]
fn bytes_coder_long_delimiter() {
    let data: Vec<u8> = (0..200u32).map(|i| (i % 256) as u8).collect();
    let mut writer: Vec<u8> = Vec::new();
    BytesCoder::write_bytes(&data, &mut writer, &Context::NeedsDelimiters);
    assert_eq!(&writer[..2], &[0xC8, 0x01]);
    assert_eq!(writer.len(), 202);
    let (back, k) = BytesCoder::read_bytes(&writer, &Context::NeedsDelimiters).unwrap();
    assert_eq!(back, data);
    assert_eq!(k, 202);
}

#[test]
fn bytes_coder_reads_only_its_element() {
    let coder = BytesCoder::new();
    let (b, k) = coder.decode(&[2, 10, 11, 12, 13], &Context::NeedsDelimiters).unwrap();
    assert_eq!(b.as_ref(), &[10u8, 11][..]);
    assert_eq!(k, 3);
}

#[test]
fn bytes_coder_truncated_input() {
    let coder = BytesCoder::new();
    assert_eq!(coder.decode(&[5, 1, 2], &Context::NeedsDelimiters).map(|(_, k)| k), Err(CoderError::UnexpectedEof));
}

#[test]
fn str_utf8_coder_roundtrip() {
    let coder = StrUtf8Coder::new();
    let mut writer: Vec<u8> = Vec::new();
    let n = coder.encode(&"héllo".to_string(), &mut writer, &Context::NeedsDelimiters);
    assert_eq!(n, 6);
    assert_eq!(writer[0], 6);
    let (s, k) = coder.decode(&writer, &Context::NeedsDelimiters).unwrap();
    assert_eq!(s, "héllo");
    assert_eq!(k, 7);
}

#[test]
fn str_utf8_coder_invalid_utf8() {
    let coder = StrUtf8Coder::new();
    assert_eq!(coder.decode(&[0xff, 0xfe], &Context::WholeStream), Err(CoderError::InvalidUtf8));
    assert_eq!(coder.get_coder_urn(), "beam:coder:string_utf8:v1");
}

#[test]
fn varint_coder_u64() {
    let coder: VarIntCoder<u64> = VarIntCoder::new();
    let mut writer: Vec<u8> = Vec::new();
    coder.encode(&300u64, &mut writer, &Context::WholeStream);
    assert_eq!(writer, vec![0xAC, 0x02]);
    assert_eq!(coder.decode(&[0xAC, 0x02, 0x05], &Context::WholeStream), Ok((300u64, 2)));
    let mut max: Vec<u8> = Vec::new();
    coder.encode(&u64::MAX, &mut max, &Context::WholeStream);
    assert_eq!(max.len(), 10);
    assert_eq!(coder.decode(&max, &Context::WholeStream), Ok((u64::MAX, 10)));
}

#[test]
fn varint_coder_i64_zigzag() {
    let coder: VarIntCoder<i64> = VarIntCoder::new();
    let mut writer: Vec<u8> = Vec::new();
    coder.encode(&-1i64, &mut writer, &Context::WholeStream);
    coder.encode(&1i64, &mut writer, &Context::WholeStream);
    coder.encode(&-64i64, &mut writer, &Context::WholeStream);
    assert_eq!(writer, vec![1, 2, 127]);
    assert_eq!(coder.decode(&[3], &Context::WholeStream), Ok((-2i64, 1)));
}

#[test]
fn varint_coder_errors() {
    let coder: VarIntCoder<u64> = VarIntCoder::new();
    assert_eq!(coder.decode(&[0x80, 0x80], &Context::WholeStream), Err(CoderError::UnexpectedEof));
    assert_eq!(coder.decode(&[], &Context::WholeStream), Err(CoderError::UnexpectedEof));
    let too_long = [0x80u8; 11];
    assert_eq!(coder.decode(&too_long, &Context::WholeStream), Err(CoderError::InvalidData));
}

#[test]
fn unit_coder_writes_nothing() {
    let coder = UnitCoder::new();
    let mut writer: Vec<u8> = vec![1];
    assert_eq!(coder.encode(&(), &mut writer, &Context::NeedsDelimiters), 0);
    assert_eq!(writer, vec![1]);
    assert_eq!(coder.decode(&[5, 6], &Context::NeedsDelimiters), Ok(((), 0)));
}

#[test]
fn custom_coder_roundtrip() {
    let coder = MyCoder::new(Vec::new());
    let element = MyElement { some_field: "value".to_string() };
    let mut writer: Vec<u8> = Vec::new();
    assert_eq!(coder.encode(&element, &mut writer, &Context::WholeStream), 0);
    assert_eq!(writer, b"ENCPREFIXvalue".to_vec());
    let (decoded, k) = coder.decode(&writer, &Context::WholeStream).unwrap();
    assert_eq!(decoded, element);
    assert_eq!(k, 14);
    assert_eq!(coder.get_coder_urn(), "beam:coder:rustsdk:1.0:MyCoder");
    assert_eq!(MyElement::default_coder_urn().coder_urn, "beam:coder:rustsdk:1.0:MyCoder");
}

#[test]
fn registry_knows_preset_coders() {
    let mut registry = CoderRegistry::new();
    assert!(registry.has_coder_type("beam:coder:bytes:v1"));
    assert_eq!(*registry.get_coder_type("beam:coder:kvcoder:v1"), CoderTypeDiscriminants::KV);
    assert_eq!(*registry.get_coder_type("beam:coder:varint:v1"), CoderTypeDiscriminants::VarIntCoder);
    assert!(!registry.has_coder_type("beam:coder:custom:v1"));
    registry.register("beam:coder:custom:v1", CoderTypeDiscriminants::GeneralObject);
    assert_eq!(*registry.get_coder_type("beam:coder:custom:v1"), CoderTypeDiscriminants::GeneralObject);
    registry.register("beam:coder:bytes:v1", CoderTypeDiscriminants::StrUtf8);
    assert_eq!(*registry.get_coder_type("beam:coder:bytes:v1"), CoderTypeDiscriminants::StrUtf8);
}

#[test]
fn preset_urns_roundtrip() {
    assert_eq!(PresetCoderUrn::from_urn("beam:coder:iterable:v1"), Some(PresetCoderUrn::Iterable));
    assert_eq!(PresetCoderUrn::Unit.as_str(), "beam:coder:rustsdk:1.0:unit:v1");
    assert_eq!(PresetCoderUrn::from_urn(PresetCoderUrn::GeneralObject.as_str()), Some(PresetCoderUrn::GeneralObject));
    assert_eq!(PresetCoderUrn::from_urn("beam:coder:nothing:v1"), None);
}

#[test]
fn default_coder_trees() {
    let t = KV::<String, Vec<u64>>::default_coder_urn();
    assert_eq!(t.coder_urn, "beam:coder:kvcoder:v1");
    assert_eq!(t.component_coder_urns.len(), 2);
    assert_eq!(t.component_coder_urns[0].coder_urn, "beam:coder:string_utf8:v1");
    assert_eq!(t.component_coder_urns[1].coder_urn, "beam:coder:iterable:v1");
    assert_eq!(t.component_coder_urns[1].component_coder_urns[0].coder_urn, "beam:coder:varint:v1");
    assert_eq!(Bytes::default_coder_urn().coder_urn, "beam:coder:bytes:v1");
}

#[test]
fn component_coders_are_taken_from_the_end() {
    let comps = vec![CoderUrnTree::leaf("a"), CoderUrnTree::leaf("b"), CoderUrnTree::leaf("c")];
    let kv = KVCoder::new(comps);
    assert_eq!(kv.key_coder.coder_urn, "b");
    assert_eq!(kv.value_coder.coder_urn, "c");
    let it = IterableCoder::new(vec![CoderUrnTree::leaf("x"), CoderUrnTree::leaf("y")]);
    assert_eq!(it.elem_coder.coder_urn, "y");
}

#[test]
fn resolvers_match_their_urn() {
    assert!(BytesCoderResolverDefault.resolve("beam:coder:bytes:v1").is_some());
    assert!(BytesCoderResolverDefault.resolve("beam:coder:kvcoder:v1").is_none());
    let kv_resolver: KVCoderResolverDefault<String, u64> = KVCoderResolverDefault::new();
    let c = kv_resolver.resolve("beam:coder:kvcoder:v1").unwrap();
    assert_eq!(c.key_coder.coder_urn, "beam:coder:string_utf8:v1");
    assert_eq!(c.value_coder.coder_urn, "beam:coder:varint:v1");
    assert!(kv_resolver.resolve("beam:coder:bytes:v1").is_none());
}

#[test]
fn preset_coders_from_variants() {
    let kv = preset_coder_from_variant(
        &PresetCoderUrn::Kv,
        vec![CoderUrnTree::leaf("k"), CoderUrnTree::leaf("v")],
    );
    match kv {
        PresetCoder::Kv(c) => {
            assert_eq!(c.key_coder.coder_urn, "k");
            assert_eq!(c.value_coder.coder_urn, "v");
        }
        other => panic!("unexpected coder {:?}", other),
    }
    assert!(matches!(preset_coder_from_variant(&PresetCoderUrn::Unit, vec![]), PresetCoder::Unit(_)));
    assert!(matches!(
        coder_from_urn(&CoderUrnTree::leaf("beam:coder:string_utf8:v1")),
        Some(PresetCoder::StrUtf8(_))
    ));
    assert!(matches!(
        coder_from_urn(&CoderUrnTree::leaf("beam:coder:rustsdk:1.0:genericobject:v1")),
        Some(PresetCoder::GeneralObject(_))
    ));
    assert!(coder_from_urn(&CoderUrnTree::leaf("beam:coder:rustsdk:1.0:MyCoder")).is_none());
}

#[test]
fn defaults_equal_new() {
    assert_eq!(CoderRegistry::default().has_coder_type("beam:coder:iterable:v1"), true);
    assert_eq!(*CoderRegistry::default().get_coder_type("beam:coder:string_utf8:v1"), CoderTypeDiscriminants::StrUtf8);
    assert!(!CoderRegistry::default().has_coder_type("beam:coder:rustsdk:1.0:unit:v1"));
    let mut w: Vec<u8> = Vec::new();
    BytesCoder::default().encode(&Bytes::from(vec![1u8]), &mut w, &Context::NeedsDelimiters);
    StrUtf8Coder::default().encode(&"a".to_string(), &mut w, &Context::NeedsDelimiters);
    UnitCoder::default().encode(&(), &mut w, &Context::NeedsDelimiters);
    VarIntCoder::<u64>::default().encode(&5u64, &mut w, &Context::WholeStream);
    GeneralObjectCoder::<String>::default().encode(&"b".to_string(), &mut w, &Context::NeedsDelimiters);
    assert_eq!(w, vec![1, 1, 1, b'a', 5, b'S', 1, b'b']);
}
