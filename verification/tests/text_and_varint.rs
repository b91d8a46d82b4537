use apache_beam::text::{join_strings, split_string, usize_to_string};
use apache_beam::varint::{read_varint_i64, read_varint_u64, write_varint_i64, write_varint_u64};

#[test]
fn decimal_numerals() {
    assert_eq!(usize_to_string(0), "0");
    assert_eq!(usize_to_string(105), "105");
    assert_eq!(usize_to_string(usize::MAX), usize::MAX.to_string());
}

#[test]
fn split_and_join_are_inverse() {
    let parts = split_string("a,,bc", ',');
    assert_eq!(parts, vec!["a".to_string(), "".to_string(), "bc".to_string()]);
    assert_eq!(join_strings(&parts, ","), "a,,bc");
    assert_eq!(split_string("", ','), vec!["".to_string()]);
}

#[test]
fn varints() {
    let mut out: Vec<u8> = Vec::new();
    assert_eq!(write_varint_u64(&mut out, 1), 1);
    assert_eq!(write_varint_u64(&mut out, 128), 2);
    assert_eq!(out, vec![1, 0x80, 0x01]);
    assert_eq!(read_varint_u64(&out[1..]), Some((128, 2)));
    let mut signed: Vec<u8> = Vec::new();
    write_varint_i64(&mut signed, i64::MIN);
    assert_eq!(read_varint_i64(&signed), Some((i64::MIN, 10)));
    assert_eq!(read_varint_u64(&[0xff]), None);
}
