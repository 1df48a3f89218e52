use ruueb::text::{bytes_eq, has_prefix, parse_u64_range, split_commas, split_ws};

#[test]
fn whitespace_split_drops_empty_tokens() {
    let toks = split_ws(b"  GET \t /  HTTP/1.1 ");
    assert_eq!(
        toks,
        vec![b"GET".to_vec(), b"/".to_vec(), b"HTTP/1.1".to_vec()]
    );
    assert_eq!(split_ws(b"   "), Vec::<Vec<u8>>::new());
}

#[test]
fn comma_split_keeps_empty_fields() {
    assert_eq!(
        split_commas(b",x,"),
        vec![b"".to_vec(), b"x".to_vec(), b"".to_vec()]
    );
    assert_eq!(split_commas(b""), vec![b"".to_vec()]);
    assert_eq!(
        split_commas(b"7,Widget,9.99,3"),
        vec![b"7".to_vec(), b"Widget".to_vec(), b"9.99".to_vec(), b"3".to_vec()]
    );
}

#[test]
fn decimal_parse_accepts_digits_only() {
    let s: &[u8] = b"00123";
    assert_eq!(parse_u64_range(s, 0, s.len()), Some(123));
    let s: &[u8] = b"12a";
    assert_eq!(parse_u64_range(s, 0, s.len()), None);
    let s: &[u8] = b"";
    assert_eq!(parse_u64_range(s, 0, s.len()), None);
    let s: &[u8] = b"18446744073709551615";
    assert_eq!(parse_u64_range(s, 0, s.len()), Some(u64::MAX));
    let s: &[u8] = b"18446744073709551616";
    assert_eq!(parse_u64_range(s, 0, s.len()), None);
}

#[test]
fn slice_comparisons() {
    assert!(bytes_eq(b"abc", b"abc"));
    assert!(!bytes_eq(b"abc", b"abd"));
    assert!(!bytes_eq(b"abc", b"ab"));
    assert!(has_prefix(b"/sleep/12", b"/sleep/"));
    assert!(!has_prefix(b"/sle", b"/sleep/"));
}
