use xhandshake::xinterface::{
    get_auth, read_entry, read_string, read_u16, xauthority_path, AuthParseError, Family,
};

/// Append one authority entry in the credential file's binary format: a
/// big-endian family tag, then four length-prefixed byte strings.
fn push_entry(out: &mut Vec<u8>, family: u16, address: &[u8], number: &[u8], name: &[u8], data: &[u8]) {
    out.extend_from_slice(&family.to_be_bytes());
    for field in [address, number, name, data] {
        out.extend_from_slice(&(field.len() as u16).to_be_bytes());
        out.extend_from_slice(field);
    }
}

#[test]
fn credential_file_location_prefers_the_override() {
    assert_eq!(
        xauthority_path(Some("/tmp/xa".into()), Some("/home/u".into())),
        Some("/tmp/xa".to_string())
    );
    assert_eq!(
        xauthority_path(None, Some("/home/u".into())),
        Some("/home/u/.Xauthority".to_string())
    );
    assert_eq!(xauthority_path(None, None), None);
}

#[test]
fn read_u16_is_big_endian() {
    let bytes = vec![0x01, 0x02, 0xff];
    let mut pos = 0usize;
    assert_eq!(read_u16(&bytes, &mut pos).unwrap(), 258);
    assert_eq!(pos, 2);
}

#[test]
fn read_u16_shortfall_fails() {
    let bytes = vec![0x01];
    let mut pos = 0usize;
    assert!(matches!(
        read_u16(&bytes, &mut pos),
        Err(AuthParseError::UnexpectedEnd)
    ));
}

#[test]
fn read_string_is_length_prefixed() {
    let bytes = vec![0, 3, b'a', b'b', b'c', 9];
    let mut pos = 0usize;
    assert_eq!(read_string(&bytes, &mut pos).unwrap(), b"abc".to_vec());
    assert_eq!(pos, 5);
}

#[test]
fn read_string_truncated_data_fails() {
    let bytes = vec![0, 5, b'a', b'b'];
    let mut pos = 0usize;
    assert!(matches!(
        read_string(&bytes, &mut pos),
        Err(AuthParseError::UnexpectedEnd)
    ));
}

#[test]
fn read_entry_parses_all_fields() {
    let mut bytes = Vec::new();
    push_entry(&mut bytes, 256, b"host", b"0", b"NAME", b"DATA");
    let mut pos = 0usize;
    let entry = read_entry(&bytes, &mut pos).unwrap().unwrap();
    assert_eq!(entry.family, Family::from(256));
    assert_eq!(entry.address, b"host".to_vec());
    assert_eq!(entry.number, b"0".to_vec());
    assert_eq!(entry.name, b"NAME".to_vec());
    assert_eq!(entry.data, b"DATA".to_vec());
    assert_eq!(pos, bytes.len());
}

#[test]
fn read_entry_clean_end_is_none() {
    let bytes = Vec::new();
    let mut pos = 0usize;
    assert!(read_entry(&bytes, &mut pos).unwrap().is_none());
}

#[test]
fn read_entry_truncated_is_error() {
    let mut bytes = Vec::new();
    push_entry(&mut bytes, 1, b"h", b"0", b"N", b"D");
    bytes.truncate(bytes.len() - 1);
    let mut pos = 0usize;
    assert!(matches!(
        read_entry(&bytes, &mut pos),
        Err(AuthParseError::UnexpectedEnd)
    ));
}

#[test]
fn lookup_returns_first_magic_cookie_entry() {
    // Entries [(name="OTHER", data=D1), (name="MIT-MAGIC-COOKIE-1",
    // data=D2)]: the scan returns the magic-cookie pair.
    let d1 = b"first-secret";
    let d2 = b"second-secret";
    let mut file = Vec::new();
    push_entry(&mut file, 256, b"hosta", b"0", b"OTHER", d1);
    push_entry(&mut file, 256, b"hostb", b"1", b"MIT-MAGIC-COOKIE-1", d2);
    let (name, data) = get_auth(&file);
    assert_eq!(name, b"MIT-MAGIC-COOKIE-1".to_vec());
    assert_eq!(data, d2.to_vec());
}

#[test]
fn lookup_without_match_returns_empty_pair() {
    let mut file = Vec::new();
    push_entry(&mut file, 256, b"hosta", b"0", b"OTHER", b"d1");
    push_entry(&mut file, 0, b"hostb", b"1", b"ALSO-NOT-IT", b"d2");
    let (name, data) = get_auth(&file);
    assert!(name.is_empty());
    assert!(data.is_empty());
}

#[test]
fn lookup_on_empty_file_returns_empty_pair() {
    let (name, data) = get_auth(&Vec::new());
    assert!(name.is_empty());
    assert!(data.is_empty());
}

#[test]
fn lookup_stops_at_match_before_bad_tail() {
    let mut file = Vec::new();
    push_entry(&mut file, 256, b"host", b"0", b"MIT-MAGIC-COOKIE-1", b"ck");
    // Garbage, truncated entry after the match.
    file.extend_from_slice(&[0, 1, 0]);
    let (name, data) = get_auth(&file);
    assert_eq!(name, b"MIT-MAGIC-COOKIE-1".to_vec());
    assert_eq!(data, b"ck".to_vec());
}

#[test]
fn lookup_with_malformed_tail_and_no_match_is_empty() {
    let mut file = Vec::new();
    push_entry(&mut file, 256, b"host", b"0", b"OTHER", b"d");
    file.extend_from_slice(&[0, 9, 1]);
    let (name, data) = get_auth(&file);
    assert!(name.is_empty());
    assert!(data.is_empty());
}
