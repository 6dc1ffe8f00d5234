use activity_store::error::Error;
use activity_store::id::Id;

const ABC_DIGEST: &str = "ba7816bf8f01cfea414140de5dae2223b00361a396177a9cb410ff61f20015ad";

#[test]
fn new_digests_the_key_bytes() {
    let id = Id::new("abc");
    assert_eq!(id.to_hex(), ABC_DIGEST);
}

#[test]
fn new_digests_a_timestamp_key() {
    let id = Id::new("2021-05-01T10:00:00Z");
    assert_eq!(
        id.to_hex(),
        "e7e5a7cb620c6cf0f82a31756ae635a2a1fdd9319310c0849ddf6378b4295d0b"
    );
}

#[test]
fn new_digests_the_empty_key() {
    let id = Id::new("");
    assert_eq!(
        id.to_hex(),
        "e3b0c44298fc1c149afbf4c8996fb92427ae41e4649b934ca495991b7852b855"
    );
}

#[test]
fn new_is_deterministic() {
    let a = Id::new("2021-05-01T10:00:00Z");
    let b = Id::new("2021-05-01T10:00:00Z");
    assert_eq!(a.hash, b.hash);
    assert!(a.same_as(&b));
    let c = Id::new("2021-05-01T10:00:01Z");
    assert!(!a.same_as(&c));
}

#[test]
fn to_hex_is_lowercase_and_two_digits_per_byte() {
    let mut hash = [0u8; 32];
    hash[0] = 0x0f;
    hash[1] = 0xa0;
    hash[31] = 0xff;
    let text = Id { hash }.to_hex();
    assert_eq!(text.len(), 64);
    assert!(text.starts_with("0fa000"));
    assert!(text.ends_with("00ff"));
}

#[test]
fn from_reads_back_to_hex() {
    let id = Id::new("abc");
    let back = Id::from(&id.to_hex()).unwrap();
    assert_eq!(back.hash, id.hash);
}

#[test]
fn from_accepts_uppercase_digits() {
    let upper = ABC_DIGEST.to_uppercase();
    let id = Id::from(&upper).unwrap();
    assert_eq!(id.hash, Id::new("abc").hash);
}

#[test]
fn from_gives_the_bytes_of_the_text() {
    let text = format!("{}{}", "00".repeat(31), "7f");
    let id = Id::from(&text).unwrap();
    let mut expected = [0u8; 32];
    expected[31] = 0x7f;
    assert_eq!(id.hash, expected);
}

#[test]
fn from_refuses_short_text() {
    assert_eq!(Id::from(&ABC_DIGEST[..62]).unwrap_err(), Error::InvalidIdentifier);
}

#[test]
fn from_refuses_long_text() {
    let text = format!("{}00", ABC_DIGEST);
    assert_eq!(Id::from(&text).unwrap_err(), Error::InvalidIdentifier);
}

#[test]
fn from_refuses_odd_length() {
    assert_eq!(Id::from(&ABC_DIGEST[..63]).unwrap_err(), Error::InvalidIdentifier);
}

#[test]
fn from_refuses_non_hex_characters() {
    let text = format!("{}zz", &ABC_DIGEST[..62]);
    assert_eq!(Id::from(&text).unwrap_err(), Error::InvalidIdentifier);
}

#[test]
fn from_refuses_non_ascii_text() {
    let text = format!("{}\u{e9}", &ABC_DIGEST[..62]);
    assert_eq!(Id::from(&text).unwrap_err(), Error::InvalidIdentifier);
}

#[test]
fn from_refuses_empty_text() {
    assert_eq!(Id::from("").unwrap_err(), Error::InvalidIdentifier);
}
