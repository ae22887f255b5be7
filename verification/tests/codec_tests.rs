use favorites_pda::codec::{decode, decode_prefix, encode};
use favorites_pda::errors::ProcessError;
use favorites_pda::state::Favorites;

fn rec(items: Vec<Option<&str>>) -> Favorites {
    Favorites { data: items.into_iter().map(|o| o.map(|s| s.as_bytes().to_vec())).collect() }
}

fn strings(items: Vec<Option<&str>>) -> Vec<Option<String>> {
    items.into_iter().map(|o| o.map(|s| s.to_string())).collect()
}

#[test]
fn encode_matches_borsh() {
    let items = vec![Some("alpha"), None, Some("bravo"), None, None];
    let ours = encode(&rec(items.clone())).unwrap();
    let theirs = borsh::to_vec(&strings(items)).unwrap();
    assert_eq!(ours, theirs);
}

#[test]
fn encode_matches_borsh_single() {
    let items = vec![Some("x")];
    let ours = encode(&rec(items.clone())).unwrap();
    let theirs = borsh::to_vec(&strings(items)).unwrap();
    assert_eq!(ours, theirs);
}

#[test]
fn decode_matches_borsh() {
    let bytes = borsh::to_vec(&strings(vec![None, Some("hello"), Some("")])).unwrap();
    let decoded = decode(&bytes).unwrap();
    assert_eq!(
        decoded.data,
        vec![None, Some(b"hello".to_vec()), Some(Vec::new())]
    );
}

#[test]
fn round_trip_returns_original() {
    let original = rec(vec![Some("alpha"), None, Some("bravo"), None, None]);
    let bytes = encode(&original).unwrap();
    let back = decode(&bytes).unwrap();
    assert_eq!(back.data, original.data);
}

#[test]
fn round_trip_all_absent() {
    let original = Favorites::new();
    let bytes = encode(&original).unwrap();
    let back = decode(&bytes).unwrap();
    assert_eq!(back.data, vec![None; 5]);
}

#[test]
fn decode_rejects_truncated() {
    let mut bytes = encode(&rec(vec![Some("alpha")])).unwrap();
    bytes.pop();
    assert_eq!(decode(&bytes).unwrap_err(), ProcessError::BorshIo);
    assert!(decode_prefix(&bytes).is_err());
}

#[test]
fn decode_rejects_empty() {
    assert_eq!(decode(&[]).unwrap_err(), ProcessError::BorshIo);
}

#[test]
fn decode_rejects_bad_tag() {
    // one entry whose presence tag is neither 0 nor 1
    let bytes = vec![1, 0, 0, 0, 2];
    assert_eq!(decode(&bytes).unwrap_err(), ProcessError::BorshIo);
}

#[test]
fn decode_rejects_trailing_bytes_but_prefix_succeeds() {
    let mut bytes = encode(&rec(vec![None, Some("hi")])).unwrap();
    let exact = bytes.len();
    bytes.push(0xAB);
    assert_eq!(decode(&bytes).unwrap_err(), ProcessError::BorshIo);
    let (fav, used) = decode_prefix(&bytes).unwrap();
    assert_eq!(used, exact);
    assert_eq!(fav.data, vec![None, Some(b"hi".to_vec())]);
}

#[test]
fn get_size_is_canonical() {
    let size = Favorites::get_size().unwrap();
    assert_eq!(size, 79);
    let worst = strings(vec![Some("tenletters"); 5]);
    assert_eq!(size, borsh::to_vec(&worst).unwrap().len());
}

#[test]
fn encoded_size_bounded_for_valid_records() {
    let canonical = Favorites::get_size().unwrap();
    let samples: Vec<Vec<Option<&str>>> = vec![
        vec![Some("tenletters"); 5],
        vec![Some("")],
        vec![None],
        vec![None, None, None, None, None],
        vec![Some("a"), Some("ab"), Some("abc"), Some("abcd"), Some("abcde")],
        vec![Some("tenletters"), None, Some("x"), None, Some("1234567890")],
    ];
    for items in samples {
        let fav = rec(items);
        assert!(fav.validate().is_ok());
        let bytes = encode(&fav).unwrap();
        assert!(bytes.len() <= canonical);
    }
}
