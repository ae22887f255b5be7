use favorites_pda::errors::{FavoritesError, ProcessError};
use favorites_pda::state::Favorites;

fn rec(items: Vec<Option<&str>>) -> Favorites {
    Favorites { data: items.into_iter().map(|o| o.map(|s| s.as_bytes().to_vec())).collect() }
}

#[test]
fn validate_rejects_empty() {
    let fav = Favorites { data: Vec::new() };
    assert_eq!(
        fav.validate().unwrap_err(),
        ProcessError::Favorites(FavoritesError::InvalidLength)
    );
}

#[test]
fn validate_rejects_six_entries() {
    let fav = rec(vec![Some("a"), Some("b"), Some("c"), Some("d"), Some("e"), Some("f")]);
    assert_eq!(
        fav.validate().unwrap_err(),
        ProcessError::Favorites(FavoritesError::ExceedsMaxLength)
    );
}

#[test]
fn validate_rejects_eleven_byte_entry() {
    let fav = rec(vec![Some("ok"), Some("elevenchar!")]);
    assert_eq!(
        fav.validate().unwrap_err(),
        ProcessError::Favorites(FavoritesError::ExceedsIndMaxLength)
    );
}

#[test]
fn validate_accepts_each_length_in_bounds() {
    for n in 1..=5usize {
        let fav = rec(vec![Some("tenletters"); n]);
        assert!(fav.validate().is_ok());
    }
}

#[test]
fn validate_accepts_all_absent() {
    assert!(Favorites::new().validate().is_ok());
}

#[test]
fn validate_accepts_empty_string_entry() {
    assert!(rec(vec![Some("")]).validate().is_ok());
}

#[test]
fn new_record_has_five_absent_entries() {
    let fav = Favorites::new();
    assert_eq!(fav.data, vec![None; 5]);
}

#[test]
fn error_codes_are_stable() {
    assert_eq!(FavoritesError::InvalidLength.code(), 0);
    assert_eq!(FavoritesError::ExceedsMaxLength.code(), 1);
    assert_eq!(FavoritesError::ExceedsIndMaxLength.code(), 2);
    assert_eq!(FavoritesError::IncorrectFavoritesId.code(), 3);
    assert_eq!(FavoritesError::SignerNotFound.code(), 4);
}
