use pic::{pic_cross_token, pic_plus_token};

#[test]
fn token_ids_are_decimal() {
    assert_eq!(pic_plus_token(Some("128009")), Some(128009));
    assert_eq!(pic_cross_token(Some("+7")), Some(7));
    assert_eq!(pic_plus_token(Some("0012")), Some(12));
    assert_eq!(pic_cross_token(Some("4294967295")), Some(u32::MAX));
}

#[test]
fn an_unset_variable_has_no_token() {
    assert_eq!(pic_plus_token(None), None);
    assert_eq!(pic_cross_token(None), None);
}

#[test]
fn other_texts_have_no_token() {
    for text in ["", "+", "-1", "-0", " 5", "5 ", "1_0", "0x1f", "twelve", "4294967296", "++1"] {
        assert_eq!(pic_plus_token(Some(text)), None);
        assert_eq!(pic_cross_token(Some(text)), None);
    }
}
