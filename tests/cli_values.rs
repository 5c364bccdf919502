use jackline::cli::Versions;

#[test]
fn versions_from_words() {
    assert_eq!(Versions::from_str("v4"), Ok(Versions::V4));
    assert_eq!(Versions::from_str("v6"), Ok(Versions::V6));
    assert_eq!(Versions::from_str("v5"), Err("Invalid IP version: v5".to_string()));
    assert_eq!(Versions::from_str(""), Err("Invalid IP version: ".to_string()));
    assert_eq!(Versions::from_str("v44"), Err("Invalid IP version: v44".to_string()));
}
