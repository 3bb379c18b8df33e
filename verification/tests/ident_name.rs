use fjord::ident_name::{IdentName, IdentNameError};

#[test]
fn camel_case() {
    let (rest, name) = IdentName::new("camelCase").unwrap();
    assert_eq!(rest, "");
    assert_eq!(name.as_str(), "camelCase");
    assert_eq!(name, IdentName::new_panicking("camelCase"));
}

#[test]
fn pascal_case() {
    assert!(IdentName::new("PascalCase").is_err())
}

#[test]
fn shouty_snake_case() {
    assert!(IdentName::new("SHOUTY_SNAKE_CASE").is_err())
}

// These two tests assert not that the cases fail, but that they do not use up
// all of their input.

#[test]
fn snake_case() {
    assert_ne!(IdentName::new("snake_case").unwrap().0, "");
}

#[test]
fn kebab_case() {
    assert_ne!(IdentName::new("kebab-case").unwrap().0, "");
}

#[test]
fn ident_name_stops_at_first_non_alphanumeric() {
    let (rest, name) = IdentName::new("abc1Z rest").unwrap();
    assert_eq!(name.as_str(), "abc1Z");
    assert_eq!(rest, " rest");
}

#[test]
fn ident_name_rejects_keywords_inside_names() {
    assert_eq!(IdentName::new("iffy"), Err(IdentNameError::HoldsKeyword));
    assert_eq!(IdentName::new("mythen"), Err(IdentNameError::HoldsKeyword));
    assert_eq!(IdentName::new("someelseX"), Err(IdentNameError::HoldsKeyword));
    assert_eq!(IdentName::new("istrue"), Err(IdentNameError::HoldsKeyword));
    assert_eq!(IdentName::new("notfalse"), Err(IdentNameError::HoldsKeyword));
    assert!(IdentName::new("someElseX").is_ok());
    assert_eq!(IdentName::new(""), Err(IdentNameError::NoLowercaseStart));
    assert_eq!(IdentName::new("9lives"), Err(IdentNameError::NoLowercaseStart));
}

#[test]
fn new_panicking_gives_whole_name() {
    assert_eq!(IdentName::new_panicking("fooBar9").as_str(), "fooBar9");
}
