use label_conductor::repository::{RepositoryPath, RepositoryPathParseError};

fn parts(text: &str) -> Option<(String, String)> {
    match RepositoryPath::from_str(text) {
        Ok(path) => Some((path.owner().to_string(), path.name().to_string())),
        Err(_) => None,
    }
}

#[test]
fn owner_and_name_are_split_at_the_slash() {
    let path = RepositoryPath::from_str("octo/repo").expect("a valid reference");
    assert_eq!(path.owner(), "octo");
    assert_eq!(path.name(), "repo");
}

#[test]
fn reference_without_slash_is_refused() {
    assert_eq!(
        RepositoryPath::from_str("octo"),
        Err(RepositoryPathParseError::Invalid)
    );
}

#[test]
fn reference_with_two_slashes_is_refused() {
    assert_eq!(
        RepositoryPath::from_str("a/b/c"),
        Err(RepositoryPathParseError::Invalid)
    );
}

#[test]
fn empty_text_is_refused() {
    assert_eq!(parts(""), None);
}

#[test]
fn lone_slash_is_refused() {
    assert_eq!(parts("/"), None);
}

#[test]
fn empty_owner_is_refused() {
    assert_eq!(parts("/repo"), None);
}

#[test]
fn empty_name_is_refused() {
    assert_eq!(parts("octo/"), None);
}

#[test]
fn doubled_slash_is_refused() {
    assert_eq!(parts("octo//repo"), None);
}

#[test]
fn parts_keep_every_other_character() {
    assert_eq!(
        parts("acme-inc/widgets.rs"),
        Some(("acme-inc".to_string(), "widgets.rs".to_string()))
    );
    assert_eq!(parts(" a / b "), Some((" a ".to_string(), " b ".to_string())));
}

#[test]
fn parts_may_hold_characters_of_several_bytes() {
    assert_eq!(
        parts("münchen/straße"),
        Some(("münchen".to_string(), "straße".to_string()))
    );
    assert_eq!(parts("日本/語"), Some(("日本".to_string(), "語".to_string())));
}

#[test]
fn single_character_parts_are_accepted() {
    assert_eq!(parts("a/b"), Some(("a".to_string(), "b".to_string())));
}

#[test]
fn parse_error_has_its_message() {
    let error = RepositoryPath::from_str("nonsense").unwrap_err();
    assert_eq!(error.message(), "invalid repository path");
}

#[test]
fn copy_of_a_reference_equals_it() {
    let path = RepositoryPath::from_str("acme/widgets").unwrap();
    let copy = path.clone();
    assert_eq!(copy, path);
    assert_eq!(copy.owner(), "acme");
    assert_eq!(copy.name(), "widgets");
}
