use depbank::DepError;
use depbank::ErrorKind;

#[test]
fn message_names_kind_and_path() {
    assert_eq!(DepError::not_found("/p/Cargo.lock").message(), "not found: /p/Cargo.lock");
    assert_eq!(DepError::not_a_directory("/p/f").message(), "not a directory: /p/f");
}

#[test]
fn message_names_the_cause_where_there_is_one() {
    assert_eq!(
        DepError::parse("/p/Cargo.toml", "expected `]`").message(),
        "parse error: /p/Cargo.toml: expected `]`"
    );
    assert_eq!(DepError::io("/p", "denied").message(), "i/o error: /p: denied");
    assert_eq!(
        DepError::new(ErrorKind::Collaborator, "f.md", "bad input").message(),
        "collaborator failure: f.md: bad input"
    );
}

#[test]
fn constructors_set_kind_path_and_cause() {
    let error = DepError::io("/p", "denied");
    assert_eq!(error.kind, ErrorKind::IoError);
    assert_eq!(error.path, "/p");
    assert_eq!(error.cause, "denied");
    assert_eq!(error.label(), "i/o error");
}
