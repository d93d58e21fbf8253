use sass_dep::parser::{
    Directive, ForwardDirective, ImportDirective, Location, Namespace, ParseError, UseDirective,
    Visibility,
};

#[test]
fn directive_paths_use() {
    let directive = Directive::Use(UseDirective {
        path: "variables".to_string(),
        namespace: None,
        configured: false,
        location: Location::default(),
    });
    assert_eq!(directive.paths(), vec!["variables"]);
}

#[test]
fn directive_paths_import() {
    let directive = Directive::Import(ImportDirective {
        paths: vec!["a".to_string(), "b".to_string()],
        location: Location::default(),
    });
    assert_eq!(directive.paths(), vec!["a", "b"]);
}

#[test]
fn namespace_as_str() {
    assert_eq!(Namespace::Named("foo".to_string()).as_str(), Some("foo"));
    assert_eq!(Namespace::Star.as_str(), Some("*"));
    assert_eq!(Namespace::Default.as_str(), None);
}

#[test]
fn parse_error_display() {
    let err = ParseError::InvalidDirective {
        line: 10,
        column: 5,
        message: "expected string".to_string(),
    };
    assert_eq!(
        err.to_string(),
        "Failed to parse directive at line 10, column 5: expected string"
    );
}

#[test]
fn unterminated_string_display() {
    let err = ParseError::UnterminatedString { line: 1, column: 1 };
    assert_eq!(err.to_string(), "Unterminated string at line 1, column 1");
}

#[test]
fn unexpected_eof_and_io_display() {
    let err = ParseError::UnexpectedEof { line: 120, column: 4096 };
    assert_eq!(err.to_string(), "Unexpected end of input at line 120, column 4096");
    let err = ParseError::Io("denied".to_string());
    assert_eq!(err.to_string(), "IO error: denied");
    let err = ParseError::UnterminatedString { line: 0, column: usize::MAX };
    assert_eq!(
        err.to_string(),
        format!("Unterminated string at line 0, column {}", usize::MAX)
    );
}

#[test]
fn parse_error_constructors() {
    let at = Location::new(3, 14);
    assert!(matches!(
        ParseError::invalid_directive(&at, "bad"),
        ParseError::InvalidDirective { line: 3, column: 14, ref message } if message == "bad"
    ));
    assert!(matches!(
        ParseError::unterminated_string(&at),
        ParseError::UnterminatedString { line: 3, column: 14 }
    ));
    assert!(matches!(
        ParseError::unexpected_eof(&at),
        ParseError::UnexpectedEof { line: 3, column: 14 }
    ));
}

#[test]
fn directive_location_of_each_kind() {
    let at = Location::new(2, 7);
    let forward = Directive::Forward(ForwardDirective {
        path: "x".to_string(),
        prefix: None,
        visibility: Visibility::All,
        location: at,
    });
    assert_eq!(*forward.location(), at);
    assert_eq!(forward.paths(), vec!["x"]);
    let import = Directive::Import(ImportDirective { paths: vec![], location: at });
    assert_eq!(*import.location(), at);
    assert!(import.paths().is_empty());
    assert_eq!(Location::default(), Location::new(0, 0));
}
