use sass_dep::parser::{Directive, Location, Namespace, Parser, Visibility};

fn parse(input: &str) -> Vec<Directive> {
    Parser::parse(input).unwrap()
}

fn paths(input: &str) -> Vec<String> {
    parse(input)
        .iter()
        .flat_map(|d| d.paths().into_iter().map(|p| p.to_string()).collect::<Vec<_>>())
        .collect()
}

#[test]
fn empty_and_plain_text_have_no_directives() {
    assert!(parse("").is_empty());
    assert!(parse("a { color: red; }").is_empty());
    assert!(parse("@").is_empty());
    assert!(parse("@use").is_empty());
    assert!(parse("@use\"x\"").is_empty());
    assert!(parse("@use x;").is_empty());
    assert!(parse("@use \"x").is_empty());
    assert!(parse("@import ;").is_empty());
}

#[test]
fn strings_hide_directives_until_the_closing_quote() {
    assert_eq!(paths("'@use \"no\"' @use \"yes\";"), vec!["yes"]);
    assert_eq!(paths("\"it's\" @use 'a';"), vec!["a"]);
    // an escaped quote does not close the string
    assert_eq!(paths("\"a\\\" @use 'hidden';\" @use 'seen';"), vec!["seen"]);
    // an unterminated string hides the rest
    assert!(paths("\" @use 'x';").is_empty());
}

#[test]
fn comments_hide_directives() {
    assert_eq!(paths("// @use 'no';\n@use 'yes';"), vec!["yes"]);
    assert_eq!(paths("/* @use 'no'; */@use 'yes';"), vec!["yes"]);
    assert_eq!(paths("/*\"\"*/@use \"x\";"), vec!["x"]);
    assert_eq!(paths("/*/ @use 'no'; */ @use 'yes';"), vec!["yes"]);
    assert!(paths("/* @use 'no';").is_empty());
    assert_eq!(paths("/ @use 'a';"), vec!["a"]);
    // a quote inside a comment opens no string
    assert_eq!(paths("// don't\n@use 'a';"), vec!["a"]);
    // comment markers inside a string are text
    assert_eq!(paths("'//' @use 'a';"), vec!["a"]);
}

#[test]
fn a_failed_at_sign_is_ordinary_text() {
    assert_eq!(paths("@media @use 'a';"), vec!["a"]);
    assert_eq!(paths("@@use 'a';"), vec!["a"]);
    assert_eq!(paths("@user 'a'; @use 'b'"), vec!["b"]);
}

#[test]
fn locations_count_lines_and_bytes() {
    let found = parse("a{}\n  @use \"x\";\n\u{e9}\u{20ac}\u{1f600} @forward 'y'\n\n@import 'z'");
    let at: Vec<Location> = found.iter().map(|d| *d.location()).collect();
    assert_eq!(
        at,
        vec![Location::new(2, 3), Location::new(3, 11), Location::new(5, 1)]
    );
    // line feeds inside a directive count as well
    let found = parse("@use \"a\"\n\n@use \"b\"");
    assert_eq!(*found[1].location(), Location::new(3, 1));
}

#[test]
fn use_clauses() {
    let found = parse("@UsE\t\"m\"\n as\n ns  WITH( $a: (1) ) ;@use 'n' as *with();@use \"o\" as");
    assert_eq!(found.len(), 3);
    match &found[0] {
        Directive::Use(u) => {
            assert_eq!(u.path, "m");
            assert_eq!(u.namespace, Some(Namespace::Named("ns".to_string())));
            assert!(u.configured);
        }
        other => panic!("unexpected {:?}", other),
    }
    match &found[1] {
        Directive::Use(u) => {
            assert_eq!(u.namespace, Some(Namespace::Star));
            assert!(u.configured);
        }
        other => panic!("unexpected {:?}", other),
    }
    match &found[2] {
        Directive::Use(u) => {
            assert_eq!(u.path, "o");
            assert_eq!(u.namespace, None);
            assert!(!u.configured);
        }
        other => panic!("unexpected {:?}", other),
    }
    // the configuration ends at the first closing parenthesis
    match &parse("@use 'a' with (x")[0] {
        Directive::Use(u) => assert!(!u.configured),
        other => panic!("unexpected {:?}", other),
    }
}

#[test]
fn namespace_identifiers_take_letters_digits_dash_and_underscore() {
    match &parse("@use 'a' as n\u{e4}me_1-x.y")[0] {
        Directive::Use(u) => {
            assert_eq!(u.namespace, Some(Namespace::Named("n\u{e4}me_1-x".to_string())))
        }
        other => panic!("unexpected {:?}", other),
    }
    match &parse("@use 'a' as $x")[0] {
        Directive::Use(u) => assert_eq!(u.namespace, None),
        other => panic!("unexpected {:?}", other),
    }
}

#[test]
fn forward_clauses() {
    match &parse("@forward 'f' as a-b-* hide x , $y,z;")[0] {
        Directive::Forward(f) => {
            assert_eq!(f.prefix, Some("a-b-".to_string()));
            assert_eq!(
                f.visibility,
                Visibility::Hide(vec!["x".to_string(), "$y".to_string(), "z".to_string()])
            );
        }
        other => panic!("unexpected {:?}", other),
    }
    // a prefix must end in -*
    match &parse("@forward 'f' as pre show a")[0] {
        Directive::Forward(f) => {
            assert_eq!(f.prefix, None);
            assert_eq!(f.visibility, Visibility::All);
        }
        other => panic!("unexpected {:?}", other),
    }
    match &parse("@forward 'f' show")[0] {
        Directive::Forward(f) => assert_eq!(f.visibility, Visibility::All),
        other => panic!("unexpected {:?}", other),
    }
    // a separator without a member after it is not part of the list
    let found = parse("@forward 'f' show a, ;@use 'next';");
    assert_eq!(found.len(), 2);
    match &found[0] {
        Directive::Forward(f) => assert_eq!(f.visibility, Visibility::Show(vec!["a".to_string()])),
        other => panic!("unexpected {:?}", other),
    }
}

#[test]
fn import_lists() {
    assert_eq!(paths("@import 'a' , \"b\",'c'"), vec!["a", "b", "c"]);
    assert_eq!(paths("@import 'a', b"), vec!["a"]);
    assert_eq!(paths("@IMPORT 'a';@import \"\";"), vec!["a", ""]);
    // quotes must match, and nothing is escaped inside
    assert_eq!(paths("@import 'a\"b';"), vec!["a\"b"]);
    assert_eq!(paths("@import 'a\\';"), vec!["a\\"]);
}
