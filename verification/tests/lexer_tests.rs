use sass_dep::parser::{Directive, Namespace, Parser, Visibility};

#[test]
fn parse_simple_use() {
    let input = r#"@use "variables";"#;
    let directives = Parser::parse(input).unwrap();
    assert_eq!(directives.len(), 1);

    if let Directive::Use(use_dir) = &directives[0] {
        assert_eq!(use_dir.path, "variables");
        assert!(use_dir.namespace.is_none());
        assert!(!use_dir.configured);
    } else {
        panic!("Expected Use directive");
    }
}

#[test]
fn parse_use_with_namespace() {
    let input = r#"@use "variables" as vars;"#;
    let directives = Parser::parse(input).unwrap();
    assert_eq!(directives.len(), 1);

    if let Directive::Use(use_dir) = &directives[0] {
        assert_eq!(use_dir.path, "variables");
        assert_eq!(use_dir.namespace, Some(Namespace::Named("vars".to_string())));
    } else {
        panic!("Expected Use directive");
    }
}

#[test]
fn parse_use_with_star() {
    let input = r#"@use "variables" as *;"#;
    let directives = Parser::parse(input).unwrap();

    if let Directive::Use(use_dir) = &directives[0] {
        assert_eq!(use_dir.namespace, Some(Namespace::Star));
    } else {
        panic!("Expected Use directive");
    }
}

#[test]
fn parse_use_with_configuration() {
    let input = r#"@use "variables" with ($primary: blue);"#;
    let directives = Parser::parse(input).unwrap();

    if let Directive::Use(use_dir) = &directives[0] {
        assert!(use_dir.configured);
    } else {
        panic!("Expected Use directive");
    }
}

#[test]
fn parse_simple_forward() {
    let input = r#"@forward "mixins";"#;
    let directives = Parser::parse(input).unwrap();
    assert_eq!(directives.len(), 1);

    if let Directive::Forward(fwd_dir) = &directives[0] {
        assert_eq!(fwd_dir.path, "mixins");
        assert!(fwd_dir.prefix.is_none());
        assert_eq!(fwd_dir.visibility, Visibility::All);
    } else {
        panic!("Expected Forward directive");
    }
}

#[test]
fn parse_forward_with_prefix() {
    let input = r#"@forward "functions" as fn-*;"#;
    let directives = Parser::parse(input).unwrap();

    if let Directive::Forward(fwd_dir) = &directives[0] {
        assert_eq!(fwd_dir.prefix, Some("fn-".to_string()));
    } else {
        panic!("Expected Forward directive");
    }
}

#[test]
fn parse_forward_with_show() {
    let input = r#"@forward "utils" show $var, mixin-name;"#;
    let directives = Parser::parse(input).unwrap();

    if let Directive::Forward(fwd_dir) = &directives[0] {
        assert_eq!(
            fwd_dir.visibility,
            Visibility::Show(vec!["$var".to_string(), "mixin-name".to_string()])
        );
    } else {
        panic!("Expected Forward directive");
    }
}

#[test]
fn parse_forward_with_hide() {
    let input = r#"@forward "utils" hide internal, $private;"#;
    let directives = Parser::parse(input).unwrap();

    if let Directive::Forward(fwd_dir) = &directives[0] {
        assert_eq!(
            fwd_dir.visibility,
            Visibility::Hide(vec!["internal".to_string(), "$private".to_string()])
        );
    } else {
        panic!("Expected Forward directive");
    }
}

#[test]
fn parse_simple_import() {
    let input = r#"@import "legacy";"#;
    let directives = Parser::parse(input).unwrap();
    assert_eq!(directives.len(), 1);

    if let Directive::Import(imp_dir) = &directives[0] {
        assert_eq!(imp_dir.paths, vec!["legacy".to_string()]);
    } else {
        panic!("Expected Import directive");
    }
}

#[test]
fn parse_multiple_imports() {
    let input = r#"@import "a", "b", "c";"#;
    let directives = Parser::parse(input).unwrap();

    if let Directive::Import(imp_dir) = &directives[0] {
        assert_eq!(
            imp_dir.paths,
            vec!["a".to_string(), "b".to_string(), "c".to_string()]
        );
    } else {
        panic!("Expected Import directive");
    }
}

#[test]
fn lexer_parse_mixed_directives() {
    let input = r#"
@use "variables" as vars;
@forward "mixins";
@import "legacy";
"#;
    let directives = Parser::parse(input).unwrap();
    assert_eq!(directives.len(), 3);

    assert!(matches!(directives[0], Directive::Use(_)));
    assert!(matches!(directives[1], Directive::Forward(_)));
    assert!(matches!(directives[2], Directive::Import(_)));
}

#[test]
fn parse_with_comments() {
    let input = r#"
// This is a comment
@use "variables";
/* Multi-line
   comment */
@forward "mixins";
"#;
    let directives = Parser::parse(input).unwrap();
    assert_eq!(directives.len(), 2);
}

#[test]
fn lexer_parse_ignores_other_at_rules() {
    let input = r#"
@use "variables";
@mixin foo { }
@media screen { }
@keyframes slide { }
@forward "mixins";
"#;
    let directives = Parser::parse(input).unwrap();
    assert_eq!(directives.len(), 2);
}

#[test]
fn lexer_parse_tracks_location() {
    let input = r#"@use "variables";
@forward "mixins";"#;
    let directives = Parser::parse(input).unwrap();

    assert_eq!(directives[0].location().line, 1);
    assert_eq!(directives[0].location().column, 1);
    assert_eq!(directives[1].location().line, 2);
    assert_eq!(directives[1].location().column, 1);
}

#[test]
fn parse_single_quoted_strings() {
    let input = r#"@use 'variables';"#;
    let directives = Parser::parse(input).unwrap();

    if let Directive::Use(use_dir) = &directives[0] {
        assert_eq!(use_dir.path, "variables");
    } else {
        panic!("Expected Use directive");
    }
}

#[test]
fn parse_string_in_selector_ignored() {
    let input = r#"
.foo[data-attr="@use fake"] {
    color: red;
}
@use "real";
"#;
    let directives = Parser::parse(input).unwrap();
    assert_eq!(directives.len(), 1);

    if let Directive::Use(use_dir) = &directives[0] {
        assert_eq!(use_dir.path, "real");
    } else {
        panic!("Expected Use directive");
    }
}
