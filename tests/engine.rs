use mod_rewrite::context::{EngineCtx, Provider, RequestCtx};
use mod_rewrite::error::{EngineError, ExpressionError};
use mod_rewrite::expr::{Expression, ExpressionList, Rewrite};
use mod_rewrite::Engine;

#[test]
fn expr_test_groups() {
    let groups = ExpressionList::from_str(
        r#"
            RewriteCond /var/www/%{REQUEST_URI} !-f
            RewriteRule ^/file/(.*)$ /file2/$1  [R=303]

            RewriteRule /rewrite/[A-Z]+ /redirect/$1 [NC,R]
            RewriteCond ${SERVER_PORT} -eq 4000
            RewriteRule /(.*) /index.php?path=$1
            RewriteEngine off
            RewriteRule / - [F]
        "#,
    )
    .unwrap()
    .groups();

    assert_eq!(groups.len(), 4);
    assert_eq!(groups[0].conditions().len(), 1);
    assert_eq!(groups[0].rules().len(), 1);
    assert_eq!(groups[0].enabled(), true);
    assert_eq!(groups[1].conditions().len(), 0);
    assert_eq!(groups[1].rules().len(), 1);
    assert_eq!(groups[1].enabled(), true);
    assert_eq!(groups[2].conditions().len(), 1);
    assert_eq!(groups[2].rules().len(), 1);
    assert_eq!(groups[2].enabled(), true);
    assert_eq!(groups[3].conditions().len(), 0);
    assert_eq!(groups[3].rules().len(), 1);
    assert_eq!(groups[3].enabled(), false);
}

#[test]
fn test_rules() {
    let groups = ExpressionList::from_str(
        r#"
            RewriteRule /skip      /new/test      [S=2]
            RewriteRule /skip      -              [F]
            RewriteRule /new/(.*)  /index?page=$1 [R=303]
            RewriteRule /new/(.*)  -              [G]
            RewriteRule /(.*)      /new/$1        [N,NE]
        "#,
    )
    .unwrap()
    .groups();

    assert_eq!(groups.len(), 1);
    let group = &groups[0];

    let r = group.rewrite("/skip").unwrap();
    assert!(matches!(r, Rewrite::StatusCode(code) if code == 410));

    let r = group.rewrite("/hello/world").unwrap();
    assert!(
        matches!(r, Rewrite::Redirect(uri, sc) if uri == "/index?page=hello%2Fworld" && sc == 303)
    );
}

#[test]
fn expr_test_query() {
    let groups = ExpressionList::from_str(
        r#"
            RewriteRule /static/(.*) /files/$1 [NE,L]
            RewriteRule /(.*)        /index?page=$1
        "#,
    )
    .unwrap()
    .groups();

    assert_eq!(groups.len(), 1);
    let group = &groups[0];

    let r = group.rewrite("/static/1/2?a=b").unwrap();
    assert!(matches!(r, Rewrite::Uri(uri) if uri == "/files/1/2?a=b"));

    let r = group.rewrite("/1/2/3?a=b").unwrap();
    assert!(matches!(r, Rewrite::Uri(uri) if uri == "/index?page=1%2F2%2F3&a=b"));
}

#[test]
fn test_overflow() {
    let groups = ExpressionList::from_str(
        r#"
            RewriteRule /skip/forbidden -       [F]
            RewriteRule /skip/gone      -       [G]
            RewriteRule /(.*)           /new/$1 [N]
        "#,
    )
    .unwrap()
    .groups();

    assert_eq!(groups.len(), 1);
    let group = &groups[0];

    let r = group.rewrite("/skip");
    assert!(matches!(r, Err(EngineError::TooManyIterations)));
}

#[test]
fn lib_test_groups() {
    let mut engine = Engine::default();
    engine
        .add_rules(
            r#"
            RewriteRule /static/(.*) /files/$1 [NE,L]

            RewriteRule /(.*)        /index?page=$1
        "#,
        )
        .unwrap();

    let r = engine.rewrite("/static/1/2").unwrap();
    assert!(matches!(r, Rewrite::Uri(uri) if uri == "/index?page=files%2F1%2F2"));

    let r = engine.rewrite("/1/2/3?a=b").unwrap();
    println!("{r:?}");
    assert!(matches!(r, Rewrite::Uri(uri) if uri == "/index?page=1%2F2%2F3&a=b"));
}

#[test]
fn lib_test_query() {
    let mut engine = Engine::default();
    engine
        .add_rules(
            r#"
            RewriteRule /static/(.*) /files/$1 [NE,END]

            RewriteRule /(.*)        /index?page=$1
        "#,
        )
        .unwrap();

    let r = engine.rewrite("/static/1/2?a=b").unwrap();
    assert!(matches!(r, Rewrite::EndUri(uri) if uri == "/files/1/2?a=b"));

    let r = engine.rewrite("/1/2/3?a=b").unwrap();
    println!("{r:?}");
    assert!(matches!(r, Rewrite::Uri(uri) if uri == "/index?page=1%2F2%2F3&a=b"));
}

#[test]
fn or_condition_false_and_condition_true_still_matches() {
    let engine = Engine::from_str(
        r#"
            RewriteCond %{REQUEST_METHOD} =POST [OR]
            RewriteCond %{REQUEST_URI} =/page
            RewriteRule /(.*) /moved/$1
        "#,
    )
    .unwrap();
    let req = RequestCtx::default().request_method("GET").request_uri("/page");
    let mut ctx = EngineCtx::default().with_ctx(req);
    assert!(engine.groups()[0].match_conditions(&mut ctx));
    let r = engine.rewrite_ctx("/page", &mut ctx).unwrap();
    assert_eq!(r, Rewrite::Uri(String::from("/moved/page")));

    let req = RequestCtx::default().request_method("GET").request_uri("/other");
    let mut ctx = EngineCtx::default().with_ctx(req);
    assert!(!engine.groups()[0].match_conditions(&mut ctx));
    let req = RequestCtx::default().request_method("POST").request_uri("/other");
    let mut ctx = EngineCtx::default().with_ctx(req);
    assert!(engine.groups()[0].match_conditions(&mut ctx));
}

#[test]
fn disabled_group_is_skipped() {
    let engine = Engine::from_str(
        r#"
            RewriteEngine off
            RewriteRule /(.*) /gone/$1

            RewriteEngine On
            RewriteRule /(.*) /kept/$1 [NE]
        "#,
    )
    .unwrap();
    assert_eq!(engine.groups().len(), 2);
    let r = engine.rewrite("/a").unwrap();
    assert_eq!(r, Rewrite::Uri(String::from("/kept/a")));
}

#[test]
fn redirect_and_status_end_the_engine() {
    let engine = Engine::from_str(
        r#"
            RewriteRule ^/old/(.*)$ /new/$1 [R=301,NE]
            RewriteRule ^/secret - [F]

            RewriteRule /(.*) /never/$1
        "#,
    )
    .unwrap();
    let r = engine.rewrite("/old/x/y?q=1").unwrap();
    assert_eq!(r, Rewrite::Redirect(String::from("/new/x/y?q=1"), 301));
    let r = engine.rewrite("/secret?q=1").unwrap();
    assert_eq!(r, Rewrite::StatusCode(403));
}

#[test]
fn last_iteration_bound() {
    let engine = Engine::from_str("RewriteRule ^/a$ /b").unwrap().max_iterations(0);
    assert!(matches!(engine.rewrite("/a"), Err(EngineError::TooManyIterations)));
    let engine = Engine::from_str("RewriteRule ^/a$ /b [L]").unwrap().max_iterations(1);
    assert_eq!(engine.rewrite("/a").unwrap(), Rewrite::Uri(String::from("/b")));
    assert_eq!(engine.rewrite("/z").unwrap(), Rewrite::Uri(String::from("/z")));
}

#[test]
fn comments_and_identifiers() {
    let list = ExpressionList::from_str(
        "  // a comment\nrule /a /b\ncond %{X} =y\n\n   \nengine off\n",
    )
    .unwrap();
    assert_eq!(list.0.len(), 3);
    assert!(matches!(list.0[0][0], Expression::Rule(_)));
    assert!(matches!(list.0[1][0], Expression::Condition(_)));
    assert!(matches!(list.0[2][0], Expression::State(_)));
    assert!(matches!(
        ExpressionList::from_str("Bogus /a /b"),
        Err(ExpressionError::InvalidIdentifier(_))
    ));
    assert!(matches!(
        ExpressionList::from_str("RewriteRule"),
        Err(ExpressionError::MissingIdentifier)
    ));
    assert!(matches!(
        ExpressionList::from_str("RewriteEngine maybe"),
        Err(ExpressionError::InvalidStateRule(_))
    ));
    assert!(matches!(
        ExpressionList::from_str("RewriteRule /a"),
        Err(ExpressionError::RuleError(_))
    ));
    assert!(matches!(
        ExpressionList::from_str("RewriteCond a"),
        Err(ExpressionError::ConditionError(_))
    ));
}

#[test]
fn same_text_parses_to_same_rewrites() {
    let text = "RewriteRule ^/a/(.*)$ /b/$1 [N]\nRewriteRule ^/b/(x+)$ /c?v=$1\n\nRewriteRule ^/c$ /d [L]";
    let first = Engine::from_str(text).unwrap();
    let second = Engine::from_str(text).unwrap();
    for uri in ["/a/xx", "/a/y", "/c", "/c?z=1", "/nothing"] {
        assert_eq!(first.rewrite(uri), second.rewrite(uri));
    }
    assert_eq!(first.rewrite("/a/xx").unwrap(), Rewrite::Uri(String::from("/d?v=xx")));
}

#[test]
fn engine_without_rules_keeps_uri() {
    let engine = Engine::new();
    let mut ctx: EngineCtx<Provider> = EngineCtx::new();
    assert_eq!(
        engine.rewrite_ctx("/x?y", &mut ctx).unwrap(),
        Rewrite::Uri(String::from("/x?y"))
    );
}

#[test]
fn blank_line_joins_texts_group_by_group() {
    let a = "RewriteCond %{REQUEST_URI} =/a\nRewriteRule ^/a$ /b";
    let b = "RewriteRule ^/b$ /c [L]\nRewriteCond %{REQUEST_URI} =/z\nRewriteRule ^/z$ /y";
    let joined = format!("{a}\n\n{b}");
    let ga = ExpressionList::from_str(a).unwrap().0.len();
    let gb = ExpressionList::from_str(b).unwrap().0.len();
    let list = ExpressionList::from_str(&joined).unwrap();
    assert_eq!(list.0.len(), ga + gb);
    assert_eq!((ga, gb), (1, 2));
    assert!(matches!(
        ExpressionList::from_str(&format!("{a}\n\nRewriteRule /(x /y")),
        Err(ExpressionError::RuleError(mod_rewrite::RuleError::InvalidRegex(_)))
    ));
    assert!(matches!(
        Expression::from_str("RewriteRule ^/a$ /b [L,R=302]"),
        Err(ExpressionError::RuleError(mod_rewrite::RuleError::FlagsMutuallyExclusive))
    ));
}
