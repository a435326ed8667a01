use mod_rewrite::error::RuleError;
use mod_rewrite::rule::{Rule, RuleFlag, RuleMod, RuleResolve, RuleShift};

#[test]
fn test_compile() {
    let rule = Rule::from_str(" ^/replace/[A-Z]+/$ - [I,F]").unwrap();
    assert_eq!(rule.rewrite_target(), "-");
    assert_eq!(rule.flags().len(), 2);
    assert!(matches!(
        rule.flags().get(0),
        Some(RuleFlag::Mod(RuleMod::NoCase))
    ));
    assert!(matches!(
        rule.flags().get(1),
        Some(RuleFlag::Resolve(RuleResolve::Status(403)))
    ));
}

#[test]
fn test_simple_replace() {
    let rule = Rule::from_str(r" ^/file/(.*)$ /new/$1 [NE]").unwrap();
    assert_eq!(rule.try_rewrite("/no/match"), None);
    assert_eq!(
        rule.try_rewrite("/file/match"),
        Some("/new/match".to_owned())
    );
    assert_eq!(
        rule.try_rewrite("/file/multiple/match"),
        Some("/new/multiple/match".to_owned())
    );
}

#[test]
fn test_multi_replace() {
    let rule = Rule::from_str(r" ^/file/(\w+)/break/(\w+)$ /new/$2/$1 ").unwrap();
    assert_eq!(rule.try_rewrite("/file/partial/"), None);
    assert_eq!(rule.try_rewrite("/file/partial/break/"), None);
    assert_eq!(rule.try_rewrite("/file/partial/break/test "), None);
    assert_eq!(
        rule.try_rewrite("/file/one/break/two"),
        Some("/new/two/one".to_owned())
    );
}

#[test]
fn test_named_replace() {
    let rule = Rule::from_str(r" ^/file/(?P<name>\w+)$ /$name ").unwrap();
    assert_eq!(rule.try_rewrite("/file/"), None);
    assert_eq!(
        rule.try_rewrite("/file/named_file"),
        Some("/named_file".to_owned())
    );
}

#[test]
fn rule_noescape_keeps_captures() {
    let rule = Rule::from_str(r"^/file/(.*)$ /new/$1 [NE]").unwrap();
    assert_eq!(
        rule.try_rewrite("/file/hello world"),
        Some("/new/hello world".to_owned())
    );
    let rule = Rule::from_str(r"^/file/(.*)$ /new/$1").unwrap();
    assert_eq!(
        rule.try_rewrite("/file/hello world/x?y"),
        Some("/new/hello%20world%2Fx%3Fy".to_owned())
    );
    assert_eq!(
        rule.try_rewrite("/file/é~%"),
        Some("/new/%C3%A9%7E%".to_owned())
    );
}

#[test]
fn rule_dash_keeps_uri() {
    let rule = Rule::from_str(r"^/old/(.*) - [G]").unwrap();
    assert_eq!(rule.try_rewrite("/old/page"), Some("/old/page".to_owned()));
    assert_eq!(rule.try_rewrite("/other"), None);
    assert_eq!(rule.resolve(), Some(RuleResolve::Status(410)));
    assert_eq!(rule.shift(), None);
}

#[test]
fn rule_nocase_pattern() {
    let rule = Rule::from_str(r"^/ABC$ /x [NC]").unwrap();
    assert_eq!(rule.try_rewrite("/abc"), Some("/x".to_owned()));
    let rule = Rule::from_str(r"^/ABC$ /x").unwrap();
    assert_eq!(rule.try_rewrite("/abc"), None);
}

#[test]
fn rule_flag_forms() {
    let rule = Rule::from_str("a b [redirect=301]").unwrap();
    assert_eq!(rule.resolve(), Some(RuleResolve::Redirect(301)));
    let rule = Rule::from_str("a b [R]").unwrap();
    assert_eq!(rule.resolve(), Some(RuleResolve::Redirect(302)));
    let rule = Rule::from_str("a b [=404]").unwrap();
    assert_eq!(rule.resolve(), Some(RuleResolve::Status(404)));
    let rule = Rule::from_str("a b [S]").unwrap();
    assert_eq!(rule.shift(), Some(RuleShift::Skip(1)));
    let rule = Rule::from_str("a b [skip=+3,NE]").unwrap();
    assert_eq!(rule.shift(), Some(RuleShift::Skip(3)));
    let rule = Rule::from_str("a b [End]").unwrap();
    assert_eq!(rule.shift(), Some(RuleShift::End));
    let rule = Rule::from_str("a b [last]").unwrap();
    assert_eq!(rule.shift(), Some(RuleShift::Last));
    let rule = Rule::from_str("a b [n]").unwrap();
    assert_eq!(rule.shift(), Some(RuleShift::Next));
}

#[test]
fn rule_shift_and_resolve_are_exclusive() {
    assert!(matches!(
        Rule::from_str("/a /b [L,R=302]"),
        Err(RuleError::FlagsMutuallyExclusive)
    ));
    assert!(matches!(
        Rule::from_str("/a /b [L,N]"),
        Err(RuleError::FlagsMutuallyExclusive)
    ));
    assert!(Rule::from_str("/a /b [L,NC,NE]").is_ok());
}

#[test]
fn rule_errors() {
    assert!(matches!(Rule::from_str("   "), Err(RuleError::MissingPattern)));
    assert!(matches!(Rule::from_str("/a"), Err(RuleError::MissingRewrite)));
    assert!(matches!(
        Rule::from_str("/a /b [L] extra"),
        Err(RuleError::InvalidSuffix(s)) if s == "extra"
    ));
    assert!(matches!(
        Rule::from_str("/a /b L"),
        Err(RuleError::FlagsMissingBrackets(_))
    ));
    assert!(matches!(Rule::from_str("/a /b []"), Err(RuleError::FlagsEmpty)));
    assert!(matches!(
        Rule::from_str("/a /b [Q]"),
        Err(RuleError::InvalidFlag(_))
    ));
    assert!(matches!(
        Rule::from_str("/a /b [S=x]"),
        Err(RuleError::InvalidFlagNumber(_))
    ));
    assert!(matches!(
        Rule::from_str("/a /b [S=70000]"),
        Err(RuleError::InvalidFlagNumber(_))
    ));
    assert!(matches!(
        Rule::from_str("/a /b [R=700]"),
        Err(RuleError::InvalidFlagStatus(_))
    ));
    assert!(matches!(
        Rule::from_str("/(a /b"),
        Err(RuleError::InvalidRegex(_))
    ));
}
