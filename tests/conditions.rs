use mod_rewrite::condition::{CondFlag, Condition};
use mod_rewrite::context::{EngineCtx, FileProbe, Provider, RequestCtx, ServerCtx};
use mod_rewrite::error::CondError;
use mod_rewrite::matcher::{Compare, FileTest, Match, Pattern};

#[test]
fn matcher_test_pattern() {
    assert_eq!(
        Match::from_str(r#" %{REQUEST_URI} "=/this/test" "#).ok(),
        Some(Match::Pattern(
            String::from("%{REQUEST_URI}"),
            Pattern::Equals,
            String::from("/this/test")
        ))
    );
}

#[test]
fn matcher_test_compare() {
    assert_eq!(
        Match::from_str(r#" %{REMOTE_PORT} -eq 4000 "#).ok(),
        Some(Match::Compare(
            String::from("%{REMOTE_PORT}"),
            Compare::Equal,
            String::from("4000"),
        ))
    );
    assert!(matches!(
        Match::from_str(r#"%{REMOTE_PORT} -wtf 4000 "#).err(),
        Some(CondError::InvalidComparison(_))
    ));
}

#[test]
fn matcher_test_filetest() {
    assert_eq!(
        Match::from_str(r#" /var/www/%{REQUEST_URI} !-f "#).ok(),
        Some(Match::NotFileTest(
            String::from("/var/www/%{REQUEST_URI}"),
            FileTest::File,
        ))
    );
    assert!(matches!(
        Match::from_str(r#" /var/www/%{REQUEST_URI} !-A "#).err(),
        Some(CondError::InvalidFileTest(_))
    ));
}

#[test]
fn mod_test_pattern() {
    let s1 = String::from("%{REQUEST_URI}");
    let s2 = String::from("/Test");
    let cond = Condition::from_str(&format!(r#"{s1} "={s2}" [NC,OR]"#)).unwrap();
    assert!(matches!(
        cond.matcher(),
        Match::Pattern(v1, Pattern::Equals, v2) if v1 == &s1 && v2 == &s2,
    ));
    assert_eq!(cond.flags().len(), 2);
    assert!(matches!(cond.flags().get(0), Some(CondFlag::NoCase)));

    let mut req = RequestCtx::default().request_uri("/Test");
    let mut ctx = EngineCtx::default().with_ctx(req);
    assert!(cond.is_met(&mut ctx));

    req = RequestCtx::default().request_uri("/Not");
    let mut ctx = EngineCtx::default().with_ctx(req);
    assert!(!cond.is_met(&mut ctx));
}

#[test]
fn mod_test_compare() {
    let s1 = String::from("%{SERVER_PORT}");
    let s2 = String::from("4000");
    let cond = Condition::from_str(&format!("{s1} -ge {s2}")).unwrap();
    assert!(matches!(
        cond.matcher(),
        Match::Compare(v1, Compare::GreaterOrEqual, v2) if v1 == &s1 && v2 == &s2,
    ));
    assert_eq!(cond.flags().len(), 0);

    let mut srv = ServerCtx::default().server_addr("127.0.0.1:4001", "127.0.0.1", 4001);
    let mut ctx = EngineCtx::default().with_ctx(srv);
    assert!(cond.is_met(&mut ctx));

    srv = ServerCtx::default().server_addr("127.0.0.1:3999", "127.0.0.1", 3999);
    let mut ctx = EngineCtx::default().with_ctx(srv);
    assert!(!cond.is_met(&mut ctx));
}

/// File tests answered from the file system.
struct Fs;

impl FileProbe for Fs {
    fn probe(&self, path: &str, test: FileTest) -> bool {
        let p = std::path::Path::new(path);
        match test {
            FileTest::File => p.is_file(),
            FileTest::Dir => p.is_dir(),
            _ => false,
        }
    }
}

#[test]
fn mod_test_filetest() {
    let s1 = String::from("%{REQUEST_URI}");
    let cond = Condition::from_str(&format!("{s1} !-f")).unwrap();
    assert!(matches!(
        cond.matcher(),
        Match::NotFileTest(v1, FileTest::File) if v1 == &s1,
    ));
    assert_eq!(cond.flags().len(), 0);

    let current = std::path::Path::new("src").join("lib.rs");
    let req = RequestCtx::default().request_uri(current.to_str().unwrap());
    let mut ctx = EngineCtx::default()
        .with_ctx(Provider::Request(req))
        .with_ctx(Provider::Files(Fs));
    assert!(!cond.is_met(&mut ctx));

    let req = RequestCtx::default().request_uri("/invalid");
    let mut ctx = EngineCtx::default()
        .with_ctx(Provider::Request(req))
        .with_ctx(Provider::Files(Fs));
    assert!(cond.is_met(&mut ctx));
}

#[test]
fn condition_compare_rejects_non_numbers() {
    let cond = Condition::from_str("%{SERVER_PORT} -eq 80").unwrap();
    let srv = ServerCtx::default().server_name("example");
    let mut ctx = EngineCtx::default().with_ctx(srv);
    assert!(!cond.is_met(&mut ctx));
    let cond = Condition::from_str("-5 -lt 3").unwrap();
    let mut ctx: EngineCtx<Provider> = EngineCtx::new();
    assert!(cond.is_met(&mut ctx));
    let cond = Condition::from_str("2147483648 -gt 1").unwrap();
    assert!(!cond.is_met(&mut ctx));
}

#[test]
fn condition_negated_comparison_is_refused() {
    assert!(matches!(
        Condition::from_str("1 !-eq 1"),
        Err(CondError::InvalidComparison(_))
    ));
}

#[test]
fn condition_or_equals_operators() {
    assert_eq!(
        Match::from_str("%{A} <=/pre").ok(),
        Some(Match::Pattern(
            String::from("%{A}"),
            Pattern::PreceedsOrEquals,
            String::from("/pre")
        ))
    );
    let cond = Condition::from_str("/prefix/rest >=rest").unwrap();
    let mut ctx: EngineCtx<Provider> = EngineCtx::new();
    assert!(cond.is_met(&mut ctx));
    let cond = Condition::from_str("/prefix/rest !</prefix").unwrap();
    assert!(!cond.is_met(&mut ctx));
}

#[test]
fn condition_nocase_equality_folds_case() {
    let cond = Condition::from_str("%{REQUEST_METHOD} =get [NC]").unwrap();
    let req = RequestCtx::default().request_method("GET");
    let mut ctx = EngineCtx::default().with_ctx(req);
    assert!(cond.is_met(&mut ctx));
    let cond = Condition::from_str("%{REQUEST_METHOD} =get").unwrap();
    let req = RequestCtx::default().request_method("GET");
    let mut ctx = EngineCtx::default().with_ctx(req);
    assert!(!cond.is_met(&mut ctx));
}

#[test]
fn condition_flag_errors() {
    assert!(matches!(
        Condition::from_str("a =b NC"),
        Err(CondError::FlagsMissingBrackets(_))
    ));
    assert!(matches!(
        Condition::from_str("a =b [,]"),
        Err(CondError::FlagsEmpty)
    ));
    assert!(matches!(
        Condition::from_str("a =b [XYZ]"),
        Err(CondError::InvalidFlag(f)) if f == "XYZ"
    ));
    assert!(matches!(
        Condition::from_str("a =b [ornext]").map(|c| c.is_or()),
        Ok(true)
    ));
}

#[test]
fn condition_missing_parts() {
    assert!(matches!(
        Condition::from_str("   "),
        Err(CondError::EmptyExpression)
    ));
    assert!(matches!(
        Condition::from_str("lonely"),
        Err(CondError::MissingComparison)
    ));
    assert!(matches!(
        Condition::from_str(r#"a "=b"#),
        Err(CondError::UnclosedQuotation(_))
    ));
}

#[test]
fn condition_escaped_quote_in_operand() {
    let m = Match::from_str(r#"%{A} "=x\"y""#).unwrap();
    assert_eq!(
        m,
        Match::Pattern(String::from("%{A}"), Pattern::Equals, String::from(r#"x\"y"#))
    );
}
