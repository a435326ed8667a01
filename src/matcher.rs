//! Compiled condition matchers.
use vstd::prelude::*;

use crate::error::CondError;
use crate::parse::views;
use crate::text::{
    chars_eq, chars_of, ends_with, ends_with_exec, parse_i32, signed_of, starts_with,
    starts_with_exec, string_of, sub_chars,
};

verus! {

/// String comparisons of a `CondPattern`.
#[derive(Clone, Copy, Debug, PartialEq, Eq, Structural)]
pub enum Pattern {
    Preceeds,
    Follows,
    Equals,
    PreceedsOrEquals,
    FollowsOrEquals,
}

/// Integer comparisons.
#[derive(Clone, Copy, Debug, PartialEq, Eq, Structural)]
pub enum Compare {
    Equal,
    GreaterThan,
    GreaterOrEqual,
    LesserThan,
    LesserOrEqual,
    NotEqual,
}

/// File attribute tests.
#[derive(Clone, Copy, Debug, PartialEq, Eq, Structural)]
pub enum FileTest {
    Dir,
    File,
    Symbolic,
    SizedFile,
    Executable,
}

/// A compiled condition: left operand, operator, right operand, and negation.
#[derive(Clone, Debug, PartialEq)]
pub enum Match {
    Pattern(String, Pattern, String),
    NotPattern(String, Pattern, String),
    Compare(String, Compare, String),
    FileTest(String, FileTest),
    NotFileTest(String, FileTest),
}

/// What a [`Match`] holds, with its operands as character sequences.
pub enum MatchView {
    Pattern(Seq<char>, Pattern, Seq<char>),
    NotPattern(Seq<char>, Pattern, Seq<char>),
    Compare(Seq<char>, Compare, Seq<char>),
    FileTest(Seq<char>, FileTest),
    NotFileTest(Seq<char>, FileTest),
}

impl View for Match {
    type V = MatchView;

    open spec fn view(&self) -> MatchView {
        match self {
            Match::Pattern(a, p, b) => MatchView::Pattern(a@, *p, b@),
            Match::NotPattern(a, p, b) => MatchView::NotPattern(a@, *p, b@),
            Match::Compare(a, c, b) => MatchView::Compare(a@, *c, b@),
            Match::FileTest(a, f) => MatchView::FileTest(a@, *f),
            Match::NotFileTest(a, f) => MatchView::NotFileTest(a@, *f),
        }
    }
}

/// What a [`CondError`] holds, with its texts as character sequences.
pub enum CondFault {
    InvalidPattern(Seq<char>),
    InvalidComparison(Seq<char>),
    InvalidFileTest(Seq<char>),
    UnclosedQuotation(Seq<char>),
    EmptyExpression,
    MissingComparison,
    InvalidSuffix(Seq<char>),
    MissingSuffix,
    FlagsMissingBrackets(Seq<char>),
    FlagsEmpty,
    InvalidFlag(Seq<char>),
}

impl View for CondError {
    type V = CondFault;

    open spec fn view(&self) -> CondFault {
        match self {
            CondError::InvalidPattern(s) => CondFault::InvalidPattern(s@),
            CondError::InvalidComparison(s) => CondFault::InvalidComparison(s@),
            CondError::InvalidFileTest(s) => CondFault::InvalidFileTest(s@),
            CondError::UnclosedQuotation(s) => CondFault::UnclosedQuotation(s@),
            CondError::EmptyExpression => CondFault::EmptyExpression,
            CondError::MissingComparison => CondFault::MissingComparison,
            CondError::InvalidSuffix(s) => CondFault::InvalidSuffix(s@),
            CondError::MissingSuffix => CondFault::MissingSuffix,
            CondError::FlagsMissingBrackets(s) => CondFault::FlagsMissingBrackets(s@),
            CondError::FlagsEmpty => CondFault::FlagsEmpty,
            CondError::InvalidFlag(s) => CondFault::InvalidFlag(s@),
        }
    }
}

/// `s` without its leading `!` characters.
pub open spec fn strip_bangs(s: Seq<char>) -> Seq<char>
    decreases s.len(),
{
    if s.len() > 0 && s[0] == '!' {
        strip_bangs(s.drop_first())
    } else {
        s
    }
}

/// The pattern operator that `op` writes, with the length of its symbol.
pub open spec fn pattern_op(op: Seq<char>) -> Option<(Pattern, int)> {
    if op.len() == 0 {
        None
    } else if op[0] == '=' {
        Some((Pattern::Equals, 1))
    } else if op[0] == '<' {
        if op.len() > 1 && op[1] == '=' {
            Some((Pattern::PreceedsOrEquals, 2))
        } else {
            Some((Pattern::Preceeds, 1))
        }
    } else if op[0] == '>' {
        if op.len() > 1 && op[1] == '=' {
            Some((Pattern::FollowsOrEquals, 2))
        } else {
            Some((Pattern::Follows, 1))
        }
    } else {
        None
    }
}

/// The integer comparison that `op` names.
pub open spec fn compare_op(op: Seq<char>) -> Option<Compare> {
    if op == "-eq"@ {
        Some(Compare::Equal)
    } else if op == "-gt"@ {
        Some(Compare::GreaterThan)
    } else if op == "-ge"@ {
        Some(Compare::GreaterOrEqual)
    } else if op == "-lt"@ {
        Some(Compare::LesserThan)
    } else if op == "-le"@ {
        Some(Compare::LesserOrEqual)
    } else if op == "-ne"@ {
        Some(Compare::NotEqual)
    } else {
        None
    }
}

/// The file test that `op` names.
pub open spec fn file_op(op: Seq<char>) -> Option<FileTest> {
    if op == "-d"@ {
        Some(FileTest::Dir)
    } else if op == "-f"@ {
        Some(FileTest::File)
    } else if op == "-h"@ || op == "-l"@ {
        Some(FileTest::Symbolic)
    } else if op == "-s"@ {
        Some(FileTest::SizedFile)
    } else if op == "-x"@ {
        Some(FileTest::Executable)
    } else {
        None
    }
}

/// The matcher that the tokens `t[p..]` begin with, and the position after it.
pub open spec fn parse_match(t: Seq<Seq<char>>, p: int) -> Result<(MatchView, int), CondFault> {
    if p < 0 || p >= t.len() {
        Err(CondFault::EmptyExpression)
    } else if p + 1 >= t.len() {
        Err(CondFault::MissingComparison)
    } else {
        let first = t[p];
        let not = t[p + 1].len() > 0 && t[p + 1][0] == '!';
        let op = strip_bangs(t[p + 1]);
        match pattern_op(op) {
            Some((pat, n)) => {
                let second = op.subrange(n, op.len() as int);
                if not {
                    Ok((MatchView::NotPattern(first, pat, second), p + 2))
                } else {
                    Ok((MatchView::Pattern(first, pat, second), p + 2))
                }
            },
            None => if p + 2 < t.len() && !(t[p + 2].len() > 0 && t[p + 2][0] == '[') {
                if not {
                    Err(CondFault::InvalidComparison(op))
                } else {
                    match compare_op(op) {
                        Some(c) => Ok((MatchView::Compare(first, c, t[p + 2]), p + 3)),
                        None => Err(CondFault::InvalidComparison(op)),
                    }
                }
            } else {
                match file_op(op) {
                    Some(f) => if not {
                        Ok((MatchView::NotFileTest(first, f), p + 2))
                    } else {
                        Ok((MatchView::FileTest(first, f), p + 2))
                    },
                    None => Err(CondFault::InvalidFileTest(op)),
                }
            },
        }
    }
}

/// The matcher that a whole expression writes.
pub open spec fn match_of(s: Seq<char>) -> Result<MatchView, CondFault> {
    match crate::parse::tokens_of(s) {
        None => Err(CondFault::UnclosedQuotation(Seq::empty())),
        Some(t) => match parse_match(t, 0) {
            Ok((m, _)) => Ok(m),
            Err(e) => Err(e),
        },
    }
}

/// What `unicase::eq` returns: whether two strings are equal once case is folded.
pub uninterp spec fn caseless(a: Seq<char>, b: Seq<char>) -> bool;

/// `c` with an ASCII capital letter made small.
pub open spec fn ascii_lower(c: char) -> char {
    if 'A' <= c && c <= 'Z' {
        ((c as u32) + 32) as char
    } else {
        c
    }
}

/// Whether every character is ASCII.
pub open spec fn all_ascii(s: Seq<char>) -> bool {
    forall|i: int| 0 <= i < s.len() ==> (#[trigger] s[i] as u32) < 0x80
}

/// Whether two strings are equal once ASCII letters are made small.
pub open spec fn ascii_caseless(a: Seq<char>, b: Seq<char>) -> bool {
    a.len() == b.len() && forall|i: int| 0 <= i < a.len() ==> ascii_lower(#[trigger] a[i]) == ascii_lower(b[i])
}

/// Relies on `unicase::eq`: Unicode case-folded equality, which holds of equal strings;
/// two ASCII strings compare with `eq_ignore_ascii_case` (`UniCase::new` picks the
/// ASCII comparison for them).
#[verifier::external_body]
fn caseless_eq(a: &str, b: &str) -> (r: bool)
    ensures
        r == caseless(a@, b@),
        a@ == b@ ==> r,
        all_ascii(a@) && all_ascii(b@) ==> (r <==> ascii_caseless(a@, b@)),
{
    unicase::eq(a, b)
}

/// Whether the string test `p` holds of the resolved operands `a` and `b`.
pub open spec fn pattern_holds(p: Pattern, a: Seq<char>, b: Seq<char>, nocase: bool) -> bool {
    match p {
        Pattern::Preceeds | Pattern::PreceedsOrEquals => starts_with(a, b),
        Pattern::Follows | Pattern::FollowsOrEquals => ends_with(a, b),
        Pattern::Equals => if nocase {
            if all_ascii(a) && all_ascii(b) {
                ascii_caseless(a, b)
            } else {
                caseless(a, b)
            }
        } else {
            a == b
        },
    }
}

/// Whether the integer comparison `c` holds of the resolved operands `a` and `b`:
/// false where either is not a 32-bit integer.
pub open spec fn compare_holds(c: Compare, a: Seq<char>, b: Seq<char>) -> bool {
    match (signed_of(a), signed_of(b)) {
        (Some(x), Some(y)) => if i32::MIN <= x <= i32::MAX && i32::MIN <= y <= i32::MAX {
            match c {
                Compare::Equal => x == y,
                Compare::GreaterThan => x > y,
                Compare::GreaterOrEqual => x >= y,
                Compare::LesserThan => x < y,
                Compare::LesserOrEqual => x <= y,
                Compare::NotEqual => x != y,
            }
        } else {
            false
        },
        _ => false,
    }
}

/// Whether matcher `m` holds, given its resolved operands `a` and `b` and, for a file
/// test, the answer `probed` of the file system.
pub open spec fn match_holds(m: MatchView, a: Seq<char>, b: Seq<char>, nocase: bool, probed: bool) -> bool {
    match m {
        MatchView::Pattern(_, p, _) => pattern_holds(p, a, b, nocase),
        MatchView::NotPattern(_, p, _) => !pattern_holds(p, a, b, nocase),
        MatchView::Compare(_, c, _) => compare_holds(c, a, b),
        MatchView::FileTest(_, _) => probed,
        MatchView::NotFileTest(_, _) => !probed,
    }
}

impl Pattern {
    /// Evaluates the string test on resolved operands.
    pub fn matches(&self, first: &str, second: &str, nocase: bool) -> (r: bool)
        ensures
            r == pattern_holds(*self, first@, second@, nocase),
    {
        match self {
            Pattern::Preceeds | Pattern::PreceedsOrEquals => {
                starts_with_exec(&chars_of(first), &chars_of(second))
            },
            Pattern::Follows | Pattern::FollowsOrEquals => {
                ends_with_exec(&chars_of(first), &chars_of(second))
            },
            Pattern::Equals => {
                if nocase {
                    caseless_eq(first, second)
                } else {
                    crate::text::chars_eq_chars(&chars_of(first), &chars_of(second))
                }
            },
        }
    }
}

impl Compare {
    /// Evaluates the integer comparison on resolved operands.
    pub fn compare(&self, first: &str, second: &str) -> (r: bool)
        ensures
            r == compare_holds(*self, first@, second@),
    {
        let x = match parse_i32(&chars_of(first)) {
            Some(x) => x,
            None => return false,
        };
        let y = match parse_i32(&chars_of(second)) {
            Some(y) => y,
            None => return false,
        };
        match self {
            Compare::Equal => x == y,
            Compare::GreaterThan => x > y,
            Compare::GreaterOrEqual => x >= y,
            Compare::LesserThan => x < y,
            Compare::LesserOrEqual => x <= y,
            Compare::NotEqual => x != y,
        }
    }

    /// The comparison that `s` names.
    pub fn from_chars(s: &Vec<char>) -> (r: Result<Compare, CondError>)
        ensures
            r is Ok <==> compare_op(s@) is Some,
            r is Ok ==> r->Ok_0 == compare_op(s@)->0,
            r is Err ==> r->Err_0@ == CondFault::InvalidComparison(s@),
    {
        if chars_eq(s, "-eq") {
            Ok(Compare::Equal)
        } else if chars_eq(s, "-gt") {
            Ok(Compare::GreaterThan)
        } else if chars_eq(s, "-ge") {
            Ok(Compare::GreaterOrEqual)
        } else if chars_eq(s, "-lt") {
            Ok(Compare::LesserThan)
        } else if chars_eq(s, "-le") {
            Ok(Compare::LesserOrEqual)
        } else if chars_eq(s, "-ne") {
            Ok(Compare::NotEqual)
        } else {
            Err(CondError::InvalidComparison(string_of(s.as_slice())))
        }
    }
}

impl FileTest {
    /// The file test that `s` names.
    pub fn from_chars(s: &Vec<char>) -> (r: Result<FileTest, CondError>)
        ensures
            r is Ok <==> file_op(s@) is Some,
            r is Ok ==> r->Ok_0 == file_op(s@)->0,
            r is Err ==> r->Err_0@ == CondFault::InvalidFileTest(s@),
    {
        if chars_eq(s, "-d") {
            Ok(FileTest::Dir)
        } else if chars_eq(s, "-f") {
            Ok(FileTest::File)
        } else if chars_eq(s, "-h") || chars_eq(s, "-l") {
            Ok(FileTest::Symbolic)
        } else if chars_eq(s, "-s") {
            Ok(FileTest::SizedFile)
        } else if chars_eq(s, "-x") {
            Ok(FileTest::Executable)
        } else {
            Err(CondError::InvalidFileTest(string_of(s.as_slice())))
        }
    }
}

proof fn lemma_strip_bangs(s: Seq<char>, k: int)
    requires
        0 <= k <= s.len(),
        forall|j: int| 0 <= j < k ==> s[j] == '!',
    ensures
        strip_bangs(s) == strip_bangs(s.subrange(k, s.len() as int)),
    decreases k,
{
    if k > 0 {
        assert(s.drop_first().subrange(k - 1, s.len() - 1) =~= s.subrange(k, s.len() as int));
        lemma_strip_bangs(s.drop_first(), k - 1);
    } else {
        assert(s.subrange(0, s.len() as int) =~= s);
    }
}

impl Match {
    /// Reads a matcher from the tokens `tokens[pos..]`; returns it with the position
    /// of the first token it did not use.
    pub fn parse(tokens: &Vec<String>, pos: usize) -> (r: Result<(Match, usize), CondError>)
        ensures
            match parse_match(views(tokens@), pos as int) {
                Ok((m, q)) => r is Ok && r->Ok_0.0@ == m && r->Ok_0.1 as int == q,
                Err(e) => r is Err && r->Err_0@ == e,
            },
    {
        let ghost t = views(tokens@);
        if pos >= tokens.len() {
            return Err(CondError::EmptyExpression);
        }
        if pos + 1 >= tokens.len() {
            return Err(CondError::MissingComparison);
        }
        let first = tokens[pos].clone();
        let e = chars_of(tokens[pos + 1].as_str());
        let not = e.len() > 0 && e[0] == '!';
        let mut k: usize = 0;
        while k < e.len() && e[k] == '!'
            invariant
                k <= e@.len(),
                forall|j: int| 0 <= j < k ==> e@[j] == '!',
            decreases e@.len() - k,
        {
            k = k + 1;
        }
        proof {
            lemma_strip_bangs(e@, k as int);
        }
        let op = sub_chars(&e, k, e.len());
        assert(op@ == strip_bangs(t[pos + 1]));
        let operators: [char; 3] = ['<', '>', '='];
        let started = crate::parse::matches_start(&op, operators.as_slice());
        proof {
            if op@.len() > 0 {
                let x = op@[0];
                assert(operators@[0] == '<' && operators@[1] == '>' && operators@[2] == '=');
                if x == '<' || x == '>' || x == '=' {
                    let k: int = if x == '<' { 0 } else if x == '>' { 1 } else { 2 };
                    assert(operators@[k] == x);
                    assert(operators@.contains(x));
                } else {
                    assert forall|k: int| 0 <= k < operators@.len() implies operators@[k] != x by {}
                    assert(!operators@.contains(x));
                }
            }
        }
        if let Some(c) = started {
            let (pat, n): (Pattern, usize) = if c == '=' {
                (Pattern::Equals, 1)
            } else if c == '<' {
                if op.len() > 1 && op[1] == '=' {
                    (Pattern::PreceedsOrEquals, 2)
                } else {
                    (Pattern::Preceeds, 1)
                }
            } else {
                if op.len() > 1 && op[1] == '=' {
                    (Pattern::FollowsOrEquals, 2)
                } else {
                    (Pattern::Follows, 1)
                }
            };
            let second = crate::text::sub_string(&op, n, op.len());
            if not {
                return Ok((Match::NotPattern(first, pat, second), pos + 2));
            } else {
                return Ok((Match::Pattern(first, pat, second), pos + 2));
            }
        }
        let third_bare = pos + 2 < tokens.len() && {
            let third = chars_of(tokens[pos + 2].as_str());
            !(third.len() > 0 && third[0] == '[')
        };
        if third_bare {
            if not {
                return Err(CondError::InvalidComparison(string_of(op.as_slice())));
            }
            let cmp = Compare::from_chars(&op)?;
            return Ok((Match::Compare(first, cmp, tokens[pos + 2].clone()), pos + 3));
        }
        let ft = FileTest::from_chars(&op)?;
        if not {
            Ok((Match::NotFileTest(first, ft), pos + 2))
        } else {
            Ok((Match::FileTest(first, ft), pos + 2))
        }
    }

    /// Reads a matcher from a whole expression.
    pub fn from_str(s: &str) -> (r: Result<Match, CondError>)
        ensures
            r is Ok <==> match_of(s@) is Ok,
            r is Ok ==> r->Ok_0@ == match_of(s@)->Ok_0,
            r is Err && crate::parse::tokens_of(s@) is Some ==> r->Err_0@ == match_of(s@)->Err_0,
    {
        let tokens = crate::parse::tokenize(&chars_of(s))?;
        let (m, _) = Match::parse(&tokens, 0)?;
        Ok(m)
    }

    /// Whether the matcher holds, given its resolved operands and, for a file test,
    /// the answer of the file system.
    pub fn evaluate(&self, first: &str, second: &str, nocase: bool, probed: bool) -> (r: bool)
        ensures
            r == match_holds(self@, first@, second@, nocase, probed),
    {
        match self {
            Match::Pattern(_, p, _) => p.matches(first, second, nocase),
            Match::NotPattern(_, p, _) => !p.matches(first, second, nocase),
            Match::Compare(_, c, _) => c.compare(first, second),
            Match::FileTest(_, _) => probed,
            Match::NotFileTest(_, _) => !probed,
        }
    }
}

} // verus!
