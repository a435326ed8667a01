//! `RewriteRule` expressions: a pattern, a rewrite target and flags.
use vstd::prelude::*;

use crate::error::RuleError;
use crate::escape::{escaped, percent_encode};
use crate::parse::{bracketed, char_views, flag_items, flag_items_exec};
use crate::pattern::{
    expand, interpolation, opt_views, regex_compiles, regex_group_names, regex_groups,
    CompiledPattern,
};
use crate::text::{
    chars_eq, chars_of, find_char, index_of, lower_of, lowercase, parse_unsigned, split_words,
    string_of, sub_chars, unsigned_of, words_of,
};

verus! {

/// Where rule processing goes after a rule matched.
#[derive(Clone, Copy, Debug, PartialEq, Eq, Structural)]
pub enum RuleShift {
    End,
    Last,
    Next,
    Skip(u16),
}

/// How a rule rewrites.
#[derive(Clone, Copy, Debug, PartialEq, Eq, Structural)]
pub enum RuleMod {
    NoCase,
    NoEscape,
}

/// The response a rule ends with.
#[derive(Clone, Copy, Debug, PartialEq, Eq, Structural)]
pub enum RuleResolve {
    Redirect(u16),
    Status(u16),
}

/// A flag of a [`Rule`].
#[derive(Clone, Copy, Debug, PartialEq, Eq, Structural)]
pub enum RuleFlag {
    Shift(RuleShift),
    Mod(RuleMod),
    Resolve(RuleResolve),
}

/// What a [`RuleError`] holds, with its texts as character sequences.
pub enum RuleFault {
    MissingPattern,
    InvalidRegex(Seq<char>),
    MissingRewrite,
    InvalidSuffix(Seq<char>),
    FlagsMissingBrackets(Seq<char>),
    FlagsEmpty,
    FlagsMutuallyExclusive,
    InvalidFlag(Seq<char>),
    InvalidFlagNumber(Seq<char>),
    InvalidFlagStatus(Seq<char>),
}

impl View for RuleError {
    type V = RuleFault;

    open spec fn view(&self) -> RuleFault {
        match self {
            RuleError::MissingPattern => RuleFault::MissingPattern,
            RuleError::InvalidRegex(s) => RuleFault::InvalidRegex(s@),
            RuleError::MissingRewrite => RuleFault::MissingRewrite,
            RuleError::InvalidSuffix(s) => RuleFault::InvalidSuffix(s@),
            RuleError::FlagsMissingBrackets(s) => RuleFault::FlagsMissingBrackets(s@),
            RuleError::FlagsEmpty => RuleFault::FlagsEmpty,
            RuleError::FlagsMutuallyExclusive => RuleFault::FlagsMutuallyExclusive,
            RuleError::InvalidFlag(s) => RuleFault::InvalidFlag(s@),
            RuleError::InvalidFlagNumber(s) => RuleFault::InvalidFlagNumber(s@),
            RuleError::InvalidFlagStatus(s) => RuleFault::InvalidFlagStatus(s@),
        }
    }
}

/// The number that a flag argument gives, `default` where it is empty.
pub open spec fn int_arg(s: Seq<char>, default: u16) -> Result<u16, RuleFault> {
    if s.len() == 0 {
        Ok(default)
    } else {
        match unsigned_of(s) {
            Some(n) => if n <= 0xffff {
                Ok(n as u16)
            } else {
                Err(RuleFault::InvalidFlagNumber(s))
            },
            None => Err(RuleFault::InvalidFlagNumber(s)),
        }
    }
}

/// The HTTP status that a flag argument gives, `default` where it is empty; it must
/// lie in `100..600`.
pub open spec fn status_arg(s: Seq<char>, default: u16) -> Result<u16, RuleFault> {
    match int_arg(s, default) {
        Ok(n) => if 100 <= n < 600 {
            Ok(n)
        } else {
            Err(RuleFault::InvalidFlagStatus(s))
        },
        Err(e) => Err(e),
    }
}

/// The name of a flag: what stands before its first `=`.
pub open spec fn flag_name(t: Seq<char>) -> Seq<char> {
    match index_of(t, '=') {
        Some(i) => t.subrange(0, i),
        None => t,
    }
}

/// The argument of a flag: what follows its first `=`, empty without one.
pub open spec fn flag_arg(t: Seq<char>) -> Seq<char> {
    match index_of(t, '=') {
        Some(i) => t.subrange(i + 1, t.len() as int),
        None => Seq::empty(),
    }
}

/// The rule flag that `t` writes.
pub open spec fn rule_flag(t: Seq<char>) -> Result<RuleFlag, RuleFault> {
    let l = lower_of(flag_name(t));
    let a = flag_arg(t);
    if l == "e"@ || l == "end"@ {
        Ok(RuleFlag::Shift(RuleShift::End))
    } else if l == "l"@ || l == "last"@ {
        Ok(RuleFlag::Shift(RuleShift::Last))
    } else if l == "n"@ || l == "next"@ {
        Ok(RuleFlag::Shift(RuleShift::Next))
    } else if l == "s"@ || l == "skip"@ {
        match int_arg(a, 1) {
            Ok(n) => Ok(RuleFlag::Shift(RuleShift::Skip(n))),
            Err(e) => Err(e),
        }
    } else if l == "i"@ || l == "insensitive"@ || l == "nc"@ || l == "nocase"@ {
        Ok(RuleFlag::Mod(RuleMod::NoCase))
    } else if l == "ne"@ || l == "noescape"@ {
        Ok(RuleFlag::Mod(RuleMod::NoEscape))
    } else if l == "r"@ || l == "redirect"@ {
        match status_arg(a, 302) {
            Ok(n) => Ok(RuleFlag::Resolve(RuleResolve::Redirect(n))),
            Err(e) => Err(e),
        }
    } else if l == "f"@ || l == "forbidden"@ {
        Ok(RuleFlag::Resolve(RuleResolve::Status(403)))
    } else if l == "g"@ || l == "gone"@ {
        Ok(RuleFlag::Resolve(RuleResolve::Status(410)))
    } else if l.len() == 0 {
        match status_arg(a, 403) {
            Ok(n) => Ok(RuleFlag::Resolve(RuleResolve::Status(n))),
            Err(e) => Err(e),
        }
    } else {
        Err(RuleFault::InvalidFlag(t))
    }
}

/// The flags that `items` write, or the error of the first that writes none.
pub open spec fn rule_flags(items: Seq<Seq<char>>) -> Result<Seq<RuleFlag>, RuleFault>
    decreases items.len(),
{
    if items.len() == 0 {
        Ok(Seq::empty())
    } else {
        match rule_flag(items[0]) {
            Err(e) => Err(e),
            Ok(f) => match rule_flags(items.drop_first()) {
                Ok(rest) => Ok(seq![f] + rest),
                Err(e) => Err(e),
            },
        }
    }
}

/// How many of `fs` are shift or resolve flags.
pub open spec fn exclusive_count(fs: Seq<RuleFlag>) -> nat
    decreases fs.len(),
{
    if fs.len() == 0 {
        0
    } else {
        exclusive_count(fs.drop_last()) + if fs.last() is Mod {
            0nat
        } else {
            1nat
        }
    }
}

/// The flags that a rule flag list `[...]` declares: at least one, and at most one
/// that is a shift or a resolve flag.
pub open spec fn rule_flag_list(s: Seq<char>) -> Result<Seq<RuleFlag>, RuleFault> {
    if !bracketed(s) {
        Err(RuleFault::FlagsMissingBrackets(s))
    } else {
        match rule_flags(flag_items(s)) {
            Err(e) => Err(e),
            Ok(fs) => if fs.len() == 0 {
                Err(RuleFault::FlagsEmpty)
            } else if exclusive_count(fs) > 1 {
                Err(RuleFault::FlagsMutuallyExclusive)
            } else {
                Ok(fs)
            },
        }
    }
}

/// The pattern, rewrite target and flags that the rule text `s` declares, before its
/// pattern is compiled.
pub open spec fn rule_parts(s: Seq<char>) -> Result<(Seq<char>, Seq<char>, Seq<RuleFlag>), RuleFault> {
    let w = words_of(s);
    if w.len() == 0 {
        Err(RuleFault::MissingPattern)
    } else if w.len() == 1 {
        Err(RuleFault::MissingRewrite)
    } else {
        let flags = if w.len() >= 3 {
            rule_flag_list(w[2])
        } else {
            Ok(Seq::empty())
        };
        match flags {
            Err(e) => Err(e),
            Ok(fs) => if w.len() >= 4 {
                Err(RuleFault::InvalidSuffix(w[3]))
            } else {
                Ok((w[0], w[1], fs))
            },
        }
    }
}

/// Whether the rule text `s` parses and its pattern compiles.
pub open spec fn rule_ok(s: Seq<char>) -> bool {
    match rule_parts(s) {
        Ok((p, _, fs)) => regex_compiles(p, fs.contains(RuleFlag::Mod(RuleMod::NoCase))),
        Err(_) => false,
    }
}

/// The group texts as a rule inserts them: percent-encoded unless `noescape`.
pub open spec fn encode_groups(g: Seq<Option<Seq<char>>>, noescape: bool) -> Seq<Option<Seq<char>>> {
    Seq::new(
        g.len(),
        |i: int|
            match g[i] {
                Some(s) => Some(
                    if noescape {
                        s
                    } else {
                        escaped(s)
                    },
                ),
                None => None,
            },
    )
}

/// What a rule with target `target` makes of `uri`, given the groups `g` its pattern
/// captured and the group names: the target `-` keeps the URI as it is.
pub open spec fn rewritten(
    target: Seq<char>,
    uri: Seq<char>,
    g: Seq<Option<Seq<char>>>,
    names: Seq<Option<Seq<char>>>,
    noescape: bool,
) -> Seq<char> {
    if target == "-"@ {
        uri
    } else {
        interpolation(target, encode_groups(g, noescape), names)
    }
}

/// The first shift flag of `fs`.
pub open spec fn first_shift(fs: Seq<RuleFlag>) -> Option<RuleShift>
    decreases fs.len(),
{
    if fs.len() == 0 {
        None
    } else {
        match fs[0] {
            RuleFlag::Shift(s) => Some(s),
            _ => first_shift(fs.drop_first()),
        }
    }
}

/// The first resolve flag of `fs`.
pub open spec fn first_resolve(fs: Seq<RuleFlag>) -> Option<RuleResolve>
    decreases fs.len(),
{
    if fs.len() == 0 {
        None
    } else {
        match fs[0] {
            RuleFlag::Resolve(r) => Some(r),
            _ => first_resolve(fs.drop_first()),
        }
    }
}

/// Reads a flag argument as a number, `default` where it is empty.
pub fn parse_int(s: &Vec<char>, default: u16) -> (r: Result<u16, RuleError>)
    ensures
        match int_arg(s@, default) {
            Ok(n) => r is Ok && r->Ok_0 == n,
            Err(e) => r is Err && r->Err_0@ == e,
        },
{
    if s.len() == 0 {
        return Ok(default);
    }
    match parse_unsigned(s, 0xffff) {
        Some(n) => Ok(n as u16),
        None => Err(RuleError::InvalidFlagNumber(string_of(s.as_slice()))),
    }
}

/// Reads a flag argument as an HTTP status, `default` where it is empty.
pub fn parse_status(s: &Vec<char>, default: u16) -> (r: Result<u16, RuleError>)
    ensures
        match status_arg(s@, default) {
            Ok(n) => r is Ok && r->Ok_0 == n,
            Err(e) => r is Err && r->Err_0@ == e,
        },
{
    let n = parse_int(s, default)?;
    if !(100 <= n && n < 600) {
        return Err(RuleError::InvalidFlagStatus(string_of(s.as_slice())));
    }
    Ok(n)
}

impl RuleFlag {
    /// Parses one rule flag, such as `L`, `R=301` or `S=2`.
    pub fn from_chars(t: &Vec<char>) -> (r: Result<RuleFlag, RuleError>)
        ensures
            match rule_flag(t@) {
                Ok(f) => r is Ok && r->Ok_0 == f,
                Err(e) => r is Err && r->Err_0@ == e,
            },
    {
        let (name, arg) = match find_char(t, '=') {
            Some(i) => {
                assert(i < t.len());
                (sub_chars(t, 0, i), sub_chars(t, i + 1, t.len()))
            },
            None => (sub_chars(t, 0, t.len()), Vec::new()),
        };
        proof {
            if index_of(t@, '=') is None {
                assert(name@ =~= t@);
                assert(arg@ =~= Seq::<char>::empty());
            }
        }
        let l = chars_of(lowercase(string_of(name.as_slice()).as_str()).as_str());
        if chars_eq(&l, "e") || chars_eq(&l, "end") {
            Ok(RuleFlag::Shift(RuleShift::End))
        } else if chars_eq(&l, "l") || chars_eq(&l, "last") {
            Ok(RuleFlag::Shift(RuleShift::Last))
        } else if chars_eq(&l, "n") || chars_eq(&l, "next") {
            Ok(RuleFlag::Shift(RuleShift::Next))
        } else if chars_eq(&l, "s") || chars_eq(&l, "skip") {
            Ok(RuleFlag::Shift(RuleShift::Skip(parse_int(&arg, 1)?)))
        } else if chars_eq(&l, "i") || chars_eq(&l, "insensitive") || chars_eq(&l, "nc")
            || chars_eq(&l, "nocase") {
            Ok(RuleFlag::Mod(RuleMod::NoCase))
        } else if chars_eq(&l, "ne") || chars_eq(&l, "noescape") {
            Ok(RuleFlag::Mod(RuleMod::NoEscape))
        } else if chars_eq(&l, "r") || chars_eq(&l, "redirect") {
            Ok(RuleFlag::Resolve(RuleResolve::Redirect(parse_status(&arg, 302)?)))
        } else if chars_eq(&l, "f") || chars_eq(&l, "forbidden") {
            Ok(RuleFlag::Resolve(RuleResolve::Status(403)))
        } else if chars_eq(&l, "g") || chars_eq(&l, "gone") {
            Ok(RuleFlag::Resolve(RuleResolve::Status(410)))
        } else if l.len() == 0 {
            Ok(RuleFlag::Resolve(RuleResolve::Status(parse_status(&arg, 403)?)))
        } else {
            Err(RuleError::InvalidFlag(string_of(t.as_slice())))
        }
    }
}

/// Parses a rule flag list `[flag,flag,...]`.
pub fn parse_rule_flags(s: &Vec<char>) -> (r: Result<Vec<RuleFlag>, RuleError>)
    ensures
        match rule_flag_list(s@) {
            Ok(fs) => r is Ok && r->Ok_0@ == fs,
            Err(e) => r is Err && r->Err_0@ == e,
        },
{
    if !(s.len() > 0 && s[0] == '[' && s[s.len() - 1] == ']') {
        return Err(RuleError::FlagsMissingBrackets(string_of(s.as_slice())));
    }
    let items = flag_items_exec(s);
    let ghost its = char_views(items@);
    let mut flags: Vec<RuleFlag> = Vec::new();
    let mut count: usize = 0;
    let mut i: usize = 0;
    proof {
        assert(its.subrange(0, its.len() as int) =~= its);
    }
    while i < items.len()
        invariant
            its == char_views(items@),
            its == flag_items(s@),
            bracketed(s@),
            i <= items@.len(),
            count == exclusive_count(flags@),
            count <= i,
            rule_flags(its) == match rule_flags(its.subrange(i as int, its.len() as int)) {
                Ok(rest) => Ok(flags@ + rest),
                Err(e) => Err(e),
            },
        decreases items@.len() - i,
    {
        proof {
            assert(its.subrange(i as int, its.len() as int).drop_first() =~= its.subrange(
                i + 1,
                its.len() as int,
            ));
        }
        let f = match RuleFlag::from_chars(&items[i]) {
            Ok(f) => f,
            Err(e) => {
                proof {
                    let sub = its.subrange(i as int, its.len() as int);
                    assert(sub[0] == its[i as int]);
                    assert(items@[i as int]@ == its[i as int]);
                }
                return Err(e);
            },
        };
        let ghost before = flags@;
        flags.push(f);
        proof {
            assert(flags@.drop_last() =~= before);
            match rule_flags(its.subrange(i + 1, its.len() as int)) {
                Ok(rest) => {
                    assert(before + (seq![f] + rest) =~= flags@ + rest);
                },
                Err(e) => {},
            }
        }
        match f {
            RuleFlag::Mod(_) => {},
            _ => {
                count = count + 1;
            },
        }
        i = i + 1;
    }
    proof {
        assert(its.subrange(i as int, its.len() as int) =~= Seq::<Seq<char>>::empty());
        assert(flags@ + Seq::<RuleFlag>::empty() =~= flags@);
    }
    if flags.len() == 0 {
        return Err(RuleError::FlagsEmpty);
    }
    if count > 1 {
        return Err(RuleError::FlagsMutuallyExclusive);
    }
    Ok(flags)
}

/// Inserts group texts the way a rule does: percent-encoded unless `noescape`.
pub fn encode_groups_exec(groups: &Vec<Option<String>>, noescape: bool) -> (r: Vec<Option<String>>)
    ensures
        opt_views(r@) == encode_groups(opt_views(groups@), noescape),
{
    let mut out: Vec<Option<String>> = Vec::new();
    let mut i: usize = 0;
    while i < groups.len()
        invariant
            i <= groups@.len(),
            opt_views(out@) =~= encode_groups(opt_views(groups@), noescape).subrange(0, i as int),
        decreases groups@.len() - i,
    {
        let item = match &groups[i] {
            Some(s) => Some(
                if noescape {
                    s.clone()
                } else {
                    percent_encode(s.as_str())
                },
            ),
            None => None,
        };
        let ghost before = out@;
        out.push(item);
        proof {
            assert(opt_views(out@) =~= opt_views(before).push(
                encode_groups(opt_views(groups@), noescape)[i as int],
            ));
        }
        i = i + 1;
    }
    proof {
        assert(encode_groups(opt_views(groups@), noescape).subrange(0, i as int) =~= encode_groups(
            opt_views(groups@),
            noescape,
        ));
    }
    out
}

/// A `RewriteRule` expression: a regular expression matched against the URI path,
/// the target it is rewritten to, and flags.
#[derive(Debug)]
pub struct Rule {
    pattern: CompiledPattern,
    rewrite: String,
    flags: Vec<RuleFlag>,
}

impl Rule {
    /// The text of the rule's pattern.
    pub closed spec fn source(&self) -> Seq<char> {
        self.pattern.source()
    }

    /// Whether the pattern ignores case.
    pub closed spec fn nocase(&self) -> bool {
        self.pattern.nocase()
    }

    /// The rewrite target.
    pub closed spec fn target(&self) -> Seq<char> {
        self.rewrite@
    }

    /// The flags, in the order declared.
    pub closed spec fn flag_list(&self) -> Seq<RuleFlag> {
        self.flags@
    }

    /// Whether captured text is inserted without percent-encoding.
    pub open spec fn noescape(&self) -> bool {
        self.flag_list().contains(RuleFlag::Mod(RuleMod::NoEscape))
    }

    /// What the rule does to `uri`: `None` where its pattern does not match.
    pub open spec fn rewrite_of(&self, uri: Seq<char>) -> Option<Seq<char>> {
        match regex_groups(self.source(), self.nocase(), uri) {
            None => None,
            Some(g) => Some(
                rewritten(self.target(), uri, g, regex_group_names(self.source()), self.noescape()),
            ),
        }
    }

    /// Parses a rule: `<pattern> <rewrite|-> [flags]`.
    pub fn from_str(s: &str) -> (r: Result<Rule, RuleError>)
        ensures
            rule_parts(s@) is Err ==> r is Err && r->Err_0@ == rule_parts(s@)->Err_0,
            r is Ok ==> rule_parts(s@) is Ok && {
                let (p, t, fs) = rule_parts(s@)->Ok_0;
                &&& r->Ok_0.source() == p
                &&& r->Ok_0.target() == t
                &&& r->Ok_0.flag_list() == fs
                &&& r->Ok_0.nocase() == fs.contains(RuleFlag::Mod(RuleMod::NoCase))
            },
            r is Err && rule_parts(s@) is Ok ==> r->Err_0 is InvalidRegex,
            r is Ok <==> rule_ok(s@),
    {
        let words = split_words(&chars_of(s));
        if words.len() == 0 {
            return Err(RuleError::MissingPattern);
        }
        if words.len() == 1 {
            return Err(RuleError::MissingRewrite);
        }
        let flags = if words.len() >= 3 {
            parse_rule_flags(&words[2])?
        } else {
            Vec::new()
        };
        if words.len() >= 4 {
            return Err(RuleError::InvalidSuffix(string_of(words[3].as_slice())));
        }
        let nocase = contains_flag(&flags, RuleFlag::Mod(RuleMod::NoCase));
        let source = string_of(words[0].as_slice());
        let pattern = match CompiledPattern::compile(source.as_str(), nocase) {
            Ok(p) => p,
            Err(e) => return Err(RuleError::InvalidRegex(e)),
        };
        Ok(Rule { pattern, rewrite: string_of(words[1].as_slice()), flags })
    }

    /// Matches the pattern against `uri` and, where it matches, returns the rewritten
    /// URI: the target with each group reference replaced by the group's text,
    /// percent-encoded unless the rule has `NE`; the target `-` keeps `uri`.
    pub fn try_rewrite(&self, uri: &str) -> (r: Option<String>)
        ensures
            r is None <==> self.rewrite_of(uri@) is None,
            r is Some ==> r->0@ == self.rewrite_of(uri@)->0,
    {
        let groups = match self.pattern.captures(uri) {
            Some(g) => g,
            None => return None,
        };
        if chars_eq(&chars_of(self.rewrite.as_str()), "-") {
            return Some(String::from_str(uri));
        }
        let noescape = contains_flag(&self.flags, RuleFlag::Mod(RuleMod::NoEscape));
        let encoded = encode_groups_exec(&groups, noescape);
        let names = self.pattern.names();
        Some(expand(self.rewrite.as_str(), &encoded, &names))
    }

    /// The first shift flag of the rule.
    pub fn shift(&self) -> (r: Option<RuleShift>)
        ensures
            r == first_shift(self.flag_list()),
    {
        let mut i: usize = 0;
        proof {
            assert(self.flags@.subrange(0, self.flags@.len() as int) =~= self.flags@);
        }
        while i < self.flags.len()
            invariant
                i <= self.flags@.len(),
                first_shift(self.flags@) == first_shift(self.flags@.subrange(i as int, self.flags@.len() as int)),
            decreases self.flags@.len() - i,
        {
            proof {
                assert(self.flags@.subrange(i as int, self.flags@.len() as int).drop_first()
                    =~= self.flags@.subrange(i + 1, self.flags@.len() as int));
            }
            match self.flags[i] {
                RuleFlag::Shift(s) => return Some(s),
                _ => {},
            }
            i = i + 1;
        }
        None
    }

    /// The first resolve flag of the rule.
    pub fn resolve(&self) -> (r: Option<RuleResolve>)
        ensures
            r == first_resolve(self.flag_list()),
    {
        let mut i: usize = 0;
        proof {
            assert(self.flags@.subrange(0, self.flags@.len() as int) =~= self.flags@);
        }
        while i < self.flags.len()
            invariant
                i <= self.flags@.len(),
                first_resolve(self.flags@) == first_resolve(self.flags@.subrange(i as int, self.flags@.len() as int)),
            decreases self.flags@.len() - i,
        {
            proof {
                assert(self.flags@.subrange(i as int, self.flags@.len() as int).drop_first()
                    =~= self.flags@.subrange(i + 1, self.flags@.len() as int));
            }
            match self.flags[i] {
                RuleFlag::Resolve(r) => return Some(r),
                _ => {},
            }
            i = i + 1;
        }
        None
    }

    /// The rewrite target, as written.
    pub fn rewrite_target(&self) -> (r: &str)
        ensures
            r@ == self.target(),
    {
        self.rewrite.as_str()
    }

    /// The flags, in the order declared.
    pub fn flags(&self) -> (r: &Vec<RuleFlag>)
        ensures
            r@ == self.flag_list(),
    {
        &self.flags
    }
}

fn contains_flag(flags: &Vec<RuleFlag>, f: RuleFlag) -> (r: bool)
    ensures
        r == flags@.contains(f),
{
    let mut i: usize = 0;
    while i < flags.len()
        invariant
            i <= flags@.len(),
            forall|j: int| 0 <= j < i ==> flags@[j] != f,
        decreases flags@.len() - i,
    {
        if flags[i] == f {
            return true;
        }
        i = i + 1;
    }
    false
}

} // verus!
