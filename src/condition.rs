//! `RewriteCond` expressions: a matcher and its flags.
use vstd::prelude::*;

use crate::context::{expanded_with, ContextProvider, EngineCtx};
use crate::error::CondError;
use crate::matcher::{match_holds, parse_match, CondFault, Match, MatchView};
use crate::parse::{bracketed, char_views, flag_items, flag_items_exec, tokens_of, tokenize, views};
use crate::text::{chars_eq, chars_of, lower_of, lowercase, string_of};

verus! {

/// Flags that change how a [`Condition`] behaves.
#[derive(Clone, Copy, Debug, PartialEq, Eq, Structural)]
pub enum CondFlag {
    NoCase,
    Or,
}

/// The condition flag that a lowercased name stands for.
pub open spec fn cond_flag_named(l: Seq<char>) -> Option<CondFlag> {
    if l == "i"@ || l == "insensitive"@ || l == "nc"@ || l == "nocase"@ {
        Some(CondFlag::NoCase)
    } else if l == "or"@ || l == "ornext"@ {
        Some(CondFlag::Or)
    } else {
        None
    }
}

/// The flags that `items` name, or the first item that names none.
pub open spec fn cond_flags(items: Seq<Seq<char>>) -> Result<Seq<CondFlag>, Seq<char>>
    decreases items.len(),
{
    if items.len() == 0 {
        Ok(Seq::empty())
    } else {
        match cond_flag_named(lower_of(items[0])) {
            None => Err(items[0]),
            Some(f) => match cond_flags(items.drop_first()) {
                Ok(rest) => Ok(seq![f] + rest),
                Err(e) => Err(e),
            },
        }
    }
}

/// The flags that a condition flag list `[...]` declares.
pub open spec fn cond_flag_list(s: Seq<char>) -> Result<Seq<CondFlag>, CondFault> {
    if !bracketed(s) {
        Err(CondFault::FlagsMissingBrackets(s))
    } else {
        match cond_flags(flag_items(s)) {
            Err(t) => Err(CondFault::InvalidFlag(t)),
            Ok(fs) => if fs.len() == 0 {
                Err(CondFault::FlagsEmpty)
            } else {
                Ok(fs)
            },
        }
    }
}

/// The condition that the text `s` declares: its matcher and its flags.
pub open spec fn condition_of(s: Seq<char>) -> Result<(MatchView, Seq<CondFlag>), CondFault> {
    match tokens_of(s) {
        None => Err(CondFault::UnclosedQuotation(Seq::empty())),
        Some(t) => match parse_match(t, 0) {
            Err(e) => Err(e),
            Ok((m, q)) => if 0 <= q < t.len() {
                match cond_flag_list(t[q]) {
                    Err(e) => Err(e),
                    Ok(fs) => Ok((m, fs)),
                }
            } else {
                Ok((m, Seq::empty()))
            },
        },
    }
}

fn cond_flag_from(s: &Vec<char>) -> (r: Result<CondFlag, CondError>)
    ensures
        r is Ok <==> cond_flag_named(lower_of(s@)) is Some,
        r is Ok ==> r->Ok_0 == cond_flag_named(lower_of(s@))->0,
        r is Err ==> r->Err_0@ == CondFault::InvalidFlag(s@),
{
    let text = string_of(s.as_slice());
    let l = chars_of(lowercase(text.as_str()).as_str());
    if chars_eq(&l, "i") || chars_eq(&l, "insensitive") || chars_eq(&l, "nc") || chars_eq(
        &l,
        "nocase",
    ) {
        Ok(CondFlag::NoCase)
    } else if chars_eq(&l, "or") || chars_eq(&l, "ornext") {
        Ok(CondFlag::Or)
    } else {
        Err(CondError::InvalidFlag(text))
    }
}

fn cond_flag_list_from(s: &Vec<char>) -> (r: Result<Vec<CondFlag>, CondError>)
    ensures
        match cond_flag_list(s@) {
            Ok(fs) => r is Ok && r->Ok_0@ == fs,
            Err(e) => r is Err && r->Err_0@ == e,
        },
{
    if !(s.len() > 0 && s[0] == '[' && s[s.len() - 1] == ']') {
        return Err(CondError::FlagsMissingBrackets(string_of(s.as_slice())));
    }
    let items = flag_items_exec(s);
    let ghost its = char_views(items@);
    let mut flags: Vec<CondFlag> = Vec::new();
    let mut i: usize = 0;
    proof {
        assert(its.subrange(0, its.len() as int) =~= its);
    }
    while i < items.len()
        invariant
            its == char_views(items@),
            its == flag_items(s@),
            bracketed(s@),
            i <= items@.len(),
            cond_flags(its) == match cond_flags(its.subrange(i as int, its.len() as int)) {
                Ok(rest) => Ok(flags@ + rest),
                Err(e) => Err(e),
            },
        decreases items@.len() - i,
    {
        proof {
            assert(its.subrange(i as int, its.len() as int).drop_first() =~= its.subrange(
                i + 1,
                its.len() as int,
            ));
        }
        let f = match cond_flag_from(&items[i]) {
            Ok(f) => f,
            Err(e) => {
                proof {
                    let sub = its.subrange(i as int, its.len() as int);
                    assert(sub[0] == its[i as int]);
                    assert(items@[i as int]@ == its[i as int]);
                    assert(cond_flags(sub) == Err::<Seq<CondFlag>, Seq<char>>(its[i as int]));
                    assert(cond_flags(its) == Err::<Seq<CondFlag>, Seq<char>>(its[i as int]));
                }
                return Err(e);
            },
        };
        let ghost before = flags@;
        flags.push(f);
        proof {
            match cond_flags(its.subrange(i + 1, its.len() as int)) {
                Ok(rest) => {
                    assert(before + (seq![f] + rest) =~= flags@ + rest);
                },
                Err(e) => {},
            }
        }
        i = i + 1;
    }
    proof {
        assert(its.subrange(i as int, its.len() as int) =~= Seq::<Seq<char>>::empty());
        assert(flags@ + Seq::<CondFlag>::empty() =~= flags@);
    }
    if flags.len() == 0 {
        return Err(CondError::FlagsEmpty);
    }
    Ok(flags)
}

/// A `RewriteCond` expression: a matcher and the flags that change how it is
/// evaluated.
#[derive(Clone, Debug)]
pub struct Condition {
    matcher: Match,
    flags: Vec<CondFlag>,
}

/// What condition `c` gives where its operands are expanded through `ctx` and the file
/// system answers `probed`.
pub open spec fn outcome<P: ContextProvider>(c: Condition, ctx: EngineCtx<P>, probed: bool) -> bool {
    match_holds(
        c.matcher_view(),
        ctx.expand(lhs_of(c.matcher_view())),
        match rhs_of(c.matcher_view()) {
            Some(b) => ctx.expand(b),
            None => Seq::empty(),
        },
        c.nocase(),
        probed,
    )
}

/// Whether condition `c` tests a file.
pub open spec fn is_file_test(c: Condition) -> bool {
    rhs_of(c.matcher_view()) is None
}

/// Contexts with providers that give the same values give conditions the same
/// outcomes.
pub proof fn lemma_outcome_same<P: ContextProvider>(c: Condition, a: EngineCtx<P>, b: EngineCtx<P>, probed: bool)
    requires
        a.same_values(&b),
    ensures
        outcome(c, a, probed) == outcome(c, b, probed),
{
    a.lemma_same_expand(&b, lhs_of(c.matcher_view()));
    match rhs_of(c.matcher_view()) {
        Some(r) => a.lemma_same_expand(&b, r),
        None => {},
    }
}

/// Whether `r` is an outcome that condition `c` can have under `ctx`, however the
/// file system answers.
pub open spec fn met_by<P: ContextProvider>(c: Condition, ctx: EngineCtx<P>, r: bool) -> bool {
    exists|probed: bool| r == outcome(c, ctx, probed)
}

/// The outcome of condition `c` where no variable resolves and no file is found.
pub open spec fn blank_met(c: Condition) -> bool {
    match_holds(
        c.matcher_view(),
        blanked(lhs_of(c.matcher_view())),
        match rhs_of(c.matcher_view()) {
            Some(b) => blanked(b),
            None => Seq::empty(),
        },
        c.nocase(),
        false,
    )
}

/// An operand with each of its references resolved to the empty string.
pub open spec fn blanked(expr: Seq<char>) -> Seq<char> {
    expanded_with(expr, 0, |k: Seq<char>| Seq::<char>::empty())
}

/// The left operand of a matcher.
pub open spec fn lhs_of(m: MatchView) -> Seq<char> {
    match m {
        MatchView::Pattern(a, _, _) => a,
        MatchView::NotPattern(a, _, _) => a,
        MatchView::Compare(a, _, _) => a,
        MatchView::FileTest(a, _) => a,
        MatchView::NotFileTest(a, _) => a,
    }
}

/// The right operand of a matcher; file tests have none.
pub open spec fn rhs_of(m: MatchView) -> Option<Seq<char>> {
    match m {
        MatchView::Pattern(_, _, b) => Some(b),
        MatchView::NotPattern(_, _, b) => Some(b),
        MatchView::Compare(_, _, b) => Some(b),
        _ => None,
    }
}

impl Condition {
    /// The matcher of the condition.
    pub closed spec fn matcher_view(&self) -> MatchView {
        self.matcher@
    }

    /// The flags of the condition.
    pub closed spec fn flags_view(&self) -> Seq<CondFlag> {
        self.flags@
    }

    /// Whether the condition compares without regard to case.
    pub open spec fn nocase(&self) -> bool {
        self.flags_view().contains(CondFlag::NoCase)
    }

    /// The matcher of the condition.
    pub fn matcher(&self) -> (r: &Match)
        ensures
            r@ == self.matcher_view(),
    {
        &self.matcher
    }

    /// The flags of the condition, in the order declared.
    pub fn flags(&self) -> (r: &Vec<CondFlag>)
        ensures
            r@ == self.flags_view(),
    {
        &self.flags
    }

    /// Parses a condition: `<lhs> <op>[<rhs>] [<rhs>] [flags]`.
    pub fn from_str(s: &str) -> (r: Result<Condition, CondError>)
        ensures
            r is Ok <==> condition_of(s@) is Ok,
            r is Ok ==> (r->Ok_0.matcher_view(), r->Ok_0.flags_view()) == condition_of(s@)->Ok_0,
            r is Err && tokens_of(s@) is Some ==> r->Err_0@ == condition_of(s@)->Err_0,
            r is Err && tokens_of(s@) is None ==> r->Err_0 is UnclosedQuotation,
    {
        let tokens = tokenize(&chars_of(s))?;
        let (matcher, q) = Match::parse(&tokens, 0)?;
        let flags = if q < tokens.len() {
            cond_flag_list_from(&chars_of(tokens[q].as_str()))?
        } else {
            Vec::new()
        };
        Ok(Condition { matcher, flags })
    }

    fn has_flag(&self, f: CondFlag) -> (r: bool)
        ensures
            r == self.flags@.contains(f),
    {
        let mut i: usize = 0;
        while i < self.flags.len()
            invariant
                i <= self.flags@.len(),
                forall|j: int| 0 <= j < i ==> self.flags@[j] != f,
            decreases self.flags@.len() - i,
        {
            if self.flags[i] == f {
                return true;
            }
            i = i + 1;
        }
        false
    }

    /// Whether the condition is joined to the others by OR rather than AND.
    pub fn is_or(&self) -> (r: bool)
        ensures
            r == self.flags_view().contains(CondFlag::Or),
    {
        self.has_flag(CondFlag::Or)
    }

    /// Evaluates the condition: its operands are resolved through `ctx`, and a file test
    /// asks the providers of `ctx` about the file.
    pub fn is_met<P: ContextProvider>(&self, ctx: &mut EngineCtx<P>) -> (r: bool)
        ensures
            met_by(*self, *old(ctx), r),
            !is_file_test(*self) ==> r == outcome(*self, *old(ctx), false),
            old(ctx).len() == 0 ==> r == blank_met(*self),
            final(ctx).same_values(old(ctx)),
            final(ctx).len() == old(ctx).len(),
    {
        let ghost o = *old(ctx);
        let nocase = self.has_flag(CondFlag::NoCase);
        match &self.matcher {
            Match::Pattern(a, _, b) | Match::NotPattern(a, _, b) | Match::Compare(a, _, b) => {
                let va = ctx.replace_all(a.as_str());
                let ghost mid = *ctx;
                let vb = ctx.replace_all(b.as_str());
                let r = self.matcher.evaluate(va.as_str(), vb.as_str(), nocase, false);
                proof {
                    mid.lemma_same_expand(&o, b@);
                    ctx.lemma_same_values_trans(&mid, &o);
                    assert(r == outcome(*self, o, false));
                    if o.len() == 0 {
                        o.lemma_empty_expand(a@);
                        o.lemma_empty_expand(b@);
                    }
                }
                r
            },
            Match::FileTest(a, t) | Match::NotFileTest(a, t) => {
                let va = ctx.replace_all(a.as_str());
                let probed = ctx.probe(va.as_str(), *t);
                let empty = String::new();
                let r = self.matcher.evaluate(va.as_str(), empty.as_str(), nocase, probed);
                proof {
                    assert(r == outcome(*self, o, probed));
                    if o.len() == 0 {
                        o.lemma_empty_expand(a@);
                    }
                }
                r
            },
        }
    }
}

} // verus!
