//! Expressions, their grouping, and the evaluation of a group of rules.
use vstd::prelude::*;

use crate::condition::{blank_met, condition_of, is_file_test, lemma_outcome_same, met_by, outcome, CondFlag, Condition};
use crate::context::{ContextProvider, EngineCtx};
use crate::error::{EngineError, ExpressionError};
use crate::extra::{join_query, joined, path_part, query_part, split_query, State};
use crate::extra::state_of;
use crate::parse::char_views;
use crate::matcher::MatchView;
use crate::rule::{first_resolve, first_shift, rule_ok, rule_parts, Rule, RuleFlag, RuleMod, RuleResolve, RuleShift};
use crate::parse::tokens_of;
use crate::text::{
    chars_eq, chars_of, find_ws, lower_of, lowercase, split_chars, split_spec, starts_with,
    string_of, sub_chars, trim, trimmed, ws_from,
};

verus! {

/// The result of a rewrite: a new URI to pass on, a final URI, a redirect, or a bare
/// status code.
#[derive(Debug, Clone, PartialEq)]
pub enum Rewrite {
    Uri(String),
    EndUri(String),
    Redirect(String, u16),
    StatusCode(u16),
}

/// What a [`Rewrite`] holds, with its URIs as character sequences.
pub enum RewriteView {
    Uri(Seq<char>),
    EndUri(Seq<char>),
    Redirect(Seq<char>, u16),
    StatusCode(u16),
}

impl View for Rewrite {
    type V = RewriteView;

    open spec fn view(&self) -> RewriteView {
        match self {
            Rewrite::Uri(u) => RewriteView::Uri(u@),
            Rewrite::EndUri(u) => RewriteView::EndUri(u@),
            Rewrite::Redirect(u, c) => RewriteView::Redirect(u@, *c),
            Rewrite::StatusCode(c) => RewriteView::StatusCode(*c),
        }
    }
}

/// A result with `query` attached to its URI; a status code has none.
pub open spec fn with_query_spec(v: RewriteView, query: Seq<char>) -> RewriteView {
    match v {
        RewriteView::Uri(u) => RewriteView::Uri(joined(u, query)),
        RewriteView::EndUri(u) => RewriteView::EndUri(joined(u, query)),
        RewriteView::Redirect(u, c) => RewriteView::Redirect(joined(u, query), c),
        RewriteView::StatusCode(c) => RewriteView::StatusCode(c),
    }
}

impl Rewrite {
    /// Attaches `query` to the URI of the result.
    pub fn with_query(self, query: &str) -> (r: Rewrite)
        ensures
            r@ == with_query_spec(self@, query@),
    {
        match self {
            Rewrite::Uri(u) => Rewrite::Uri(join_query(u, query)),
            Rewrite::EndUri(u) => Rewrite::EndUri(join_query(u, query)),
            Rewrite::Redirect(u, c) => Rewrite::Redirect(join_query(u, query), c),
            Rewrite::StatusCode(c) => Rewrite::StatusCode(c),
        }
    }
}

/// The first rule from position `k` on that matches `path`, with what it makes of it.
pub open spec fn first_match(rules: Seq<Rule>, path: Seq<char>, k: int) -> Option<(int, Seq<char>)>
    decreases rules.len() - k,
{
    if k < 0 || k >= rules.len() {
        None
    } else {
        match rules[k].rewrite_of(path) {
            Some(p) => Some((k, p)),
            None => first_match(rules, path, k + 1),
        }
    }
}

/// The rule scan: starting at rule `next` with `it` passes made out of at most `max`,
/// take the first rule that matches `path` and follow its flags. `None` where the
/// passes run out.
pub open spec fn run(rules: Seq<Rule>, path: Seq<char>, next: int, it: nat, max: nat) -> Option<
    RewriteView,
>
    decreases max - it,
{
    if it >= max {
        None
    } else {
        match first_match(rules, path, next) {
            None => Some(RewriteView::Uri(path)),
            Some((j, p)) => match first_shift(rules[j].flag_list()) {
                Some(RuleShift::Next) => run(rules, p, 0, it + 1, max),
                Some(RuleShift::Last) => Some(RewriteView::Uri(p)),
                Some(RuleShift::End) => Some(RewriteView::EndUri(p)),
                Some(RuleShift::Skip(n)) => run(rules, p, j + 1 + n, it + 1, max),
                None => match first_resolve(rules[j].flag_list()) {
                    Some(RuleResolve::Status(c)) => Some(RewriteView::StatusCode(c)),
                    Some(RuleResolve::Redirect(c)) => Some(RewriteView::Redirect(p, c)),
                    None => run(rules, p, j + 1, it + 1, max),
                },
            },
        }
    }
}

proof fn lemma_run_past_end(rules: Seq<Rule>, path: Seq<char>, a: int, b: int, it: nat, max: nat)
    requires
        a >= rules.len(),
        b >= rules.len(),
    ensures
        run(rules, path, a, it, max) == run(rules, path, b, it, max),
{
}

/// What a group with `rules` and the bound `max` makes of `uri`: its path goes through
/// the rule scan and its query is attached again. `None` where the passes run out.
pub open spec fn group_result(rules: Seq<Rule>, uri: Seq<char>, max: nat) -> Option<RewriteView> {
    match run(rules, path_part(uri), 0, 0, max) {
        None => None,
        Some(v) => Some(with_query_spec(v, query_part(uri))),
    }
}

/// One parsed line of rule text.
#[derive(Debug)]
pub enum Expression {
    Condition(Condition),
    Rule(Rule),
    State(State),
}

/// The conditions among `es`, in order.
pub open spec fn conditions_of(es: Seq<Expression>) -> Seq<Condition>
    decreases es.len(),
{
    if es.len() == 0 {
        Seq::empty()
    } else {
        match es[0] {
            Expression::Condition(c) => seq![c] + conditions_of(es.drop_first()),
            _ => conditions_of(es.drop_first()),
        }
    }
}

/// The rules among `es`, in order.
pub open spec fn rules_of(es: Seq<Expression>) -> Seq<Rule>
    decreases es.len(),
{
    if es.len() == 0 {
        Seq::empty()
    } else {
        match es[0] {
            Expression::Rule(r) => seq![r] + rules_of(es.drop_first()),
            _ => rules_of(es.drop_first()),
        }
    }
}

/// Whether the last state among `es` is on; `cur` where there is none.
pub open spec fn enabled_after(es: Seq<Expression>, cur: bool) -> bool
    decreases es.len(),
{
    if es.len() == 0 {
        cur
    } else {
        match es[0] {
            Expression::State(s) => enabled_after(es.drop_first(), s == State::On),
            _ => enabled_after(es.drop_first(), cur),
        }
    }
}

/// Whether `c` is joined to the others by OR.
pub open spec fn is_or_cond(c: Condition) -> bool {
    c.flags_view().contains(crate::condition::CondFlag::Or)
}

/// The verdict of conditions `conds` whose outcomes are `res`: met where any OR
/// condition is met or every other condition is.
pub open spec fn verdict(conds: Seq<Condition>, res: Seq<bool>) -> bool {
    (exists|i: int| 0 <= i < conds.len() && is_or_cond(conds[i]) && #[trigger] res[i]) || (forall|
        i: int,
    |
        0 <= i < conds.len() && !is_or_cond(conds[i]) ==> #[trigger] res[i])
}

/// The outcome of each condition where no variable resolves and no file is found.
pub open spec fn blank_results(conds: Seq<Condition>) -> Seq<bool> {
    Seq::new(conds.len(), |i: int| blank_met(conds[i]))
}

/// A group of expressions: conditions that guard the rules that follow them.
#[derive(Debug)]
pub struct ExprGroup {
    conditions: Vec<Condition>,
    rules: Vec<Rule>,
    enabled: bool,
    max_iterations: usize,
}

/// The default bound on passes over the rules of a group.
pub const DEFAULT_MAX_ITERATIONS: usize = 10;

impl ExprGroup {
    /// The conditions of the group.
    pub closed spec fn conds(&self) -> Seq<Condition> {
        self.conditions@
    }

    /// The rules of the group.
    pub closed spec fn rule_seq(&self) -> Seq<Rule> {
        self.rules@
    }

    /// Whether the group is switched on.
    pub closed spec fn is_enabled(&self) -> bool {
        self.enabled
    }

    /// The bound on passes over the rules.
    pub closed spec fn max_iter(&self) -> nat {
        self.max_iterations as nat
    }

    /// Whether `v` is a verdict that the conditions of this group can give.
    pub open spec fn verdict_possible<P: ContextProvider>(&self, ctx: EngineCtx<P>, v: bool) -> bool {
        &&& !self.is_enabled() ==> !v
        &&& self.is_enabled() ==> exists|res: Seq<bool>|
            res.len() == self.conds().len() && (forall|i: int|
                0 <= i < res.len() ==> met_by(self.conds()[i], ctx, #[trigger] res[i])) && v == verdict(
                self.conds(),
                res,
            )
    }

    /// Whether no condition of the group tests a file.
    pub open spec fn no_file_tests(&self) -> bool {
        forall|i: int| 0 <= i < self.conds().len() ==> !is_file_test(#[trigger] self.conds()[i])
    }

    /// The verdict of the group under `ctx`, where it tests no file.
    pub open spec fn verdict_under<P: ContextProvider>(&self, ctx: EngineCtx<P>) -> bool {
        self.is_enabled() && verdict(
            self.conds(),
            Seq::new(self.conds().len(), |i: int| outcome(self.conds()[i], ctx, false)),
        )
    }

    /// Contexts with providers that give the same values allow the same verdicts.
    pub proof fn lemma_verdict_same<P: ContextProvider>(&self, a: EngineCtx<P>, b: EngineCtx<P>, v: bool)
        requires
            a.same_values(&b),
        ensures
            self.verdict_possible(a, v) ==> self.verdict_possible(b, v),
            self.verdict_under(a) == self.verdict_under(b),
    {
        let n = self.conds().len();
        assert forall|i: int, p: bool| 0 <= i < n implies #[trigger] outcome(self.conds()[i], a, p)
            == outcome(self.conds()[i], b, p) by {
            lemma_outcome_same(self.conds()[i], a, b, p);
        }
        assert(Seq::new(n, |i: int| outcome(self.conds()[i], a, false)) =~= Seq::new(
            n,
            |i: int| outcome(self.conds()[i], b, false),
        ));
        if self.verdict_possible(a, v) && self.is_enabled() {
            let res = choose|res: Seq<bool>|
                res.len() == self.conds().len() && (forall|i: int|
                    0 <= i < res.len() ==> met_by(self.conds()[i], a, #[trigger] res[i])) && v
                    == verdict(self.conds(), res);
            assert forall|i: int| 0 <= i < res.len() implies met_by(self.conds()[i], b, #[trigger] res[i]) by {
                let p = choose|p: bool| res[i] == outcome(self.conds()[i], a, p);
                assert(res[i] == outcome(self.conds()[i], b, p));
            }
        }
    }

    /// The verdict of this group where no variable resolves and no file is found.
    pub open spec fn blank_verdict(&self) -> bool {
        self.is_enabled() && verdict(self.conds(), blank_results(self.conds()))
    }

    /// Builds a group from its expressions: the conditions and rules in order, and
    /// switched on unless the last state among them is off.
    pub fn new(expressions: Vec<Expression>) -> (r: Self)
        ensures
            r.conds() == conditions_of(expressions@),
            r.rule_seq() == rules_of(expressions@),
            r.is_enabled() == enabled_after(expressions@, true),
            r.max_iter() == DEFAULT_MAX_ITERATIONS,
    {
        let mut rest = expressions;
        let mut conditions: Vec<Condition> = Vec::new();
        let mut rules: Vec<Rule> = Vec::new();
        let mut enabled = true;
        while rest.len() > 0
            invariant
                conditions@ + conditions_of(rest@) == conditions_of(expressions@),
                rules@ + rules_of(rest@) == rules_of(expressions@),
                enabled_after(rest@, enabled) == enabled_after(expressions@, true),
            decreases rest@.len(),
        {
            let ghost before = rest@;
            let e = rest.remove(0);
            proof {
                assert(rest@ =~= before.drop_first());
            }
            match e {
                Expression::Condition(c) => {
                    proof {
                        assert(conditions@.push(c) + conditions_of(rest@) =~= conditions@ + (seq![c]
                            + conditions_of(rest@)));
                    }
                    conditions.push(c);
                },
                Expression::Rule(r) => {
                    proof {
                        assert(rules@.push(r) + rules_of(rest@) =~= rules@ + (seq![r] + rules_of(
                            rest@,
                        )));
                    }
                    rules.push(r);
                },
                Expression::State(s) => {
                    enabled = s == State::On;
                },
            }
        }
        proof {
            assert(conditions@ + Seq::<Condition>::empty() =~= conditions@);
            assert(rules@ + Seq::<Rule>::empty() =~= rules@);
        }
        ExprGroup { conditions, rules, enabled, max_iterations: DEFAULT_MAX_ITERATIONS }
    }

    /// Sets the bound on passes over the rules.
    pub fn max_iterations(self, iterations: usize) -> (r: Self)
        ensures
            r.max_iter() == iterations,
            r.conds() == self.conds(),
            r.rule_seq() == self.rule_seq(),
            r.is_enabled() == self.is_enabled(),
    {
        ExprGroup { max_iterations: iterations, ..self }
    }

    /// The conditions of the group, in order.
    pub fn conditions(&self) -> (r: &Vec<Condition>)
        ensures
            r@ == self.conds(),
    {
        &self.conditions
    }

    /// The rules of the group, in order.
    pub fn rules(&self) -> (r: &Vec<Rule>)
        ensures
            r@ == self.rule_seq(),
    {
        &self.rules
    }

    /// Whether the group is switched on.
    pub fn enabled(&self) -> (r: bool)
        ensures
            r == self.is_enabled(),
    {
        self.enabled
    }

    /// Evaluates the conditions of the group: false for a group switched off; else
    /// met where any OR condition is met, or all the others are.
    pub fn match_conditions<P: ContextProvider>(&self, ctx: &mut EngineCtx<P>) -> (r: bool)
        ensures
            self.verdict_possible(*old(ctx), r),
            self.no_file_tests() ==> r == self.verdict_under(*old(ctx)),
            old(ctx).len() == 0 ==> r == self.blank_verdict(),
            final(ctx).same_values(old(ctx)),
            final(ctx).len() == old(ctx).len(),
    {
        let ghost o = *old(ctx);
        proof {
            assert forall|j: int, k: Seq<char>| 0 <= j < o.providers().len() implies #[trigger] o.providers()[j].provides(k)
                == o.providers()[j].provides(k) by {}
        }
        if !self.enabled {
            return false;
        }
        let n = self.conditions.len();
        let mut res: Vec<bool> = Vec::new();
        let mut i: usize = 0;
        while i < n
            invariant
                n == self.conditions@.len(),
                i <= n,
                res@.len() == i,
                ctx.len() == old(ctx).len(),
                o == *old(ctx),
                ctx.same_values(&o),
                forall|j: int| 0 <= j < i ==> met_by(self.conditions@[j], o, #[trigger] res@[j]),
                forall|j: int| 0 <= j < i && !is_file_test(self.conditions@[j]) ==> #[trigger] res@[j]
                    == outcome(self.conditions@[j], o, false),
                old(ctx).len() == 0 ==> forall|j: int|
                    0 <= j < i ==> #[trigger] res@[j] == blank_met(self.conditions@[j]),
            decreases n - i,
        {
            let ghost mid = *ctx;
            let m = self.conditions[i].is_met(ctx);
            proof {
                let c = self.conditions@[i as int];
                let p = choose|p: bool| m == outcome(c, mid, p);
                lemma_outcome_same(c, mid, o, p);
                lemma_outcome_same(c, mid, o, false);
                ctx.lemma_same_values_trans(&mid, &o);
            }
            res.push(m);
            i = i + 1;
        }
        let mut any_or = false;
        let mut all_and = true;
        let mut k: usize = 0;
        while k < n
            invariant
                n == self.conditions@.len(),
                res@.len() == n,
                k <= n,
                any_or == exists|j: int|
                    0 <= j < k && is_or_cond(self.conditions@[j]) && #[trigger] res@[j],
                all_and == forall|j: int|
                    0 <= j < k && !is_or_cond(self.conditions@[j]) ==> #[trigger] res@[j],
            decreases n - k,
        {
            if self.conditions[k].is_or() {
                if res[k] {
                    any_or = true;
                }
            } else {
                if !res[k] {
                    all_and = false;
                }
            }
            k = k + 1;
        }
        let r = any_or || all_and;
        proof {
            assert(r == verdict(self.conds(), res@));
            if self.no_file_tests() {
                assert(res@ =~= Seq::new(self.conds().len(), |i: int| outcome(self.conds()[i], o, false)));
            }
            if old(ctx).len() == 0 {
                assert(res@ =~= blank_results(self.conds()));
            }
        }
        r
    }

    /// Runs the rules of the group over `uri`: the first rule that matches rewrites the
    /// path and its flags decide what follows; the query of `uri` is kept. Fails where
    /// the bound on passes is reached.
    pub fn rewrite(&self, uri: &str) -> (r: Result<Rewrite, EngineError>)
        ensures
            match group_result(self.rule_seq(), uri@, self.max_iter()) {
                None => r is Err,
                Some(v) => r is Ok && r->Ok_0@ == v,
            },
    {
        let (mut path, query) = split_query(uri);
        let ghost rules = self.rules@;
        let ghost max = self.max_iterations as nat;
        let mut next: usize = 0;
        let mut it: usize = 0;
        while it < self.max_iterations
            invariant
                rules == self.rules@,
                max == self.max_iterations,
                it <= max,
                query@ == query_part(uri@),
                run(rules, path_part(uri@), 0, 0, max) == run(rules, path@, next as int, it as nat, max),
            decreases max - it,
        {
            let ghost cur = path@;
            let ghost from = next as int;
            let mut j: usize = if next < self.rules.len() {
                next
            } else {
                self.rules.len()
            };
            let mut found: Option<String> = None;
            while j < self.rules.len() && found.is_none()
                invariant
                    rules == self.rules@,
                    j <= rules.len(),
                    from >= rules.len() ==> j == rules.len(),
                    from < rules.len() ==> from <= j,
                    path@ == cur,
                    found is None ==> first_match(rules, cur, from) == first_match(rules, cur, j as int),
                    found is Some ==> j < rules.len() && first_match(rules, cur, from) == Some(
                        (j as int, found->0@),
                    ),
                decreases rules.len() - j + if found is None {
                    1int
                } else {
                    0int
                },
            {
                match self.rules[j].try_rewrite(path.as_str()) {
                    Some(p) => {
                        found = Some(p);
                    },
                    None => {
                        j = j + 1;
                    },
                }
            }
            let new_path = match found {
                Some(p) => p,
                None => {
                    return Ok(Rewrite::Uri(path).with_query(query.as_str()));
                },
            };
            path = new_path;
            it = it + 1;
            next = j + 1;
            match self.rules[j].shift() {
                Some(RuleShift::Next) => {
                    next = 0;
                },
                Some(RuleShift::Last) => {
                    return Ok(Rewrite::Uri(path).with_query(query.as_str()));
                },
                Some(RuleShift::End) => {
                    return Ok(Rewrite::EndUri(path).with_query(query.as_str()));
                },
                Some(RuleShift::Skip(n)) => {
                    if n as usize > self.rules.len() - next {
                        proof {
                            lemma_run_past_end(rules, path@, self.rules.len() as int, j + 1 + n, it as nat, max);
                        }
                        next = self.rules.len();
                    } else {
                        next = next + n as usize;
                    }
                },
                None => {
                    match self.rules[j].resolve() {
                        Some(RuleResolve::Status(c)) => {
                            return Ok(Rewrite::StatusCode(c));
                        },
                        Some(RuleResolve::Redirect(c)) => {
                            return Ok(Rewrite::Redirect(path, c).with_query(query.as_str()));
                        },
                        None => {},
                    }
                },
            }
        }
        Err(EngineError::TooManyIterations)
    }
}

/// The kind of an expression.
#[derive(Clone, Copy, Debug, PartialEq, Eq, Structural)]
pub enum ExprKind {
    Condition,
    Rule,
    State,
}

/// The kind of an expression value.
pub open spec fn kind_of(e: Expression) -> ExprKind {
    match e {
        Expression::Condition(_) => ExprKind::Condition,
        Expression::Rule(_) => ExprKind::Rule,
        Expression::State(_) => ExprKind::State,
    }
}

/// The kind that a lowercased identifier names.
pub open spec fn ident_kind(l: Seq<char>) -> Option<ExprKind> {
    if l == "rule"@ || l == "rewrite"@ || l == "rewriterule"@ {
        Some(ExprKind::Rule)
    } else if l == "cond"@ || l == "condition"@ || l == "rewritecond"@ {
        Some(ExprKind::Condition)
    } else if l == "state"@ || l == "engine"@ || l == "rewriteengine"@ {
        Some(ExprKind::State)
    } else {
        None
    }
}

/// A line split at its first whitespace into identifier and remainder.
pub open spec fn expr_split(s: Seq<char>) -> Option<(Seq<char>, Seq<char>)> {
    match ws_from(s, 0) {
        None => None,
        Some(i) => Some((s.subrange(0, i), s.subrange(i + 1, s.len() as int))),
    }
}

/// The kind of expression that a line declares, where its identifier is known.
pub open spec fn kind_of_line(s: Seq<char>) -> Option<ExprKind> {
    match expr_split(s) {
        None => None,
        Some((id, _)) => ident_kind(lower_of(id)),
    }
}

/// What an expression declares: its matcher and flags, its pattern, target and
/// flags, or its state.
pub enum ExprSpec {
    Condition(MatchView, Seq<CondFlag>),
    Rule(Seq<char>, Seq<char>, Seq<RuleFlag>),
    State(State),
}

/// What expression `e` declares.
pub open spec fn spec_of(e: Expression) -> ExprSpec {
    match e {
        Expression::Condition(c) => ExprSpec::Condition(c.matcher_view(), c.flags_view()),
        Expression::Rule(r) => ExprSpec::Rule(r.source(), r.target(), r.flag_list()),
        Expression::State(st) => ExprSpec::State(st),
    }
}

/// Whether a rule ignores case exactly where its flags say so.
pub open spec fn consistent(e: Expression) -> bool {
    match e {
        Expression::Rule(r) => r.nocase() == r.flag_list().contains(RuleFlag::Mod(RuleMod::NoCase)),
        _ => true,
    }
}

/// The kind of a declaration.
pub open spec fn spec_kind(d: ExprSpec) -> ExprKind {
    match d {
        ExprSpec::Condition(..) => ExprKind::Condition,
        ExprSpec::Rule(..) => ExprKind::Rule,
        ExprSpec::State(_) => ExprKind::State,
    }
}

/// What the line `s` declares, where it parses.
pub open spec fn line_spec(s: Seq<char>) -> ExprSpec {
    match expr_split(s) {
        Some((id, rest)) => match ident_kind(lower_of(id)) {
            Some(ExprKind::Condition) => ExprSpec::Condition(
                condition_of(rest)->Ok_0.0,
                condition_of(rest)->Ok_0.1,
            ),
            Some(ExprKind::Rule) => ExprSpec::Rule(
                rule_parts(rest)->Ok_0.0,
                rule_parts(rest)->Ok_0.1,
                rule_parts(rest)->Ok_0.2,
            ),
            _ => ExprSpec::State(state_of(rest)->0),
        },
        None => ExprSpec::State(State::On),
    }
}

/// Whether the line `s` parses as an expression (for a rule, its pattern compiles).
pub open spec fn line_parses(s: Seq<char>) -> bool {
    match expr_split(s) {
        None => false,
        Some((id, rest)) => match ident_kind(lower_of(id)) {
            None => false,
            Some(ExprKind::Condition) => condition_of(rest) is Ok,
            Some(ExprKind::State) => state_of(rest) is Some,
            Some(ExprKind::Rule) => rule_ok(rest),
        },
    }
}

/// Whether `e` is the error that the line `s` gives.
pub open spec fn error_fits(e: ExpressionError, s: Seq<char>) -> bool {
    match expr_split(s) {
        None => e is MissingIdentifier,
        Some((id, rest)) => match ident_kind(lower_of(id)) {
            None => e is InvalidIdentifier,
            Some(ExprKind::Condition) => e is ConditionError && (tokens_of(rest) is Some
                ==> e->ConditionError_0@ == condition_of(rest)->Err_0) && (tokens_of(rest) is None
                ==> e->ConditionError_0 is UnclosedQuotation),
            Some(ExprKind::State) => e is InvalidStateRule,
            Some(ExprKind::Rule) => e is RuleError && (rule_parts(rest) is Err ==> e->RuleError_0@
                == rule_parts(rest)->Err_0) && (rule_parts(rest) is Ok
                ==> e->RuleError_0 is InvalidRegex),
        },
    }
}

impl Expression {
    /// Parses one line: an identifier (`RewriteRule`, `RewriteCond`, `RewriteEngine`
    /// or a short form, in any case), whitespace, and the expression.
    pub fn from_str(s: &str) -> (r: Result<Expression, ExpressionError>)
        ensures
            expr_split(s@) is None ==> r is Err && r->Err_0 is MissingIdentifier,
            expr_split(s@) is Some && kind_of_line(s@) is None ==> r is Err && r->Err_0 is InvalidIdentifier,
            r is Ok ==> kind_of_line(s@) == Some(kind_of(r->Ok_0)),
            expr_split(s@) matches Some((_, rest)) ==> {
                &&& kind_of_line(s@) == Some(ExprKind::Condition) ==> (r is Ok <==> condition_of(rest) is Ok)
                &&& kind_of_line(s@) == Some(ExprKind::State) ==> (r is Ok <==> state_of(rest) is Some)
                &&& kind_of_line(s@) == Some(ExprKind::Rule) && rule_parts(rest) is Err ==> r is Err
                &&& r matches Ok(Expression::Condition(c)) ==> (c.matcher_view(), c.flags_view()) == condition_of(rest)->Ok_0
                &&& r matches Ok(Expression::State(st)) ==> st == state_of(rest)->0
                &&& r matches Ok(Expression::Rule(ru)) ==> rule_parts(rest) is Ok && ru.source() == rule_parts(rest)->Ok_0.0
                    && ru.target() == rule_parts(rest)->Ok_0.1 && ru.flag_list() == rule_parts(rest)->Ok_0.2
            },
            r is Ok ==> spec_of(r->Ok_0) == line_spec(s@) && consistent(r->Ok_0),
            r is Ok <==> line_parses(s@),
            r is Err ==> error_fits(r->Err_0, s@),
    {
        let c = chars_of(s);
        let i = match find_ws(&c) {
            Some(i) => i,
            None => return Err(ExpressionError::MissingIdentifier),
        };
        assert(i < c.len());
        let ident = string_of(sub_chars(&c, 0, i).as_slice());
        let rest = string_of(sub_chars(&c, i + 1, c.len()).as_slice());
        let l = chars_of(lowercase(ident.as_str()).as_str());
        if chars_eq(&l, "rule") || chars_eq(&l, "rewrite") || chars_eq(&l, "rewriterule") {
            match Rule::from_str(rest.as_str()) {
                Ok(r) => Ok(Expression::Rule(r)),
                Err(e) => Err(ExpressionError::RuleError(e)),
            }
        } else if chars_eq(&l, "cond") || chars_eq(&l, "condition") || chars_eq(&l, "rewritecond") {
            match Condition::from_str(rest.as_str()) {
                Ok(r) => Ok(Expression::Condition(r)),
                Err(e) => Err(ExpressionError::ConditionError(e)),
            }
        } else if chars_eq(&l, "state") || chars_eq(&l, "engine") || chars_eq(&l, "rewriteengine") {
            match State::from_str(rest.as_str()) {
                Ok(r) => Ok(Expression::State(r)),
                Err(e) => Err(e),
            }
        } else {
            Err(ExpressionError::InvalidIdentifier(String::from_str(s)))
        }
    }
}

/// What a line of rule text is to the grouping.
#[derive(Clone, Copy, Debug, PartialEq, Eq, Structural)]
pub enum LineKind {
    Blank,
    Comment,
    Expr(ExprKind),
    Invalid,
}

/// What the trimmed line `t` is to the grouping: blank, a comment (`//` first), or
/// an expression of some kind.
pub open spec fn line_kind(line: Seq<char>) -> LineKind {
    let t = trimmed(line);
    if starts_with(t, "//"@) {
        LineKind::Comment
    } else if t.len() == 0 {
        LineKind::Blank
    } else {
        match kind_of_line(t) {
            Some(k) => LineKind::Expr(k),
            None => LineKind::Invalid,
        }
    }
}

/// `acc` with `g` added, where `g` is not empty.
pub open spec fn push_group(acc: Seq<Seq<ExprKind>>, g: Seq<ExprKind>) -> Seq<Seq<ExprKind>> {
    if g.len() > 0 {
        acc.push(g)
    } else {
        acc
    }
}

/// Whether an expression of kind `k` closes the group `cur` and starts a new one: a
/// state always does, and so does a condition right after a rule.
pub open spec fn starts_group(cur: Seq<ExprKind>, k: ExprKind) -> bool {
    k == ExprKind::State || (k == ExprKind::Condition && cur.len() > 0 && cur.last() == ExprKind::Rule)
}

/// One step of the grouping: the group being built and the groups closed so far,
/// after one more line.
pub open spec fn group_step(cur: Seq<ExprKind>, acc: Seq<Seq<ExprKind>>, item: LineKind) -> (
    Seq<ExprKind>,
    Seq<Seq<ExprKind>>,
) {
    match item {
        LineKind::Blank => (Seq::empty(), push_group(acc, cur)),
        LineKind::Expr(k) => if starts_group(cur, k) {
            (seq![k], push_group(acc, cur))
        } else {
            (cur.push(k), acc)
        },
        _ => (cur, acc),
    }
}

/// The groups made of the lines `items[i..]`, after `cur` and `acc`.
pub open spec fn group_from(items: Seq<LineKind>, i: int, cur: Seq<ExprKind>, acc: Seq<Seq<ExprKind>>) -> Seq<
    Seq<ExprKind>,
>
    decreases items.len() - i,
{
    if i < 0 || i >= items.len() {
        push_group(acc, cur)
    } else {
        let (c, a) = group_step(cur, acc, items[i]);
        group_from(items, i + 1, c, a)
    }
}

/// What each line of `s` is to the grouping.
pub open spec fn line_kinds(s: Seq<char>) -> Seq<LineKind> {
    Seq::new(split_spec(s, '\n').len(), |i: int| line_kind(split_spec(s, '\n')[i]))
}

/// The kinds of the expressions in each group that the text `s` makes.
pub open spec fn groups_of_text(s: Seq<char>) -> Seq<Seq<ExprKind>> {
    group_from(line_kinds(s), 0, Seq::empty(), Seq::empty())
}

/// The kinds of a group of expressions.
pub open spec fn kinds(g: Seq<Expression>) -> Seq<ExprKind> {
    Seq::new(g.len(), |j: int| kind_of(g[j]))
}

/// The kinds of each group of expressions.
pub open spec fn kinds_list(list: Seq<Vec<Expression>>) -> Seq<Seq<ExprKind>> {
    Seq::new(list.len(), |j: int| kinds(list[j]@))
}

/// The kinds of a group of declarations.
pub open spec fn spec_kinds(g: Seq<ExprSpec>) -> Seq<ExprKind> {
    Seq::new(g.len(), |j: int| spec_kind(g[j]))
}

/// `acc` with `g` added, where `g` is not empty.
pub open spec fn push_spec_group(acc: Seq<Seq<ExprSpec>>, g: Seq<ExprSpec>) -> Seq<Seq<ExprSpec>> {
    if g.len() > 0 {
        acc.push(g)
    } else {
        acc
    }
}

/// The grouping step of [`group_step`], on what the lines declare.
pub open spec fn spec_step(cur: Seq<ExprSpec>, acc: Seq<Seq<ExprSpec>>, line: Seq<char>) -> (
    Seq<ExprSpec>,
    Seq<Seq<ExprSpec>>,
) {
    match line_kind(line) {
        LineKind::Blank => (Seq::empty(), push_spec_group(acc, cur)),
        LineKind::Expr(k) => {
            let d = line_spec(trimmed(line));
            if starts_group(spec_kinds(cur), k) {
                (seq![d], push_spec_group(acc, cur))
            } else {
                (cur.push(d), acc)
            }
        },
        _ => (cur, acc),
    }
}

/// The groups of declarations made of the lines `lines[i..]`, after `cur` and `acc`.
pub open spec fn spec_group_from(
    lines: Seq<Seq<char>>,
    i: int,
    cur: Seq<ExprSpec>,
    acc: Seq<Seq<ExprSpec>>,
) -> Seq<Seq<ExprSpec>>
    decreases lines.len() - i,
{
    if i < 0 || i >= lines.len() {
        push_spec_group(acc, cur)
    } else {
        let (c, a) = spec_step(cur, acc, lines[i]);
        spec_group_from(lines, i + 1, c, a)
    }
}

/// The groups of declarations that the text `s` makes.
pub open spec fn spec_groups(s: Seq<char>) -> Seq<Seq<ExprSpec>> {
    spec_group_from(split_spec(s, '\n'), 0, Seq::empty(), Seq::empty())
}

/// What each expression of a group declares.
pub open spec fn specs(g: Seq<Expression>) -> Seq<ExprSpec> {
    Seq::new(g.len(), |j: int| spec_of(g[j]))
}

/// What each expression of each group declares.
pub open spec fn specs_list(l: Seq<Vec<Expression>>) -> Seq<Seq<ExprSpec>> {
    Seq::new(l.len(), |j: int| specs(l[j]@))
}

/// The conditions that a group of declarations declares.
pub open spec fn cond_specs(g: Seq<ExprSpec>) -> Seq<(MatchView, Seq<CondFlag>)>
    decreases g.len(),
{
    if g.len() == 0 {
        Seq::empty()
    } else {
        match g[0] {
            ExprSpec::Condition(m, fs) => seq![(m, fs)] + cond_specs(g.drop_first()),
            _ => cond_specs(g.drop_first()),
        }
    }
}

/// The rules that a group of declarations declares.
pub open spec fn rule_specs(g: Seq<ExprSpec>) -> Seq<(Seq<char>, Seq<char>, Seq<RuleFlag>)>
    decreases g.len(),
{
    if g.len() == 0 {
        Seq::empty()
    } else {
        match g[0] {
            ExprSpec::Rule(p, t, fs) => seq![(p, t, fs)] + rule_specs(g.drop_first()),
            _ => rule_specs(g.drop_first()),
        }
    }
}

/// Whether the last state that a group declares is on; `cur` where there is none.
pub open spec fn spec_enabled(g: Seq<ExprSpec>, cur: bool) -> bool
    decreases g.len(),
{
    if g.len() == 0 {
        cur
    } else {
        match g[0] {
            ExprSpec::State(st) => spec_enabled(g.drop_first(), st == State::On),
            _ => spec_enabled(g.drop_first(), cur),
        }
    }
}

/// What the conditions of a sequence declare.
pub open spec fn cond_views(cs: Seq<Condition>) -> Seq<(MatchView, Seq<CondFlag>)> {
    Seq::new(cs.len(), |k: int| (cs[k].matcher_view(), cs[k].flags_view()))
}

/// What the rules of a sequence declare.
pub open spec fn rule_views(rs: Seq<Rule>) -> Seq<(Seq<char>, Seq<char>, Seq<RuleFlag>)> {
    Seq::new(rs.len(), |k: int| (rs[k].source(), rs[k].target(), rs[k].flag_list()))
}

/// The conditions, rules and state of a group follow from what its expressions
/// declare.
pub proof fn lemma_group_views(es: Seq<Expression>, cur: bool)
    requires
        forall|k: int| 0 <= k < es.len() ==> consistent(#[trigger] es[k]),
    ensures
        cond_views(conditions_of(es)) == cond_specs(specs(es)),
        rule_views(rules_of(es)) == rule_specs(specs(es)),
        forall|k: int| 0 <= k < rules_of(es).len() ==> consistent(Expression::Rule(#[trigger] rules_of(es)[k])),
        enabled_after(es, cur) == spec_enabled(specs(es), cur),
    decreases es.len(),
{
    if es.len() > 0 {
        let rest = es.drop_first();
        assert(specs(es).drop_first() =~= specs(rest));
        assert forall|k: int| 0 <= k < rest.len() implies consistent(#[trigger] rest[k]) by {
            assert(rest[k] == es[k + 1]);
        }
        lemma_group_views(rest, cur);
        match es[0] {
            Expression::Condition(c) => {
                assert(cond_views(conditions_of(es)) =~= seq![(c.matcher_view(), c.flags_view())] + cond_views(conditions_of(rest)));
                assert(rule_views(rules_of(es)) =~= rule_views(rules_of(rest)));
            },
            Expression::Rule(r) => {
                assert(consistent(es[0]));
                assert(rule_views(rules_of(es)) =~= seq![(r.source(), r.target(), r.flag_list())] + rule_views(rules_of(rest)));
                assert(cond_views(conditions_of(es)) =~= cond_views(conditions_of(rest)));
                assert forall|k: int| 0 <= k < rules_of(es).len() implies consistent(Expression::Rule(#[trigger] rules_of(es)[k])) by {
                    if k > 0 {
                        assert(rules_of(es)[k] == rules_of(rest)[k - 1]);
                    }
                }
            },
            Expression::State(st) => {
                lemma_group_views(rest, st == State::On);
                assert(cond_views(conditions_of(es)) =~= cond_views(conditions_of(rest)));
                assert(rule_views(rules_of(es)) =~= rule_views(rules_of(rest)));
            },
        }
    }
}

/// How many of `ks` are of kind `k`.
pub open spec fn count_kind(ks: Seq<ExprKind>, k: ExprKind) -> nat
    decreases ks.len(),
{
    if ks.len() == 0 {
        0
    } else {
        (if ks[0] == k {
            1nat
        } else {
            0nat
        }) + count_kind(ks.drop_first(), k)
    }
}

/// A group has as many conditions and rules as its expressions have of each kind.
pub proof fn lemma_kind_counts(es: Seq<Expression>)
    ensures
        conditions_of(es).len() == count_kind(kinds(es), ExprKind::Condition),
        rules_of(es).len() == count_kind(kinds(es), ExprKind::Rule),
    decreases es.len(),
{
    if es.len() > 0 {
        assert(kinds(es).drop_first() =~= kinds(es.drop_first()));
        lemma_kind_counts(es.drop_first());
    }
}

/// Whether a line of rule text is blank, a comment, or an expression that parses.
pub open spec fn line_ok(line: Seq<char>) -> bool {
    match line_kind(line) {
        LineKind::Blank | LineKind::Comment => true,
        _ => line_parses(trimmed(line)),
    }
}

/// Whether every line of the text `s` is blank, a comment, or parses.
pub open spec fn text_ok(s: Seq<char>) -> bool {
    forall|i: int| 0 <= i < split_spec(s, '\n').len() ==> line_ok(#[trigger] split_spec(s, '\n')[i])
}

/// Whether `e` is the error of the first line of `s` that does not parse.
pub open spec fn first_error(s: Seq<char>, e: ExpressionError) -> bool {
    exists|i: int|
        0 <= i < split_spec(s, '\n').len() && !line_ok(#[trigger] split_spec(s, '\n')[i]) && (forall|
            j: int,
        | 0 <= j < i ==> line_ok(#[trigger] split_spec(s, '\n')[j])) && error_fits(
            e,
            trimmed(split_spec(s, '\n')[i]),
        )
}

/// Rule text parsed into groups of expressions.
#[derive(Debug)]
pub struct ExpressionList(pub Vec<Vec<Expression>>);

impl ExpressionList {
    /// Parses rule text: one expression per line; `//` starts a comment line; a blank
    /// line, a state, or a condition right after a rule starts a new group.
    pub fn from_str(s: &str) -> (r: Result<ExpressionList, ExpressionError>)
        ensures
            r is Ok ==> kinds_list(r->Ok_0.0@) == groups_of_text(s@),
            r is Ok ==> specs_list(r->Ok_0.0@) == spec_groups(s@),
            r is Ok <==> text_ok(s@),
            r is Err ==> first_error(s@, r->Err_0),
            r is Ok ==> forall|i: int, k: int|
                0 <= i < r->Ok_0.0@.len() && 0 <= k < r->Ok_0.0@[i]@.len() ==> consistent(
                    #[trigger] r->Ok_0.0@[i]@[k],
                ),
            r is Ok ==> forall|i: int| 0 <= i < line_kinds(s@).len() ==> line_kinds(s@)[i] != LineKind::Invalid,
    {
        let lines = split_chars(&chars_of(s), '\n');
        let ghost items = line_kinds(s@);
        let mut list: Vec<Vec<Expression>> = Vec::new();
        let mut group: Vec<Expression> = Vec::new();
        let mut i: usize = 0;
        proof {
            assert(kinds_list(list@) =~= Seq::<Seq<ExprKind>>::empty());
            assert(kinds(group@) =~= Seq::<ExprKind>::empty());
            assert(specs_list(list@) =~= Seq::<Seq<ExprSpec>>::empty());
            assert(specs(group@) =~= Seq::<ExprSpec>::empty());
        }
        while i < lines.len()
            invariant
                items == line_kinds(s@),
                char_views(lines@) == split_spec(s@, '\n'),
                items.len() == lines@.len(),
                i <= lines@.len(),
                groups_of_text(s@) == group_from(items, i as int, kinds(group@), kinds_list(list@)),
                spec_groups(s@) == spec_group_from(char_views(lines@), i as int, specs(group@), specs_list(list@)),
                forall|a: int, k: int|
                    0 <= a < list@.len() && 0 <= k < list@[a]@.len() ==> consistent(#[trigger] list@[a]@[k]),
                forall|k: int| 0 <= k < group@.len() ==> consistent(#[trigger] group@[k]),
                forall|j: int| 0 <= j < i ==> items[j] != LineKind::Invalid,
                forall|j: int| 0 <= j < i ==> line_ok(#[trigger] split_spec(s@, '\n')[j]),
            decreases lines@.len() - i,
        {
            let t = trim(&lines[i]);
            let ghost it = items[i as int];
            proof {
                assert(lines@[i as int]@ == split_spec(s@, '\n')[i as int]);
                assert(it == line_kind(lines@[i as int]@));
            }
            let comment = t.len() >= 2 && t[0] == '/' && t[1] == '/';
            proof {
                reveal_strlit("//");
                if comment {
                    assert(t@.subrange(0, 2) =~= "//"@);
                } else if t@.len() >= 2 {
                    assert(t@.subrange(0, 2)[0] == t@[0]);
                    assert(t@.subrange(0, 2)[1] == t@[1]);
                }
            }
            if comment {
            } else if t.len() == 0 {
                if group.len() > 0 {
                    let ghost before = list@;
                    let g = group;
                    list.push(g);
                    proof {
                        assert(kinds_list(list@) =~= kinds_list(before).push(kinds(g@)));
                        assert(specs_list(list@) =~= specs_list(before).push(specs(g@)));
                    }
                } else {
                    proof {
                        assert(kinds(group@).len() == 0);
                    }
                }
                group = Vec::new();
                proof {
                    assert(kinds(group@) =~= Seq::<ExprKind>::empty());
                    assert(specs(group@) =~= Seq::<ExprSpec>::empty());
                }
            } else {
                let e = match Expression::from_str(string_of(t.as_slice()).as_str()) {
                    Ok(e) => e,
                    Err(err) => {
                        proof {
                            let line = split_spec(s@, '\n')[i as int];
                            assert(line == char_views(lines@)[i as int]);
                            assert(!line_ok(line));
                            assert(first_error(s@, err));
                        }
                        return Err(err);
                    },
                };
                let ghost k = kind_of(e);
                let starts = match e {
                    Expression::State(_) => true,
                    Expression::Condition(_) => group.len() > 0 && match group[group.len() - 1] {
                        Expression::Rule(_) => true,
                        _ => false,
                    },
                    _ => false,
                };
                proof {
                    if group@.len() > 0 {
                        assert(kinds(group@).last() == kind_of(group@[group@.len() - 1]));
                    }
                    assert(starts == starts_group(kinds(group@), k));
                    assert(spec_kinds(specs(group@)) =~= kinds(group@));
                    assert(t@ == trimmed(char_views(lines@)[i as int]));
                }
                if starts {
                    if group.len() > 0 {
                        let ghost before = list@;
                        let g = group;
                        list.push(g);
                        proof {
                            assert(kinds_list(list@) =~= kinds_list(before).push(kinds(g@)));
                            assert(specs_list(list@) =~= specs_list(before).push(specs(g@)));
                        }
                    } else {
                        proof {
                            assert(kinds(group@).len() == 0);
                        }
                    }
                    group = Vec::new();
                    group.push(e);
                    proof {
                        assert(kinds(group@) =~= seq![k]);
                        assert(specs(group@) =~= seq![spec_of(e)]);
                    }
                } else {
                    let ghost before = group@;
                    group.push(e);
                    proof {
                        assert(kinds(group@) =~= kinds(before).push(k));
                        assert(specs(group@) =~= specs(before).push(spec_of(e)));
                    }
                }
            }
            i = i + 1;
        }
        if group.len() > 0 {
            let ghost before = list@;
            let g = group;
            list.push(g);
            proof {
                assert(kinds_list(list@) =~= kinds_list(before).push(kinds(g@)));
                assert(specs_list(list@) =~= specs_list(before).push(specs(g@)));
            }
        }
        proof {
            assert(text_ok(s@));
        }
        Ok(ExpressionList(list))
    }

    /// Builds the groups.
    pub fn groups(self) -> (r: Vec<ExprGroup>)
        ensures
            r@.len() == self.0@.len(),
            forall|i: int| 0 <= i < r@.len() ==> {
                &&& (#[trigger] r@[i]).conds() == conditions_of(self.0@[i]@)
                &&& r@[i].rule_seq() == rules_of(self.0@[i]@)
                &&& r@[i].is_enabled() == enabled_after(self.0@[i]@, true)
                &&& r@[i].max_iter() == DEFAULT_MAX_ITERATIONS
            },
    {
        let ExpressionList(mut list) = self;
        let ghost orig = list@;
        let mut out: Vec<ExprGroup> = Vec::new();
        while list.len() > 0
            invariant
                out@.len() + list@.len() == orig.len(),
                list@ == orig.subrange(out@.len() as int, orig.len() as int),
                forall|i: int| 0 <= i < out@.len() ==> {
                    &&& (#[trigger] out@[i]).conds() == conditions_of(orig[i]@)
                    &&& out@[i].rule_seq() == rules_of(orig[i]@)
                    &&& out@[i].is_enabled() == enabled_after(orig[i]@, true)
                    &&& out@[i].max_iter() == DEFAULT_MAX_ITERATIONS
                },
            decreases list@.len(),
        {
            let g = list.remove(0);
            proof {
                assert(g == orig[out@.len() as int]);
            }
            out.push(ExprGroup::new(g));
            proof {
                assert(list@ =~= orig.subrange(out@.len() as int, orig.len() as int));
            }
        }
        out
    }
}

} // verus!
