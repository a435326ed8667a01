//! Laws of the engine: properties over all inputs, proved from the contracts of
//! the parsers and of the evaluation.
use vstd::prelude::*;

use crate::condition::Condition;
use crate::expr::{
    first_match, group_from, group_result, group_step, is_or_cond, push_group, run,
    starts_group, verdict, ExprGroup, ExprKind, LineKind,
};
use crate::parse::{bracketed, flag_items};
use crate::rule::{exclusive_count, rule_flag_list, rule_flags, Rule, RuleFlag, RuleShift};
use crate::{declared_group, engine_from, engine_result, Engine};
use crate::expr::{cond_views, rule_views, spec_groups, spec_group_from, spec_step, push_spec_group, ExprSpec, line_ok, text_ok, line_kind};
use crate::text::{split_from, split_spec};

verus! {

/// A blank line closes the group being built, and the next expression starts a new
/// one.
pub proof fn law_blank_line_closes_group(cur: Seq<ExprKind>, acc: Seq<Seq<ExprKind>>)
    ensures
        group_step(cur, acc, LineKind::Blank) == (Seq::<ExprKind>::empty(), push_group(acc, cur)),
{
}

/// A `RewriteEngine` line always starts a new group, of which it is the first member.
pub proof fn law_state_starts_group(cur: Seq<ExprKind>, acc: Seq<Seq<ExprKind>>)
    ensures
        group_step(cur, acc, LineKind::Expr(ExprKind::State)) == (
            seq![ExprKind::State],
            push_group(acc, cur),
        ),
{
}

/// A condition right after a rule starts a new group.
pub proof fn law_condition_after_rule_starts_group(cur: Seq<ExprKind>, acc: Seq<Seq<ExprKind>>)
    requires
        cur.len() > 0,
        cur.last() == ExprKind::Rule,
    ensures
        group_step(cur, acc, LineKind::Expr(ExprKind::Condition)) == (
            seq![ExprKind::Condition],
            push_group(acc, cur),
        ),
{
}

/// Whether a group of kinds is well formed: not empty, a state only first, and no
/// condition right after a rule.
pub open spec fn well_grouped(g: Seq<ExprKind>) -> bool {
    &&& g.len() > 0
    &&& forall|j: int| 0 < j < g.len() ==> #[trigger] g[j] != ExprKind::State
    &&& forall|j: int|
        0 < j < g.len() ==> !(#[trigger] g[j] == ExprKind::Condition && g[j - 1] == ExprKind::Rule)
}

/// Whether every group of `acc` is well formed.
pub open spec fn all_well_grouped(acc: Seq<Seq<ExprKind>>) -> bool {
    forall|k: int| 0 <= k < acc.len() ==> well_grouped(#[trigger] acc[k])
}

proof fn lemma_push_group(acc: Seq<Seq<ExprKind>>, cur: Seq<ExprKind>)
    requires
        all_well_grouped(acc),
        cur.len() == 0 || well_grouped(cur),
    ensures
        all_well_grouped(push_group(acc, cur)),
{
    if cur.len() > 0 {
        assert forall|k: int| 0 <= k < acc.push(cur).len() implies well_grouped(#[trigger] acc.push(cur)[k]) by {
            if k < acc.len() {
                assert(acc.push(cur)[k] == acc[k]);
            }
        }
    }
}

proof fn lemma_extend_group(cur: Seq<ExprKind>, k: ExprKind)
    requires
        cur.len() == 0 || well_grouped(cur),
        !starts_group(cur, k),
    ensures
        well_grouped(cur.push(k)),
{
    let c = cur.push(k);
    assert forall|j: int| 0 < j < c.len() implies #[trigger] c[j] != ExprKind::State by {
        if j < cur.len() {
            assert(c[j] == cur[j]);
        }
    }
    assert forall|j: int| 0 < j < c.len() implies !(#[trigger] c[j] == ExprKind::Condition && c[j
        - 1] == ExprKind::Rule) by {
        if j < cur.len() {
            assert(c[j] == cur[j]);
            assert(c[j - 1] == cur[j - 1]);
        } else {
            assert(c[j - 1] == cur.last());
        }
    }
}

proof fn lemma_group_step(cur: Seq<ExprKind>, acc: Seq<Seq<ExprKind>>, item: LineKind)
    requires
        all_well_grouped(acc),
        cur.len() == 0 || well_grouped(cur),
    ensures
        all_well_grouped(group_step(cur, acc, item).1),
        group_step(cur, acc, item).0.len() == 0 || well_grouped(group_step(cur, acc, item).0),
{
    lemma_push_group(acc, cur);
    match item {
        LineKind::Expr(k) => {
            if !starts_group(cur, k) {
                lemma_extend_group(cur, k);
            } else {
                assert(well_grouped(seq![k]));
            }
        },
        _ => {},
    }
}

proof fn lemma_group_from_well_grouped(
    items: Seq<LineKind>,
    i: int,
    cur: Seq<ExprKind>,
    acc: Seq<Seq<ExprKind>>,
)
    requires
        all_well_grouped(acc),
        cur.len() == 0 || well_grouped(cur),
    ensures
        all_well_grouped(group_from(items, i, cur, acc)),
    decreases items.len() - i,
{
    if i < 0 || i >= items.len() {
        lemma_push_group(acc, cur);
    } else {
        lemma_group_step(cur, acc, items[i]);
        let (c, a) = group_step(cur, acc, items[i]);
        lemma_group_from_well_grouped(items, i + 1, c, a);
    }
}

/// Every group that grouping makes is well formed: not empty, with a state only as
/// its first member, and no condition right after a rule.
pub proof fn law_groups_well_formed(items: Seq<LineKind>)
    ensures
        all_well_grouped(group_from(items, 0, Seq::empty(), Seq::empty())),
{
    lemma_group_from_well_grouped(items, 0, Seq::empty(), Seq::empty());
}

/// A group whose non-OR conditions are all met is met, whatever its OR conditions
/// give.
pub proof fn law_and_conditions_suffice(conds: Seq<Condition>, res: Seq<bool>)
    requires
        res.len() == conds.len(),
        forall|i: int| 0 <= i < conds.len() && !is_or_cond(conds[i]) ==> #[trigger] res[i],
    ensures
        verdict(conds, res),
{
}

/// A group with one OR condition met is met, whatever its other conditions give.
pub proof fn law_or_condition_suffices(conds: Seq<Condition>, res: Seq<bool>, i: int)
    requires
        res.len() == conds.len(),
        0 <= i < conds.len(),
        is_or_cond(conds[i]),
        res[i],
    ensures
        verdict(conds, res),
{
}

/// A group is not met where no OR condition is met and some other condition is not.
pub proof fn law_group_unmet(conds: Seq<Condition>, res: Seq<bool>, i: int)
    requires
        res.len() == conds.len(),
        0 <= i < conds.len(),
        !is_or_cond(conds[i]),
        !res[i],
        forall|j: int| 0 <= j < conds.len() && is_or_cond(conds[j]) ==> !#[trigger] res[j],
    ensures
        !verdict(conds, res),
{
}

proof fn lemma_exclusive_count_at_least(fs: Seq<RuleFlag>, i: int, j: int)
    requires
        0 <= i < fs.len(),
        0 <= j < fs.len(),
        i != j,
        !(fs[i] is Mod),
        !(fs[j] is Mod),
    ensures
        exclusive_count(fs) >= 2,
    decreases fs.len(),
{
    let n = fs.len() - 1;
    if i == n || j == n {
        let other = if i == n { j } else { i };
        lemma_exclusive_count_one(fs.drop_last(), other);
    } else {
        lemma_exclusive_count_at_least(fs.drop_last(), i, j);
    }
}

proof fn lemma_exclusive_count_one(fs: Seq<RuleFlag>, i: int)
    requires
        0 <= i < fs.len(),
        !(fs[i] is Mod),
    ensures
        exclusive_count(fs) >= 1,
    decreases fs.len(),
{
    if i < fs.len() - 1 {
        lemma_exclusive_count_one(fs.drop_last(), i);
    }
}

/// A flag list that declares both a shift flag (`L`, `N`, `E`, `S`) and a resolve flag
/// (`R`, `F`, `G`, a status) is refused as mutually exclusive.
pub proof fn law_shift_and_resolve_exclusive(s: Seq<char>, i: int, j: int)
    requires
        bracketed(s),
        rule_flags(flag_items(s)) is Ok,
        0 <= i < rule_flags(flag_items(s))->Ok_0.len(),
        0 <= j < rule_flags(flag_items(s))->Ok_0.len(),
        rule_flags(flag_items(s))->Ok_0[i] is Shift,
        rule_flags(flag_items(s))->Ok_0[j] is Resolve,
    ensures
        rule_flag_list(s) == Err::<Seq<RuleFlag>, crate::rule::RuleFault>(
            crate::rule::RuleFault::FlagsMutuallyExclusive,
        ),
{
    lemma_exclusive_count_at_least(rule_flags(flag_items(s))->Ok_0, i, j);
}

/// The position of the first rule that matches `p`.
pub open spec fn match_index(rules: Seq<Rule>, p: Seq<char>) -> int {
    match first_match(rules, p, 0) {
        Some((j, _)) => j,
        None => 0,
    }
}

/// Rules under which every path matches a rule flagged `N` loop until the bound on
/// passes is reached, and the group fails.
pub proof fn law_endless_next_fails(rules: Seq<Rule>, path: Seq<char>, it: nat, max: nat)
    requires
        forall|p: Seq<char>|
            #[trigger] first_match(rules, p, 0) is Some && first_shift_of(rules, p) == Some(
                RuleShift::Next,
            ),
    ensures
        run(rules, path, 0, it, max) is None,
    decreases max - it,
{
    if it < max {
        assert(first_match(rules, path, 0) is Some);
        match first_match(rules, path, 0) {
            Some((_, q)) => law_endless_next_fails(rules, q, it + 1, max),
            None => {},
        }
    }
}

/// A matching rule flagged `L` ends the scan with its rewrite as the result.
pub proof fn law_last_stops(rules: Seq<Rule>, path: Seq<char>, next: int, it: nat, max: nat, j: int, p: Seq<char>)
    requires
        it < max,
        first_match(rules, path, next) == Some((j, p)),
        crate::rule::first_shift(rules[j].flag_list()) == Some(RuleShift::Last),
    ensures
        run(rules, path, next, it, max) == Some(crate::expr::RewriteView::Uri(p)),
{
}

/// A matching rule flagged `E` ends the scan with its rewrite as a final result.
pub proof fn law_end_finishes(rules: Seq<Rule>, path: Seq<char>, next: int, it: nat, max: nat, j: int, p: Seq<char>)
    requires
        it < max,
        first_match(rules, path, next) == Some((j, p)),
        crate::rule::first_shift(rules[j].flag_list()) == Some(RuleShift::End),
    ensures
        run(rules, path, next, it, max) == Some(crate::expr::RewriteView::EndUri(p)),
{
}

/// A matching rule flagged `S=n` goes on with the rewrite, `n` rules further on,
/// in a new pass.
pub proof fn law_skip_jumps(rules: Seq<Rule>, path: Seq<char>, next: int, it: nat, max: nat, j: int, p: Seq<char>, n: u16)
    requires
        it < max,
        first_match(rules, path, next) == Some((j, p)),
        crate::rule::first_shift(rules[j].flag_list()) == Some(RuleShift::Skip(n)),
    ensures
        run(rules, path, next, it, max) == run(rules, p, j + 1 + n, it + 1, max),
{
}

/// A matching rule flagged `N` goes on with the rewrite from the first rule, in a new
/// pass.
pub proof fn law_next_restarts(rules: Seq<Rule>, path: Seq<char>, next: int, it: nat, max: nat, j: int, p: Seq<char>)
    requires
        it < max,
        first_match(rules, path, next) == Some((j, p)),
        crate::rule::first_shift(rules[j].flag_list()) == Some(RuleShift::Next),
    ensures
        run(rules, path, next, it, max) == run(rules, p, 0, it + 1, max),
{
}

/// Once the passes run out, the scan fails.
pub proof fn law_bound_reached_fails(rules: Seq<Rule>, path: Seq<char>, next: int, it: nat, max: nat)
    requires
        it >= max,
    ensures
        run(rules, path, next, it, max) is None,
{
}

/// The shift flag of the first rule that matches `p`.
pub open spec fn first_shift_of(rules: Seq<Rule>, p: Seq<char>) -> Option<RuleShift> {
    crate::rule::first_shift(rules[match_index(rules, p)].flag_list())
}

/// Whether two rules are the same rule: same pattern, case setting, target and flags,
/// as parsing one text twice gives.
pub open spec fn same_rule(a: Rule, b: Rule) -> bool {
    a.source() == b.source() && a.nocase() == b.nocase() && a.target() == b.target()
        && a.flag_list() == b.flag_list()
}

/// Whether two conditions are the same condition.
pub open spec fn same_condition(a: Condition, b: Condition) -> bool {
    a.matcher_view() == b.matcher_view() && a.flags_view() == b.flags_view()
}

/// Whether two groups hold the same conditions and rules, in the same state.
pub open spec fn same_group(a: ExprGroup, b: ExprGroup) -> bool {
    &&& a.is_enabled() == b.is_enabled()
    &&& a.max_iter() == b.max_iter()
    &&& a.conds().len() == b.conds().len()
    &&& forall|i: int| 0 <= i < a.conds().len() ==> same_condition(#[trigger] a.conds()[i], b.conds()[i])
    &&& a.rule_seq().len() == b.rule_seq().len()
    &&& forall|i: int| 0 <= i < a.rule_seq().len() ==> same_rule(#[trigger] a.rule_seq()[i], b.rule_seq()[i])
}

/// Whether two engines hold the same groups.
pub open spec fn same_engine(a: Engine, b: Engine) -> bool {
    a.group_seq().len() == b.group_seq().len() && forall|i: int|
        0 <= i < a.group_seq().len() ==> same_group(#[trigger] a.group_seq()[i], b.group_seq()[i])
}

proof fn lemma_first_match_same(r1: Seq<Rule>, r2: Seq<Rule>, p: Seq<char>, k: int)
    requires
        r1.len() == r2.len(),
        forall|i: int| 0 <= i < r1.len() ==> same_rule(#[trigger] r1[i], r2[i]),
    ensures
        first_match(r1, p, k) == first_match(r2, p, k),
    decreases r1.len() - k,
{
    if 0 <= k < r1.len() {
        assert(same_rule(r1[k], r2[k]));
        lemma_first_match_same(r1, r2, p, k + 1);
    }
}

proof fn lemma_run_same(r1: Seq<Rule>, r2: Seq<Rule>, p: Seq<char>, next: int, it: nat, max: nat)
    requires
        r1.len() == r2.len(),
        forall|i: int| 0 <= i < r1.len() ==> same_rule(#[trigger] r1[i], r2[i]),
    ensures
        run(r1, p, next, it, max) == run(r2, p, next, it, max),
    decreases max - it,
{
    if it < max {
        lemma_first_match_same(r1, r2, p, next);
        match first_match(r1, p, next) {
            Some((j, q)) => {
                lemma_first_match_bounds(r1, p, next);
                assert(same_rule(r1[j], r2[j]));
                lemma_run_same(r1, r2, q, 0, it + 1, max);
                lemma_run_same(r1, r2, q, j + 1, it + 1, max);
                match crate::rule::first_shift(r1[j].flag_list()) {
                    Some(RuleShift::Skip(n)) => {
                        lemma_run_same(r1, r2, q, j + 1 + n, it + 1, max);
                    },
                    _ => {},
                }
            },
            None => {},
        }
    }
}

proof fn lemma_first_match_bounds(rules: Seq<Rule>, p: Seq<char>, k: int)
    ensures
        match first_match(rules, p, k) {
            Some((j, _)) => 0 <= j < rules.len(),
            None => true,
        },
    decreases rules.len() - k,
{
    if 0 <= k < rules.len() {
        lemma_first_match_bounds(rules, p, k + 1);
    }
}

proof fn lemma_engine_from_same(
    g1: Seq<ExprGroup>,
    g2: Seq<ExprGroup>,
    v: Seq<bool>,
    i: int,
    p: Seq<char>,
)
    requires
        g1.len() == g2.len(),
        forall|k: int| 0 <= k < g1.len() ==> same_group(#[trigger] g1[k], g2[k]),
    ensures
        engine_from(g1, v, i, p) == engine_from(g2, v, i, p),
    decreases g1.len() - i,
{
    if 0 <= i < g1.len() {
        assert(same_group(g1[i], g2[i]));
        lemma_run_same(g1[i].rule_seq(), g2[i].rule_seq(), crate::extra::path_part(p), 0, 0, g1[i].max_iter());
        assert(group_result(g1[i].rule_seq(), p, g1[i].max_iter()) == group_result(
            g2[i].rule_seq(),
            p,
            g2[i].max_iter(),
        ));
        lemma_engine_from_same(g1, g2, v, i + 1, p);
        match group_result(g1[i].rule_seq(), p, g1[i].max_iter()) {
            Some(crate::expr::RewriteView::Uri(q)) => {
                lemma_engine_from_same(g1, g2, v, i + 1, q);
            },
            _ => {},
        }
    }
}

/// Engines that hold the same rules and conditions, as parsing one rule text twice
/// gives, rewrite every URI alike, for every verdict of their conditions; and without
/// variables their conditions give the same verdicts.
pub proof fn law_same_rules_same_rewrite(a: Engine, b: Engine, verdicts: Seq<bool>, uri: Seq<char>)
    requires
        same_engine(a, b),
    ensures
        engine_result(a.group_seq(), verdicts, uri) == engine_result(b.group_seq(), verdicts, uri),
        a.blank_verdicts() == b.blank_verdicts(),
{
    lemma_engine_from_same(a.group_seq(), b.group_seq(), verdicts, 0, crate::extra::path_part(uri));
    assert forall|i: int| 0 <= i < a.group_seq().len() implies #[trigger] a.blank_verdicts()[i]
        == b.blank_verdicts()[i] by {
        let ga = a.group_seq()[i];
        let gb = b.group_seq()[i];
        assert(same_group(ga, gb));
        assert(crate::expr::blank_results(ga.conds()) =~= crate::expr::blank_results(gb.conds()))
            by {
            assert forall|k: int| 0 <= k < ga.conds().len() implies #[trigger] crate::condition::blank_met(
                ga.conds()[k],
            ) == crate::condition::blank_met(gb.conds()[k]) by {
                assert(same_condition(ga.conds()[k], gb.conds()[k]));
            }
        }
        assert forall|k: int| 0 <= k < ga.conds().len() implies #[trigger] is_or_cond(ga.conds()[k])
            == is_or_cond(gb.conds()[k]) by {
            assert(same_condition(ga.conds()[k], gb.conds()[k]));
        }
        assert(verdict(ga.conds(), crate::expr::blank_results(ga.conds())) == verdict(
            gb.conds(),
            crate::expr::blank_results(gb.conds()),
        ));
    }
    assert(a.blank_verdicts() =~= b.blank_verdicts());
}

/// Groups made from the same declarations hold the same conditions and rules.
proof fn lemma_declared_same(a: ExprGroup, b: ExprGroup, d: Seq<crate::expr::ExprSpec>)
    requires
        declared_group(a, d),
        declared_group(b, d),
    ensures
        same_group(a, b),
{
    assert(cond_views(a.conds()).len() == cond_views(b.conds()).len());
    assert forall|i: int| 0 <= i < a.conds().len() implies same_condition(#[trigger] a.conds()[i], b.conds()[i]) by {
        assert(cond_views(a.conds())[i] == cond_views(b.conds())[i]);
    }
    assert(rule_views(a.rule_seq()).len() == rule_views(b.rule_seq()).len());
    assert forall|i: int| 0 <= i < a.rule_seq().len() implies same_rule(#[trigger] a.rule_seq()[i], b.rule_seq()[i]) by {
        assert(rule_views(a.rule_seq())[i] == rule_views(b.rule_seq())[i]);
        assert(crate::expr::consistent(crate::expr::Expression::Rule(a.rule_seq()[i])));
        assert(crate::expr::consistent(crate::expr::Expression::Rule(b.rule_seq()[i])));
    }
}

/// Two engines parsed from the same rule text hold the same rules and conditions, and
/// so give the same result for every URI: the same rewrite for every verdict of their
/// conditions, and the same verdicts where no variable resolves.
pub proof fn law_same_text_same_rewrite(
    a: Engine,
    b: Engine,
    s: Seq<char>,
    verdicts: Seq<bool>,
    uri: Seq<char>,
)
    requires
        a.group_seq().len() == spec_groups(s).len(),
        b.group_seq().len() == spec_groups(s).len(),
        forall|i: int| 0 <= i < spec_groups(s).len() ==> declared_group(#[trigger] a.group_seq()[i], spec_groups(s)[i]),
        forall|i: int| 0 <= i < spec_groups(s).len() ==> declared_group(#[trigger] b.group_seq()[i], spec_groups(s)[i]),
    ensures
        same_engine(a, b),
        engine_result(a.group_seq(), verdicts, uri) == engine_result(b.group_seq(), verdicts, uri),
        a.blank_verdicts() == b.blank_verdicts(),
{
    assert forall|i: int| 0 <= i < a.group_seq().len() implies same_group(#[trigger] a.group_seq()[i], b.group_seq()[i]) by {
        assert(declared_group(a.group_seq()[i], spec_groups(s)[i]));
        assert(declared_group(b.group_seq()[i], spec_groups(s)[i]));
        lemma_declared_same(a.group_seq()[i], b.group_seq()[i], spec_groups(s)[i]);
    }
    law_same_rules_same_rewrite(a, b, verdicts, uri);
}

proof fn lemma_split_shift(p: Seq<char>, y: Seq<char>, sep: char, j: int, cur: Seq<char>)
    requires
        0 <= j,
    ensures
        split_from(p + y, sep, p.len() + j, cur) == split_from(y, sep, j, cur),
    decreases y.len() - j,
{
    let z = p + y;
    if j < y.len() {
        assert(z[p.len() + j] == y[j]);
        if y[j] == sep {
            lemma_split_shift(p, y, sep, j + 1, Seq::empty());
        } else {
            lemma_split_shift(p, y, sep, j + 1, cur.push(y[j]));
        }
    }
}

proof fn lemma_split_join(x: Seq<char>, y: Seq<char>, sep: char, i: int, cur: Seq<char>)
    requires
        0 <= i <= x.len(),
    ensures
        split_from(x + seq![sep] + y, sep, i, cur) == split_from(x, sep, i, cur) + split_from(
            y,
            sep,
            0,
            Seq::empty(),
        ),
    decreases x.len() - i,
{
    let z = x + seq![sep] + y;
    if i < x.len() {
        assert(z[i] == x[i]);
        if x[i] == sep {
            lemma_split_join(x, y, sep, i + 1, Seq::empty());
            assert(seq![cur] + split_from(x, sep, i + 1, Seq::empty()) + split_from(y, sep, 0, Seq::empty())
                =~= seq![cur] + (split_from(x, sep, i + 1, Seq::empty()) + split_from(y, sep, 0, Seq::empty())));
        } else {
            lemma_split_join(x, y, sep, i + 1, cur.push(x[i]));
        }
    } else {
        assert(z[i] == sep);
        assert(z == (x + seq![sep]) + y);
        lemma_split_shift(x + seq![sep], y, sep, 0, Seq::empty());
    }
}

/// Splitting `x`, a separator and `y` gives the pieces of `x` and then those of `y`.
proof fn lemma_split_concat(x: Seq<char>, y: Seq<char>)
    ensures
        split_spec(x + seq!['\n'] + y, '\n') == split_spec(x, '\n') + split_spec(y, '\n'),
{
    lemma_split_join(x, y, '\n', 0, Seq::empty());
}

proof fn lemma_groups_shift(
    p: Seq<Seq<char>>,
    y: Seq<Seq<char>>,
    j: int,
    cur: Seq<ExprSpec>,
    acc: Seq<Seq<ExprSpec>>,
)
    requires
        0 <= j,
    ensures
        spec_group_from(p + y, p.len() + j, cur, acc) == spec_group_from(y, j, cur, acc),
    decreases y.len() - j,
{
    if j < y.len() {
        assert((p + y)[p.len() + j] == y[j]);
        let (c, a) = spec_step(cur, acc, y[j]);
        lemma_groups_shift(p, y, j + 1, c, a);
    }
}

proof fn lemma_push_group_prefix(acc: Seq<Seq<ExprSpec>>, g: Seq<ExprSpec>)
    ensures
        push_spec_group(acc, g) == acc + push_spec_group(Seq::empty(), g),
{
    if g.len() > 0 {
        assert(acc.push(g) =~= acc + Seq::<Seq<ExprSpec>>::empty().push(g));
    } else {
        assert(acc =~= acc + Seq::<Seq<ExprSpec>>::empty());
    }
}

proof fn lemma_groups_prefix(y: Seq<Seq<char>>, j: int, cur: Seq<ExprSpec>, acc: Seq<Seq<ExprSpec>>)
    ensures
        spec_group_from(y, j, cur, acc) == acc + spec_group_from(y, j, cur, Seq::empty()),
    decreases y.len() - j,
{
    if j < 0 || j >= y.len() {
        lemma_push_group_prefix(acc, cur);
    } else {
        let (c, a) = spec_step(cur, acc, y[j]);
        let (c0, a0) = spec_step(cur, Seq::empty(), y[j]);
        lemma_push_group_prefix(acc, cur);
        assert(c == c0);
        assert(a == acc + a0) by {
            lemma_push_group_prefix(acc, cur);
            lemma_push_group_prefix(Seq::empty(), cur);
            assert(Seq::<Seq<ExprSpec>>::empty() + push_spec_group(Seq::empty(), cur) =~= push_spec_group(
                Seq::empty(),
                cur,
            ));
            assert(acc + Seq::<Seq<ExprSpec>>::empty() =~= acc);
        }
        lemma_groups_prefix(y, j + 1, c, a);
        lemma_groups_prefix(y, j + 1, c0, a0);
        assert(acc + (a0 + spec_group_from(y, j + 1, c0, Seq::empty())) =~= (acc + a0)
            + spec_group_from(y, j + 1, c0, Seq::empty()));
    }
}

proof fn lemma_groups_blank_join(
    x: Seq<Seq<char>>,
    y: Seq<Seq<char>>,
    i: int,
    cur: Seq<ExprSpec>,
    acc: Seq<Seq<ExprSpec>>,
)
    requires
        0 <= i <= x.len(),
    ensures
        spec_group_from(x + seq![Seq::<char>::empty()] + y, i, cur, acc) == spec_group_from(x, i, cur, acc)
            + spec_group_from(y, 0, Seq::empty(), Seq::empty()),
    decreases x.len() - i,
{
    let z = x + seq![Seq::<char>::empty()] + y;
    if i < x.len() {
        assert(z[i] == x[i]);
        let (c, a) = spec_step(cur, acc, x[i]);
        lemma_groups_blank_join(x, y, i + 1, c, a);
    } else {
        assert(z[i] == Seq::<char>::empty());
        assert(crate::text::trimmed(Seq::<char>::empty()) =~= Seq::<char>::empty());
        reveal_strlit("//");
        assert(line_kind(Seq::<char>::empty()) == crate::expr::LineKind::Blank);
        let a = push_spec_group(acc, cur);
        assert(z == (x + seq![Seq::<char>::empty()]) + y);
        lemma_groups_shift(x + seq![Seq::<char>::empty()], y, 0, Seq::empty(), a);
        lemma_groups_prefix(y, 0, Seq::empty(), a);
    }
}

/// A blank line always separates groups: the text `a`, a blank line and the text `b`
/// make the groups of `a` followed by those of `b`, and parse exactly where both do.
pub proof fn law_blank_line_separates(a: Seq<char>, b: Seq<char>)
    ensures
        spec_groups(a + seq!['\n', '\n'] + b) == spec_groups(a) + spec_groups(b),
        text_ok(a + seq!['\n', '\n'] + b) == (text_ok(a) && text_ok(b)),
{
    let s = a + seq!['\n', '\n'] + b;
    assert(s == a + seq!['\n'] + (seq!['\n'] + b));
    lemma_split_concat(a, seq!['\n'] + b);
    assert(seq!['\n'] + b == Seq::<char>::empty() + seq!['\n'] + b);
    lemma_split_concat(Seq::<char>::empty(), b);
    assert(split_spec(Seq::<char>::empty(), '\n') =~= seq![Seq::<char>::empty()]) by {
        assert(split_from(Seq::<char>::empty(), '\n', 0, Seq::empty()) == seq![Seq::<char>::empty()]);
    }
    let la = split_spec(a, '\n');
    let lb = split_spec(b, '\n');
    assert(split_spec(s, '\n') =~= la + seq![Seq::<char>::empty()] + lb);
    lemma_groups_blank_join(la, lb, 0, Seq::empty(), Seq::empty());
    let l = split_spec(s, '\n');
    assert(line_ok(Seq::<char>::empty())) by {
        assert(crate::text::trimmed(Seq::<char>::empty()) =~= Seq::<char>::empty());
    }
    if text_ok(a) && text_ok(b) {
        assert forall|i: int| 0 <= i < l.len() implies line_ok(#[trigger] l[i]) by {
            if i < la.len() {
                assert(l[i] == la[i]);
            } else if i > la.len() {
                assert(l[i] == lb[i - la.len() - 1]);
            }
        }
    }
    if text_ok(s) {
        assert forall|i: int| 0 <= i < la.len() implies line_ok(#[trigger] la[i]) by {
            assert(l[i] == la[i]);
        }
        assert forall|i: int| 0 <= i < lb.len() implies line_ok(#[trigger] lb[i]) by {
            assert(l[i + la.len() + 1] == lb[i]);
        }
    }
}

/// Contexts that resolve every key alike give a condition the same outcome.
proof fn lemma_outcome_resolve<P: crate::context::ContextProvider>(
    c: Condition,
    d: Condition,
    c1: crate::context::EngineCtx<P>,
    c2: crate::context::EngineCtx<P>,
    probed: bool,
)
    requires
        same_condition(c, d),
        forall|k: Seq<char>| #[trigger] c1.resolve(k) == c2.resolve(k),
    ensures
        crate::condition::outcome(c, c1, probed) == crate::condition::outcome(d, c2, probed),
{
    let f = |k: Seq<char>| c1.resolve(k);
    let g = |k: Seq<char>| c2.resolve(k);
    crate::context::lemma_expanded_agree(crate::condition::lhs_of(c.matcher_view()), 0, f, g);
    match crate::condition::rhs_of(c.matcher_view()) {
        Some(r) => crate::context::lemma_expanded_agree(r, 0, f, g),
        None => {},
    }
}

/// Two engines parsed from the same rule text, evaluated with contexts that resolve
/// every variable alike, give the same verdicts and so the same result for every URI
/// (where no condition tests a file, whose answer comes from outside).
pub proof fn law_same_text_same_rewrite_ctx<P: crate::context::ContextProvider>(
    a: Engine,
    b: Engine,
    s: Seq<char>,
    c1: crate::context::EngineCtx<P>,
    c2: crate::context::EngineCtx<P>,
    uri: Seq<char>,
)
    requires
        a.group_seq().len() == spec_groups(s).len(),
        b.group_seq().len() == spec_groups(s).len(),
        forall|i: int| 0 <= i < spec_groups(s).len() ==> declared_group(#[trigger] a.group_seq()[i], spec_groups(s)[i]),
        forall|i: int| 0 <= i < spec_groups(s).len() ==> declared_group(#[trigger] b.group_seq()[i], spec_groups(s)[i]),
        forall|k: Seq<char>| #[trigger] c1.resolve(k) == c2.resolve(k),
    ensures
        a.verdicts_under(c1) == b.verdicts_under(c2),
        a.no_file_tests() == b.no_file_tests(),
        engine_result(a.group_seq(), a.verdicts_under(c1), uri) == engine_result(
            b.group_seq(),
            b.verdicts_under(c2),
            uri,
        ),
{
    law_same_text_same_rewrite(a, b, s, a.verdicts_under(c1), uri);
    assert forall|i: int| 0 <= i < a.group_seq().len() implies #[trigger] a.verdicts_under(c1)[i]
        == b.verdicts_under(c2)[i] && a.group_seq()[i].no_file_tests() == b.group_seq()[i].no_file_tests() by {
        let ga = a.group_seq()[i];
        let gb = b.group_seq()[i];
        assert(same_group(ga, gb));
        let n = ga.conds().len();
        assert forall|k: int| 0 <= k < n implies #[trigger] crate::condition::outcome(ga.conds()[k], c1, false)
            == crate::condition::outcome(gb.conds()[k], c2, false) && is_or_cond(ga.conds()[k])
            == is_or_cond(gb.conds()[k]) && crate::condition::is_file_test(ga.conds()[k])
            == crate::condition::is_file_test(gb.conds()[k]) by {
            assert(same_condition(ga.conds()[k], gb.conds()[k]));
            lemma_outcome_resolve(ga.conds()[k], gb.conds()[k], c1, c2, false);
        }
        let ra = Seq::new(n, |k: int| crate::condition::outcome(ga.conds()[k], c1, false));
        assert(ra =~= Seq::new(
            n,
            |k: int| crate::condition::outcome(gb.conds()[k], c2, false),
        ));
        if exists|k: int| 0 <= k < n && is_or_cond(ga.conds()[k]) && #[trigger] ra[k] {
            let k = choose|k: int| 0 <= k < n && is_or_cond(ga.conds()[k]) && #[trigger] ra[k];
            assert(is_or_cond(gb.conds()[k]) && ra[k]);
        }
        if exists|k: int| 0 <= k < n && is_or_cond(gb.conds()[k]) && #[trigger] ra[k] {
            let k = choose|k: int| 0 <= k < n && is_or_cond(gb.conds()[k]) && #[trigger] ra[k];
            assert(is_or_cond(ga.conds()[k]) && ra[k]);
        }
        assert(verdict(ga.conds(), ra) == verdict(gb.conds(), ra));
        if ga.no_file_tests() {
            assert forall|k: int| 0 <= k < n implies !crate::condition::is_file_test(#[trigger] gb.conds()[k]) by {
                assert(!crate::condition::is_file_test(ga.conds()[k]));
            }
        }
        if gb.no_file_tests() {
            assert forall|k: int| 0 <= k < n implies !crate::condition::is_file_test(#[trigger] ga.conds()[k]) by {
                assert(!crate::condition::is_file_test(gb.conds()[k]));
            }
        }
    }
    if a.no_file_tests() {
        assert forall|i: int| 0 <= i < b.group_seq().len() implies (#[trigger] b.group_seq()[i]).no_file_tests() by {
            assert(a.group_seq()[i].no_file_tests());
            assert(a.verdicts_under(c1)[i] == b.verdicts_under(c2)[i]);
        }
    }
    if b.no_file_tests() {
        assert forall|i: int| 0 <= i < a.group_seq().len() implies (#[trigger] a.group_seq()[i]).no_file_tests() by {
            assert(b.group_seq()[i].no_file_tests());
            assert(a.verdicts_under(c1)[i] == b.verdicts_under(c2)[i]);
        }
    }
    assert(a.verdicts_under(c1) =~= b.verdicts_under(c2));
}

} // verus!
