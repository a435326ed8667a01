//! Framework agnostic rewrite engine for `RewriteRule` / `RewriteCond` style
//! rule sets: rules are compiled once and evaluated against request URIs.
use vstd::prelude::*;

pub mod cache;
pub mod condition;
pub mod config;
pub mod context;
pub mod error;
pub mod envtree;
pub mod escape;
pub mod expr;
pub mod extra;
pub mod laws;
pub mod matcher;
pub mod parse;
pub mod pattern;
pub mod rule;
pub mod text;

pub use condition::Condition;
pub use context::{ContextProvider, DateCtx, EngineCtx, EnvCtx, Provider, RequestCtx, ServerCtx};
pub use error::{CondError, EngineError, ExpressionError, RuleError};
pub use expr::{ExprGroup, Expression, ExpressionList, Rewrite};
pub use extra::State;
pub use rule::Rule;

use expr::{group_result, with_query_spec, RewriteView};
use extra::{path_part, query_part, split_query};

verus! {

/// Where the groups `groups[i..]` take `path`, where `verdicts[j]` says whether the
/// conditions of group `j` were met (a missing verdict counts as not met): each group
/// met rewrites the path in turn, and a result other than a plain URI ends the run.
pub open spec fn engine_from(groups: Seq<ExprGroup>, verdicts: Seq<bool>, i: int, path: Seq<char>) -> Option<
    RewriteView,
>
    decreases groups.len() - i,
{
    if i < 0 || i >= groups.len() {
        Some(RewriteView::Uri(path))
    } else if !(i < verdicts.len() && verdicts[i]) {
        engine_from(groups, verdicts, i + 1, path)
    } else {
        match group_result(groups[i].rule_seq(), path, groups[i].max_iter()) {
            None => None,
            Some(RewriteView::Uri(p)) => engine_from(groups, verdicts, i + 1, p),
            Some(other) => Some(other),
        }
    }
}

/// What the groups make of `uri` given the verdicts of their conditions: the path of
/// `uri` runs through the groups and the query of `uri` is attached to the result.
/// `None` where a group runs out of passes.
pub open spec fn engine_result(groups: Seq<ExprGroup>, verdicts: Seq<bool>, uri: Seq<char>) -> Option<
    RewriteView,
> {
    match engine_from(groups, verdicts, 0, path_part(uri)) {
        None => None,
        Some(v) => Some(with_query_spec(v, query_part(uri))),
    }
}

/// Whether a result agrees with an outcome: an error for `None`, else that value.
pub open spec fn agrees(o: Option<RewriteView>, r: Result<Rewrite, EngineError>) -> bool {
    match o {
        None => r is Err,
        Some(v) => r is Ok && r->Ok_0@ == v,
    }
}

/// Whether `g` is the group built from expressions of the kinds `ks`: as many
/// conditions and rules as those kinds count, and the default bound on passes.
pub open spec fn added_group(g: ExprGroup, ks: Seq<expr::ExprKind>) -> bool {
    &&& g.conds().len() == expr::count_kind(ks, expr::ExprKind::Condition)
    &&& g.rule_seq().len() == expr::count_kind(ks, expr::ExprKind::Rule)
    &&& g.max_iter() == expr::DEFAULT_MAX_ITERATIONS
}

/// Whether `g` is the group that the declarations `d` make: its conditions and
/// rules are those declared, in order, each rule ignoring case exactly where its
/// flags say so, and it is on unless the last state declared is off.
pub open spec fn declared_group(g: ExprGroup, d: Seq<expr::ExprSpec>) -> bool {
    &&& expr::cond_views(g.conds()) == expr::cond_specs(d)
    &&& expr::rule_views(g.rule_seq()) == expr::rule_specs(d)
    &&& forall|k: int|
        0 <= k < g.rule_seq().len() ==> expr::consistent(Expression::Rule(#[trigger] g.rule_seq()[k]))
    &&& g.is_enabled() == expr::spec_enabled(d, true)
    &&& g.max_iter() == expr::DEFAULT_MAX_ITERATIONS
}

/// The rewrite engine: an ordered list of groups of conditions and rules, compiled
/// once and evaluated for many URIs.
#[derive(Debug)]
pub struct Engine {
    groups: Vec<ExprGroup>,
}

impl Default for Engine {
    fn default() -> (r: Self)
        ensures
            r.group_seq().len() == 0,
    {
        Engine { groups: Vec::new() }
    }
}

impl Engine {
    /// The groups of the engine, in order.
    pub closed spec fn group_seq(&self) -> Seq<ExprGroup> {
        self.groups@
    }

    /// The verdict of each group where no variable resolves and no file is found.
    pub open spec fn blank_verdicts(&self) -> Seq<bool> {
        Seq::new(self.group_seq().len(), |i: int| self.group_seq()[i].blank_verdict())
    }

    /// Whether no condition of any group tests a file.
    pub open spec fn no_file_tests(&self) -> bool {
        forall|i: int| 0 <= i < self.group_seq().len() ==> (#[trigger] self.group_seq()[i]).no_file_tests()
    }

    /// The verdict of each group under `ctx`, where no condition tests a file.
    pub open spec fn verdicts_under<P: ContextProvider>(&self, ctx: EngineCtx<P>) -> Seq<bool> {
        Seq::new(self.group_seq().len(), |i: int| self.group_seq()[i].verdict_under(ctx))
    }

    /// An engine without rules.
    pub fn new() -> (r: Self)
        ensures
            r.group_seq().len() == 0,
    {
        Engine { groups: Vec::new() }
    }

    /// The groups of the engine, in order.
    pub fn groups(&self) -> (r: &Vec<ExprGroup>)
        ensures
            r@ == self.group_seq(),
    {
        &self.groups
    }

    /// Sets the bound on passes over the rules of every group.
    pub fn max_iterations(self, iterations: usize) -> (r: Self)
        ensures
            r.group_seq().len() == self.group_seq().len(),
            forall|i: int|
                0 <= i < r.group_seq().len() ==> {
                    &&& (#[trigger] r.group_seq()[i]).max_iter() == iterations
                    &&& r.group_seq()[i].conds() == self.group_seq()[i].conds()
                    &&& r.group_seq()[i].rule_seq() == self.group_seq()[i].rule_seq()
                    &&& r.group_seq()[i].is_enabled() == self.group_seq()[i].is_enabled()
                },
    {
        let Engine { groups } = self;
        let ghost orig = groups@;
        let mut rest = groups;
        let mut out: Vec<ExprGroup> = Vec::new();
        while rest.len() > 0
            invariant
                out@.len() + rest@.len() == orig.len(),
                rest@ == orig.subrange(out@.len() as int, orig.len() as int),
                forall|i: int|
                    0 <= i < out@.len() ==> {
                        &&& (#[trigger] out@[i]).max_iter() == iterations
                        &&& out@[i].conds() == orig[i].conds()
                        &&& out@[i].rule_seq() == orig[i].rule_seq()
                        &&& out@[i].is_enabled() == orig[i].is_enabled()
                    },
            decreases rest@.len(),
        {
            let g = rest.remove(0);
            proof {
                assert(g == orig[out@.len() as int]);
            }
            out.push(g.max_iterations(iterations));
            proof {
                assert(rest@ =~= orig.subrange(out@.len() as int, orig.len() as int));
            }
        }
        Engine { groups: out }
    }

    /// Parses rule text and appends its groups after those already present; on an
    /// error the engine is left as it was.
    pub fn add_rules(&mut self, rules: &str) -> (r: Result<(), ExpressionError>)
        ensures
            r is Err ==> final(self).group_seq() == old(self).group_seq(),
            r is Ok <==> expr::text_ok(rules@),
            r is Err ==> expr::first_error(rules@, r->Err_0),
            r is Ok ==> final(self).group_seq().len() == old(self).group_seq().len()
                + expr::groups_of_text(rules@).len(),
            r is Ok ==> final(self).group_seq().subrange(0, old(self).group_seq().len() as int)
                == old(self).group_seq(),
            r is Ok ==> forall|i: int|
                0 <= i < expr::groups_of_text(rules@).len() ==> added_group(
                    #[trigger] final(self).group_seq()[old(self).group_seq().len() + i],
                    expr::groups_of_text(rules@)[i],
                ),
            r is Ok ==> expr::spec_groups(rules@).len() == expr::groups_of_text(rules@).len(),
            r is Ok ==> forall|i: int|
                0 <= i < expr::spec_groups(rules@).len() ==> declared_group(
                    #[trigger] final(self).group_seq()[old(self).group_seq().len() + i],
                    expr::spec_groups(rules@)[i],
                ),
    {
        let list = ExpressionList::from_str(rules)?;
        proof {
            assert(expr::kinds_list(list.0@).len() == list.0@.len());
        }
        let ghost lists = list.0@;
        let mut groups = list.groups();
        let ghost before = self.groups@;
        let ghost added = groups@;
        self.groups.append(&mut groups);
        proof {
            assert(self.groups@.subrange(0, before.len() as int) =~= before);
            assert forall|i: int| 0 <= i < expr::groups_of_text(rules@).len() implies added_group(
                #[trigger] self.groups@[before.len() + i],
                expr::groups_of_text(rules@)[i],
            ) by {
                assert(self.groups@[before.len() + i] == added[i]);
                assert(expr::groups_of_text(rules@)[i] == expr::kinds(lists[i]@));
                expr::lemma_kind_counts(lists[i]@);
            }
            assert(expr::specs_list(lists).len() == lists.len());
            assert forall|i: int| 0 <= i < expr::spec_groups(rules@).len() implies declared_group(
                #[trigger] self.groups@[before.len() + i],
                expr::spec_groups(rules@)[i],
            ) by {
                assert(self.groups@[before.len() + i] == added[i]);
                assert(expr::spec_groups(rules@)[i] == expr::specs(lists[i]@));
                assert forall|k: int| 0 <= k < lists[i]@.len() implies expr::consistent(#[trigger] lists[i]@[k]) by {
                }
                expr::lemma_group_views(lists[i]@, true);
            }
        }
        Ok(())
    }

    /// Parses rule text into an engine.
    pub fn from_str(s: &str) -> (r: Result<Engine, ExpressionError>)
        ensures
            r is Ok <==> expr::text_ok(s@),
            r is Err ==> expr::first_error(s@, r->Err_0),
            r is Ok ==> r->Ok_0.group_seq().len() == expr::groups_of_text(s@).len(),
            r is Ok ==> forall|i: int|
                0 <= i < expr::groups_of_text(s@).len() ==> added_group(
                    #[trigger] r->Ok_0.group_seq()[i],
                    expr::groups_of_text(s@)[i],
                ),
            r is Ok ==> r->Ok_0.group_seq().len() == expr::spec_groups(s@).len(),
            r is Ok ==> forall|i: int|
                0 <= i < expr::spec_groups(s@).len() ==> declared_group(
                    #[trigger] r->Ok_0.group_seq()[i],
                    expr::spec_groups(s@)[i],
                ),
    {
        let mut e = Engine::new();
        e.add_rules(s)?;
        proof {
            assert forall|i: int| 0 <= i < expr::groups_of_text(s@).len() implies added_group(
                #[trigger] e.group_seq()[i],
                expr::groups_of_text(s@)[i],
            ) by {
                assert(e.group_seq()[0 + i] == e.group_seq()[i]);
            }
            assert forall|i: int| 0 <= i < expr::spec_groups(s@).len() implies declared_group(
                #[trigger] e.group_seq()[i],
                expr::spec_groups(s@)[i],
            ) by {
                assert(e.group_seq()[0 + i] == e.group_seq()[i]);
            }
        }
        Ok(e)
    }

    /// Evaluates `uri`: each group whose conditions `ctx` meets rewrites the path in
    /// turn; a redirect, a status or a final URI ends the run at once. The query of
    /// `uri` is attached to the result.
    pub fn rewrite_ctx<P: ContextProvider>(&self, uri: &str, ctx: &mut EngineCtx<P>) -> (r: Result<
        Rewrite,
        EngineError,
    >)
        ensures
            exists|v: Seq<bool>|
                v.len() <= self.group_seq().len() && (forall|i: int|
                    0 <= i < v.len() ==> self.group_seq()[i].verdict_possible(*old(ctx), #[trigger] v[i]))
                    && agrees(engine_result(self.group_seq(), v, uri@), r),
            old(ctx).len() == 0 ==> agrees(engine_result(self.group_seq(), self.blank_verdicts(), uri@), r),
            self.no_file_tests() ==> agrees(
                engine_result(self.group_seq(), self.verdicts_under(*old(ctx)), uri@),
                r,
            ),
            final(ctx).same_values(old(ctx)),
            final(ctx).len() == old(ctx).len(),
    {
        let ghost o = *old(ctx);
        let ghost under = self.verdicts_under(o);
        proof {
            assert forall|j: int, k: Seq<char>| 0 <= j < o.providers().len() implies #[trigger] o.providers()[j].provides(k)
                == o.providers()[j].provides(k) by {}
        }
        let (mut path, query) = split_query(uri);
        let ghost groups = self.groups@;
        let ghost path0 = path_part(uri@);
        let ghost mut verdicts: Seq<bool> = Seq::empty();
        let ghost blank = self.blank_verdicts();
        let mut i: usize = 0;
        while i < self.groups.len()
            invariant
                groups == self.groups@,
                path0 == path_part(uri@),
                blank == self.blank_verdicts(),
                i <= groups.len(),
                verdicts.len() == i,
                query@ == query_part(uri@),
                ctx.len() == old(ctx).len(),
                forall|j: int| 0 <= j < i ==> groups[j].verdict_possible(o, #[trigger] verdicts[j]),
                o == *old(ctx),
                under == self.verdicts_under(o),
                ctx.same_values(&o),
                self.no_file_tests() ==> verdicts == under.subrange(0, i as int),
                old(ctx).len() == 0 ==> verdicts == blank.subrange(0, i as int),
                forall|ext: Seq<bool>|
                    ext.len() >= i && ext.subrange(0, i as int) == verdicts ==> #[trigger] engine_from(groups, ext, 0, path0)
                        == engine_from(groups, ext, i as int, path@),
            decreases groups.len() - i,
        {
            let ghost mid = *ctx;
            let met = self.groups[i].match_conditions(ctx);
            proof {
                self.groups@[i as int].lemma_verdict_same(mid, o, met);
                ctx.lemma_same_values_trans(&mid, &o);
            }
            let ghost prev = verdicts;
            let ghost old_path = path@;
            proof {
                verdicts = verdicts.push(met);
                assert(verdicts.subrange(0, i as int) =~= prev);
                if old(ctx).len() == 0 {
                    assert(verdicts =~= blank.subrange(0, i + 1));
                }
                if self.no_file_tests() {
                    assert(self.groups@[i as int].no_file_tests());
                    assert(verdicts =~= under.subrange(0, i + 1));
                }
            }
            if met {
                match self.groups[i].rewrite(path.as_str()) {
                    Ok(Rewrite::Uri(p)) => {
                        path = p;
                    },
                    Ok(other) => {
                        let r = other.with_query(query.as_str());
                        proof {
                            assert(verdicts.subrange(0, i + 1) =~= verdicts);
                            assert(verdicts[i as int]);
                            assert(engine_from(groups, verdicts, 0, path0) == engine_from(groups, verdicts, i as int, old_path));
                            assert(engine_from(groups, verdicts, i as int, old_path) == Some(other@));
                            assert(path0 == path_part(uri@));
                            assert(engine_from(groups, verdicts, 0, path_part(uri@)) == Some(other@));
                            assert(engine_result(groups, verdicts, uri@) == Some(with_query_spec(other@, query_part(uri@))));
                            assert(r@ == with_query_spec(other@, query_part(uri@)));
                            assert(agrees(engine_result(groups, verdicts, uri@), Ok(r)));
                            if old(ctx).len() == 0 {
                                assert(blank.subrange(0, i + 1) == verdicts);
                                assert(agrees(engine_result(groups, blank, uri@), Ok(r)));
                            }
                            if self.no_file_tests() {
                                assert(under.subrange(0, i + 1) == verdicts);
                                assert(agrees(engine_result(groups, under, uri@), Ok(r)));
                            }
                        }
                        return Ok(r);
                    },
                    Err(e) => {
                        proof {
                            assert(verdicts.subrange(0, i + 1) =~= verdicts);
                            assert(verdicts[i as int]);
                            assert(engine_from(groups, verdicts, 0, path0) == engine_from(groups, verdicts, i as int, old_path));
                            assert(engine_result(groups, verdicts, uri@) is None);
                            if old(ctx).len() == 0 {
                                assert(engine_result(groups, blank, uri@) is None);
                            }
                            if self.no_file_tests() {
                                assert(under.subrange(0, i + 1) == verdicts);
                                assert(engine_result(groups, under, uri@) is None);
                            }
                        }
                        return Err(e);
                    },
                }
            }
            proof {
                assert forall|ext: Seq<bool>|
                    ext.len() >= i + 1 && ext.subrange(0, i + 1) == verdicts implies #[trigger] engine_from(groups, ext, 0, path0)
                        == engine_from(groups, ext, i + 1, path@) by {
                    assert(ext.subrange(0, i as int) =~= ext.subrange(0, i + 1).subrange(0, i as int));
                    assert(ext[i as int] == ext.subrange(0, i + 1)[i as int]);
                    assert(engine_from(groups, ext, 0, path0) == engine_from(groups, ext, i as int, old_path));
                }
            }
            i = i + 1;
        }
        let r = Rewrite::Uri(path).with_query(query.as_str());
        proof {
            assert(verdicts.subrange(0, i as int) =~= verdicts);
            assert(agrees(engine_result(groups, verdicts, uri@), Ok(r)));
            if old(ctx).len() == 0 {
                assert(blank.subrange(0, i as int) =~= blank);
            }
            if self.no_file_tests() {
                assert(under.subrange(0, i as int) =~= under);
            }
        }
        Ok(r)
    }

    /// Evaluates `uri` without any variables: every reference in a condition resolves
    /// to the empty string and no file is found.
    pub fn rewrite(&self, uri: &str) -> (r: Result<Rewrite, EngineError>)
        ensures
            agrees(engine_result(self.group_seq(), self.blank_verdicts(), uri@), r),
    {
        let mut ctx: EngineCtx<Provider> = EngineCtx::new();
        self.rewrite_ctx(uri, &mut ctx)
    }
}

} // verus!
