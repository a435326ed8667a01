//! Regular expressions of rules, and the expansion of their rewrite targets.
use vstd::prelude::*;

use regex_automata::meta::Regex;

verus! {

#[verifier::external_type_specification]
#[verifier::external_body]
pub struct ExRegex(Regex);

/// The views of a sequence of optional strings.
pub open spec fn opt_views(v: Seq<Option<String>>) -> Seq<Option<Seq<char>>> {
    Seq::new(
        v.len(),
        |i: int|
            match v[i] {
                Some(s) => Some(s@),
                None => None,
            },
    )
}

/// What a regular expression captures in `hay`: `None` where it does not match, else
/// the text of each capture group by index (group 0 is the whole match), `None` for a
/// group that took no part in the match.
pub uninterp spec fn regex_groups(pattern: Seq<char>, nocase: bool, hay: Seq<char>) -> Option<
    Seq<Option<Seq<char>>>,
>;

/// The names of the capture groups of a regular expression, by index.
pub uninterp spec fn regex_group_names(pattern: Seq<char>) -> Seq<Option<Seq<char>>>;

/// What `interpolate::string` writes for `template`, where `$N`, `${N}`, `$name` and
/// `${name}` stand for the text of a group, `$$` for `$`.
pub uninterp spec fn interpolation(
    template: Seq<char>,
    groups: Seq<Option<Seq<char>>>,
    names: Seq<Option<Seq<char>>>,
) -> Seq<char>;

/// Whether a pattern compiles, case-insensitively where `nocase`, within the size
/// limits [`NFA_SIZE_LIMIT`] and [`HYBRID_CACHE_CAPACITY`].
pub uninterp spec fn regex_compiles(pattern: Seq<char>, nocase: bool) -> bool;

/// A compiled regular expression, with the text and the case setting it was built
/// from. Only [`CompiledPattern::compile`] makes one, so the two always agree.
#[derive(Debug)]
pub struct CompiledPattern {
    regex: Regex,
    source: String,
    nocase: bool,
}

/// Relies on `meta::Builder::build` with `Config::nfa_size_limit`,
/// `Config::hybrid_cache_capacity` and `syntax::Config::case_insensitive`: compiles
/// `pattern`, or says why it cannot, within the given budgets.
#[verifier::external_body]
fn build_regex(pattern: &str, nocase: bool, nfa_limit: usize, cache_capacity: usize) -> (r: Result<
    Regex,
    String,
>)
    requires
        nfa_limit == NFA_SIZE_LIMIT,
        cache_capacity == HYBRID_CACHE_CAPACITY,
    ensures
        r is Ok <==> regex_compiles(pattern@, nocase),
{
    Regex::builder().configure(
        Regex::config().nfa_size_limit(Some(nfa_limit)).hybrid_cache_capacity(cache_capacity),
    ).syntax(regex_automata::util::syntax::Config::new().case_insensitive(nocase)).build(
        pattern,
    ).map_err(|e| e.to_string())
}

/// Relies on `meta::Regex::captures` and `Captures::get_group`: the text of each
/// group of the leftmost-first match in `hay`, `None` where there is no match.
#[verifier::external_body]
fn capture_groups(p: &CompiledPattern, hay: &str) -> (r: Option<Vec<Option<String>>>)
    ensures
        match regex_groups(p.source(), p.nocase(), hay@) {
            None => r is None,
            Some(g) => r is Some && opt_views(r->0@) == g,
        },
{
    let mut caps = p.regex.create_captures();
    p.regex.captures(hay, &mut caps);
    if !caps.is_match() {
        return None;
    }
    Some((0..caps.group_len()).map(|i| caps.get_group(i).map(|s| hay[s].to_string())).collect())
}

/// Relies on `GroupInfo::pattern_names`: the name of each capture group, by index.
#[verifier::external_body]
fn group_names(p: &CompiledPattern) -> (r: Vec<Option<String>>)
    ensures
        opt_views(r@) == regex_group_names(p.source()),
{
    p.regex.group_info().pattern_names(regex_automata::PatternID::ZERO).map(
        |n| n.map(|s| s.to_string()),
    ).collect()
}

/// Appends the text of group `index`, where there is one.
fn append_group(groups: &Vec<Option<String>>, index: usize, dst: &mut String)
    ensures
        index < groups@.len() && groups@[index as int] is Some ==> final(dst)@ == old(dst)@
            + groups@[index as int]->0@,
        !(index < groups@.len() && groups@[index as int] is Some) ==> final(dst)@ == old(dst)@,
{
    if index < groups.len() {
        match &groups[index] {
            Some(s) => dst.append(s.as_str()),
            None => {},
        }
    }
}

/// The index of the group called `name`.
fn group_index(names: &Vec<Option<String>>, name: &str) -> (r: Option<usize>)
    ensures
        r is Some ==> r->0 < names@.len() && names@[r->0 as int] is Some && names@[r->0 as int]->0@
            == name@,
        r is None ==> forall|j: int|
            0 <= j < names@.len() && (#[trigger] names@[j]) is Some ==> names@[j]->0@ != name@,
{
    let target = crate::text::chars_of(name);
    let mut j: usize = 0;
    while j < names.len()
        invariant
            j <= names@.len(),
            target@ == name@,
            forall|k: int| 0 <= k < j && (#[trigger] names@[k]) is Some ==> names@[k]->0@ != name@,
        decreases names@.len() - j,
    {
        match &names[j] {
            Some(n) => {
                if crate::text::chars_eq_chars(&crate::text::chars_of(n.as_str()), &target) {
                    return Some(j);
                }
            },
            None => {},
        }
        j = j + 1;
    }
    None
}

/// Relies on `util::interpolate::string`: expands `$` references of `template` with
/// the given group texts and names; a template without `$` is copied as it is.
#[verifier::external_body]
fn interpolate(template: &str, groups: &Vec<Option<String>>, names: &Vec<Option<String>>) -> (r:
    String)
    ensures
        r@ == interpolation(template@, opt_views(groups@), opt_views(names@)),
        !template@.contains('$') ==> r@ == template@,
{
    let mut dst = String::new();
    regex_automata::util::interpolate::string(
        template,
        |index, dst| append_group(groups, index, dst),
        |name| group_index(names, name),
        &mut dst,
    );
    dst
}

/// Size of the automaton that a rule's pattern may compile to.
pub const NFA_SIZE_LIMIT: usize = 10485760;

/// Size of the lazy automaton's cache for a rule's pattern.
pub const HYBRID_CACHE_CAPACITY: usize = 2097152;

impl CompiledPattern {
    /// The text the expression was built from.
    pub closed spec fn source(&self) -> Seq<char> {
        self.source@
    }

    /// Whether the expression ignores case.
    pub closed spec fn nocase(&self) -> bool {
        self.nocase
    }

    /// Compiles `pattern`, ignoring case where `nocase` is set; the error is the
    /// compiler's message.
    pub fn compile(pattern: &str, nocase: bool) -> (r: Result<CompiledPattern, String>)
        ensures
            r is Ok <==> regex_compiles(pattern@, nocase),
            r is Ok ==> r->Ok_0.source() == pattern@ && r->Ok_0.nocase() == nocase,
    {
        match build_regex(pattern, nocase, NFA_SIZE_LIMIT, HYBRID_CACHE_CAPACITY) {
            Ok(regex) => Ok(CompiledPattern { regex, source: String::from_str(pattern), nocase }),
            Err(e) => Err(e),
        }
    }

    /// The text of each group of the match in `hay`, `None` where there is no match.
    pub fn captures(&self, hay: &str) -> (r: Option<Vec<Option<String>>>)
        ensures
            match regex_groups(self.source(), self.nocase(), hay@) {
                None => r is None,
                Some(g) => r is Some && opt_views(r->0@) == g,
            },
    {
        capture_groups(self, hay)
    }

    /// The names of the groups, by index.
    pub fn names(&self) -> (r: Vec<Option<String>>)
        ensures
            opt_views(r@) == regex_group_names(self.source()),
    {
        group_names(self)
    }
}

/// Expands the references of `template` with the given group texts and names.
pub fn expand(template: &str, groups: &Vec<Option<String>>, names: &Vec<Option<String>>) -> (r:
    String)
    ensures
        r@ == interpolation(template@, opt_views(groups@), opt_views(names@)),
        !template@.contains('$') ==> r@ == template@,
{
    interpolate(template, groups, names)
}

} // verus!
