//! Query strings, and the `RewriteEngine` state.
use vstd::prelude::*;

use crate::error::ExpressionError;
use crate::text::{chars_eq, chars_of, find_char, index_of, lower_of, lowercase, string_of, sub_string, trim, trimmed};

verus! {

/// The path of a URI: what stands before its first `?`.
pub open spec fn path_part(uri: Seq<char>) -> Seq<char> {
    match index_of(uri, '?') {
        Some(i) => uri.subrange(0, i),
        None => uri,
    }
}

/// The query of a URI: what follows its first `?`, empty without one.
pub open spec fn query_part(uri: Seq<char>) -> Seq<char> {
    match index_of(uri, '?') {
        Some(i) => uri.subrange(i + 1, uri.len() as int),
        None => Seq::empty(),
    }
}

/// `uri` with `query` attached: after `&` where `uri` has a query already, after `?`
/// otherwise; `uri` itself where `query` is empty.
pub open spec fn joined(uri: Seq<char>, query: Seq<char>) -> Seq<char> {
    if query.len() == 0 {
        uri
    } else if uri.contains('?') {
        uri + seq!['&'] + query
    } else {
        uri + seq!['?'] + query
    }
}

/// Splits a URI into its path and its query.
pub fn split_query(uri: &str) -> (r: (String, String))
    ensures
        r.0@ == path_part(uri@),
        r.1@ == query_part(uri@),
{
    let c = chars_of(uri);
    match find_char(&c, '?') {
        Some(i) => {
            assert(i < c.len());
            (sub_string(&c, 0, i), sub_string(&c, i + 1, c.len()))
        },
        None => {
            let whole = sub_string(&c, 0, c.len());
            proof {
                assert(c@.subrange(0, c@.len() as int) =~= c@);
            }
            (whole, String::new())
        },
    }
}

/// Attaches a query to a URI.
pub fn join_query(uri: String, query: &str) -> (r: String)
    ensures
        r@ == joined(uri@, query@),
{
    let q = chars_of(query);
    if q.len() == 0 {
        return uri;
    }
    let mut u = chars_of(uri.as_str());
    let has = find_char(&u, '?').is_some();
    proof {
        if u@.contains('?') {
            let k = choose|k: int| 0 <= k < u@.len() && u@[k] == '?';
            crate::text::lemma_index_from_total(u@, '?', 0, k);
        }
    }
    if has {
        u.push('&');
    } else {
        u.push('?');
    }
    crate::text::extend_chars(&mut u, &q);
    string_of(u.as_slice())
}

/// A `RewriteEngine` expression: it starts a group of its own and switches that group
/// on or off.
#[derive(Clone, Copy, Debug, PartialEq, Eq, Structural)]
pub enum State {
    On,
    Off,
}

impl Default for State {
    fn default() -> (r: Self)
        ensures
            r == State::On,
    {
        State::On
    }
}

/// The state that `s` names, ignoring case and surrounding whitespace.
pub open spec fn state_of(s: Seq<char>) -> Option<State> {
    let l = lower_of(trimmed(s));
    if l == "on"@ {
        Some(State::On)
    } else if l == "off"@ {
        Some(State::Off)
    } else {
        None
    }
}

impl State {
    /// Parses `on` or `off`.
    pub fn from_str(s: &str) -> (r: Result<State, ExpressionError>)
        ensures
            r is Ok <==> state_of(s@) is Some,
            r is Ok ==> r->Ok_0 == state_of(s@)->0,
            r is Err ==> r->Err_0 is InvalidStateRule,
    {
        let t = trim(&chars_of(s));
        let l = chars_of(lowercase(string_of(t.as_slice()).as_str()).as_str());
        if chars_eq(&l, "on") {
            Ok(State::On)
        } else if chars_eq(&l, "off") {
            Ok(State::Off)
        } else {
            Err(ExpressionError::InvalidStateRule(String::from_str(s)))
        }
    }
}

} // verus!
