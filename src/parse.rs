//! Tokenizer for condition expressions.
use vstd::prelude::*;

use crate::error::CondError;
use crate::text::{is_whitespace, is_ws, split_chars, split_spec, string_of, sub_chars, sub_string, trim, trimmed};

verus! {

/// The views of a sequence of strings.
pub open spec fn views(v: Seq<String>) -> Seq<Seq<char>> {
    Seq::new(v.len(), |i: int| v[i]@)
}

/// The views of a sequence of character vectors.
pub open spec fn char_views(v: Seq<Vec<char>>) -> Seq<Seq<char>> {
    Seq::new(v.len(), |i: int| v[i]@)
}

/// Length of the run of backslashes that ends just before `j`, counted from `lo` on.
pub open spec fn backslash_run(s: Seq<char>, lo: int, j: int) -> nat
    decreases j - lo,
{
    if j <= lo {
        0
    } else if s[j - 1] == '\\' {
        backslash_run(s, lo, j - 1) + 1
    } else {
        0
    }
}

/// Whether the quote opened just before `lo` is closed at `j`: a quote that an even
/// run of backslashes precedes.
pub open spec fn closes_at(s: Seq<char>, lo: int, quote: char, j: int) -> bool {
    lo <= j < s.len() && s[j] == quote && backslash_run(s, lo, j) % 2 == 0
}

/// The first position from `k` on that closes the quote opened before `lo`.
pub open spec fn first_close(s: Seq<char>, lo: int, quote: char, k: int) -> Option<int>
    decreases s.len() - k,
{
    if k < lo || k >= s.len() {
        None
    } else if closes_at(s, lo, quote, k) {
        Some(k)
    } else {
        first_close(s, lo, quote, k + 1)
    }
}

/// Tokens of `s` from position `i` on, given the pending bare token `cur` and the
/// tokens `acc` found so far; `None` where a quotation is never closed.
pub open spec fn tokens_from(s: Seq<char>, i: int, cur: Seq<char>, acc: Seq<Seq<char>>) -> Option<
    Seq<Seq<char>>,
>
    decreases s.len() - i,
{
    if i < 0 || i >= s.len() {
        Some(
            if cur.len() > 0 {
                acc.push(cur)
            } else {
                acc
            },
        )
    } else if is_ws(s[i]) {
        if cur.len() > 0 {
            tokens_from(s, i + 1, Seq::empty(), acc.push(cur))
        } else {
            tokens_from(s, i + 1, cur, acc)
        }
    } else if s[i] == '\'' || s[i] == '"' {
        match first_close(s, i + 1, s[i], i + 1) {
            None => None,
            Some(j) => if i < j < s.len() {
                tokens_from(s, j + 1, cur, acc.push(s.subrange(i + 1, j)))
            } else {
                None
            },
        }
    } else {
        tokens_from(s, i + 1, cur.push(s[i]), acc)
    }
}

/// The tokens of a whole expression.
pub open spec fn tokens_of(s: Seq<char>) -> Option<Seq<Seq<char>>> {
    tokens_from(s, 0, Seq::empty(), Seq::empty())
}

proof fn lemma_first_close_bounds(s: Seq<char>, lo: int, quote: char, k: int)
    ensures
        first_close(s, lo, quote, k) is Some ==> {
            let j = first_close(s, lo, quote, k)->0;
            k <= j < s.len() && lo <= j && closes_at(s, lo, quote, j)
        },
    decreases s.len() - k,
{
    if k < lo || k >= s.len() {
    } else if closes_at(s, lo, quote, k) {
    } else {
        lemma_first_close_bounds(s, lo, quote, k + 1);
    }
}

/// Finds the quote character that closes a quotation opened just before `index`.
pub fn end_quote(s: &Vec<char>, index: usize, quote: char) -> (r: Result<usize, CondError>)
    requires
        1 <= index <= s@.len(),
    ensures
        r is Ok <==> first_close(s@, index as int, quote, index as int) is Some,
        r is Ok ==> r->Ok_0 as int == first_close(s@, index as int, quote, index as int)->0,
        r is Err ==> r->Err_0 == CondError::UnclosedQuotation(r->Err_0->UnclosedQuotation_0)
            && r->Err_0->UnclosedQuotation_0@ == s@.subrange(index - 1, s@.len() as int),
{
    let mut k: usize = index;
    let mut run: usize = 0;
    while k < s.len()
        invariant
            index <= k <= s@.len(),
            run as nat == backslash_run(s@, index as int, k as int),
            run <= k,
            first_close(s@, index as int, quote, index as int) == first_close(
                s@,
                index as int,
                quote,
                k as int,
            ),
        decreases s@.len() - k,
    {
        let c = s[k];
        if c == quote && run % 2 == 0 {
            return Ok(k);
        }
        if c == '\\' {
            run = run + 1;
        } else {
            run = 0;
        }
        k = k + 1;
    }
    Err(CondError::UnclosedQuotation(sub_string(s, index - 1, s.len())))
}

/// Splits a condition expression into tokens: whitespace separates bare tokens, and a
/// `'` or `"` opens a quoted token that runs to the matching unescaped quote.
pub fn tokenize(s: &Vec<char>) -> (r: Result<Vec<String>, CondError>)
    ensures
        r is Ok <==> tokens_of(s@) is Some,
        r is Ok ==> views(r->Ok_0@) == tokens_of(s@)->0,
        r is Err ==> r->Err_0 is UnclosedQuotation,
{
    let mut acc: Vec<String> = Vec::new();
    let mut cur: Vec<char> = Vec::new();
    let mut i: usize = 0;
    proof {
        assert(views(acc@) =~= Seq::<Seq<char>>::empty());
    }
    while i < s.len()
        invariant
            i <= s@.len(),
            tokens_of(s@) == tokens_from(s@, i as int, cur@, views(acc@)),
        decreases s@.len() - i,
    {
        let c = s[i];
        if is_whitespace(c) {
            if cur.len() > 0 {
                let t = string_of(cur.as_slice());
                proof {
                    assert(views(acc@.push(t)) =~= views(acc@).push(cur@));
                }
                acc.push(t);
                cur = Vec::new();
            }
            i = i + 1;
        } else if c == '\'' || c == '"' {
            let j = end_quote(s, i + 1, c)?;
            proof {
                lemma_first_close_bounds(s@, i + 1, c, i + 1);
            }
            let t = sub_string(s, i + 1, j);
            proof {
                assert(views(acc@.push(t)) =~= views(acc@).push(s@.subrange(i + 1, j as int)));
            }
            acc.push(t);
            i = j + 1;
        } else {
            cur.push(c);
            i = i + 1;
        }
    }
    if cur.len() > 0 {
        let t = string_of(cur.as_slice());
        proof {
            assert(views(acc@.push(t)) =~= views(acc@).push(cur@));
        }
        acc.push(t);
    }
    Ok(acc)
}

/// The first of `options` that `s` begins with.
pub fn matches_start(s: &Vec<char>, options: &[char]) -> (r: Option<char>)
    ensures
        r is Some <==> (s@.len() > 0 && options@.contains(s@[0])),
        r is Some ==> r->0 == s@[0],
{
    if s.len() == 0 {
        return None;
    }
    let mut k: usize = 0;
    while k < options.len()
        invariant
            k <= options@.len(),
            s@.len() > 0,
            forall|j: int| 0 <= j < k ==> options@[j] != s@[0],
        decreases options@.len() - k,
    {
        if options[k] == s[0] {
            return Some(options[k]);
        }
        k = k + 1;
    }
    None
}

/// The pieces of `ps`, trimmed, leaving out those that are then empty.
pub open spec fn nonempty_trimmed(ps: Seq<Seq<char>>) -> Seq<Seq<char>>
    decreases ps.len(),
{
    if ps.len() == 0 {
        Seq::empty()
    } else {
        let t = trimmed(ps[0]);
        let rest = nonempty_trimmed(ps.drop_first());
        if t.len() > 0 {
            seq![t] + rest
        } else {
            rest
        }
    }
}

/// Whether `s` is a flag list: it starts with `[` and ends with `]`.
pub open spec fn bracketed(s: Seq<char>) -> bool {
    s.len() > 0 && s[0] == '[' && s.last() == ']'
}

/// The flags written in a flag list `[a,b,...]`, trimmed, the empty ones left out.
pub open spec fn flag_items(s: Seq<char>) -> Seq<Seq<char>> {
    nonempty_trimmed(split_spec(s.subrange(1, s.len() - 1), ','))
}

proof fn lemma_nonempty_trimmed_step(ps: Seq<Seq<char>>, i: int)
    requires
        0 <= i < ps.len(),
    ensures
        nonempty_trimmed(ps.subrange(i, ps.len() as int)) == if trimmed(ps[i]).len() > 0 {
            seq![trimmed(ps[i])] + nonempty_trimmed(ps.subrange(i + 1, ps.len() as int))
        } else {
            nonempty_trimmed(ps.subrange(i + 1, ps.len() as int))
        },
{
    assert(ps.subrange(i, ps.len() as int).drop_first() =~= ps.subrange(i + 1, ps.len() as int));
}

/// Splits a flag list into its flags.
pub fn flag_items_exec(s: &Vec<char>) -> (r: Vec<Vec<char>>)
    requires
        bracketed(s@),
    ensures
        char_views(r@) == flag_items(s@),
{
    let inner = sub_chars(s, 1, s.len() - 1);
    let pieces = split_chars(&inner, ',');
    let ghost ps = char_views(pieces@);
    let mut acc: Vec<Vec<char>> = Vec::new();
    let mut i: usize = 0;
    proof {
        assert(ps.subrange(0, ps.len() as int) =~= ps);
        assert(char_views(acc@) + nonempty_trimmed(ps) =~= nonempty_trimmed(ps));
    }
    while i < pieces.len()
        invariant
            ps == char_views(pieces@),
            i <= pieces@.len(),
            flag_items(s@) == nonempty_trimmed(ps),
            nonempty_trimmed(ps) == char_views(acc@) + nonempty_trimmed(ps.subrange(i as int, ps.len() as int)),
        decreases pieces@.len() - i,
    {
        proof {
            lemma_nonempty_trimmed_step(ps, i as int);
        }
        let t = trim(&pieces[i]);
        if t.len() > 0 {
            let ghost before = acc@;
            acc.push(t);
            proof {
                assert(char_views(acc@) =~= char_views(before).push(t@));
                assert(char_views(before) + (seq![t@] + nonempty_trimmed(ps.subrange(i + 1, ps.len() as int)))
                    =~= char_views(acc@) + nonempty_trimmed(ps.subrange(i + 1, ps.len() as int)));
            }
        }
        i = i + 1;
    }
    proof {
        assert(ps.subrange(i as int, ps.len() as int) =~= Seq::<Seq<char>>::empty());
        assert(char_views(acc@) + Seq::<Seq<char>>::empty() =~= char_views(acc@));
    }
    acc
}

} // verus!
