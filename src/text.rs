//! Character-level helpers shared by the parsers.
use vstd::prelude::*;

verus! {

/// The characters with the Unicode `White_Space` property.
pub open spec fn is_ws(c: char) -> bool {
    let u = c as u32;
    (0x09 <= u && u <= 0x0D) || u == 0x20 || u == 0x85 || u == 0xA0 || u == 0x1680
        || (0x2000 <= u && u <= 0x200A) || u == 0x2028 || u == 0x2029 || u == 0x202F
        || u == 0x205F || u == 0x3000
}

pub fn is_whitespace(c: char) -> (r: bool)
    ensures
        r == is_ws(c),
{
    let u = c as u32;
    (0x09 <= u && u <= 0x0D) || u == 0x20 || u == 0x85 || u == 0xA0 || u == 0x1680 || (0x2000
        <= u && u <= 0x200A) || u == 0x2028 || u == 0x2029 || u == 0x202F || u == 0x205F || u
        == 0x3000
}

/// Relies on `str::chars`: the characters of the string, in order.
#[verifier::external_body]
pub(crate) fn chars_of(s: &str) -> (r: Vec<char>)
    ensures
        r@ == s@,
{
    s.chars().collect()
}

/// Relies on `FromIterator<&char> for String`: the string of exactly these characters.
#[verifier::external_body]
pub(crate) fn string_of(v: &[char]) -> (r: String)
    ensures
        r@ == v@,
{
    v.iter().collect()
}

/// What `str::to_lowercase` returns for a string.
pub uninterp spec fn lower_of(s: Seq<char>) -> Seq<char>;

/// Relies on `str::to_lowercase`: the result depends on the characters alone.
#[verifier::external_body]
pub(crate) fn lowercase(s: &str) -> (r: String)
    ensures
        r@ == lower_of(s@),
{
    s.to_lowercase()
}

/// Characters `lo..hi` of `v` as a new vector.
pub fn sub_chars(v: &Vec<char>, lo: usize, hi: usize) -> (r: Vec<char>)
    requires
        lo <= hi <= v@.len(),
    ensures
        r@ == v@.subrange(lo as int, hi as int),
{
    let mut r: Vec<char> = Vec::new();
    let mut i: usize = lo;
    while i < hi
        invariant
            lo <= i <= hi <= v@.len(),
            r@ == v@.subrange(lo as int, i as int),
        decreases hi - i,
    {
        r.push(v[i]);
        i = i + 1;
    }
    r
}

/// Characters `lo..hi` of `v` as a string.
pub fn sub_string(v: &Vec<char>, lo: usize, hi: usize) -> (r: String)
    requires
        lo <= hi <= v@.len(),
    ensures
        r@ == v@.subrange(lo as int, hi as int),
{
    let s = sub_chars(v, lo, hi);
    string_of(s.as_slice())
}

/// Appends all of `b` to `a`.
pub fn extend_chars(a: &mut Vec<char>, b: &Vec<char>)
    ensures
        final(a)@ == old(a)@ + b@,
{
    let mut i: usize = 0;
    while i < b.len()
        invariant
            i <= b@.len(),
            a@ == old(a)@ + b@.subrange(0, i as int),
        decreases b@.len() - i,
    {
        a.push(b[i]);
        i = i + 1;
        proof {
            assert(b@.subrange(0, i as int) == b@.subrange(0, i - 1 as int).push(b@[i - 1]));
        }
    }
    proof {
        assert(b@.subrange(0, b@.len() as int) == b@);
    }
}

/// Whether the characters equal those of a literal.
pub fn chars_eq(a: &Vec<char>, b: &str) -> (r: bool)
    ensures
        r == (a@ == b@),
{
    let bv = chars_of(b);
    if a.len() != bv.len() {
        return false;
    }
    let mut i: usize = 0;
    while i < a.len()
        invariant
            a@.len() == bv@.len(),
            bv@ == b@,
            i <= a@.len(),
            forall|k: int| 0 <= k < i ==> a@[k] == bv@[k],
        decreases a@.len() - i,
    {
        if a[i] != bv[i] {
            assert(a@[i as int] != bv@[i as int]);
            return false;
        }
        i = i + 1;
    }
    proof {
        assert(a@ =~= bv@);
    }
    true
}

/// Whether two character vectors are equal.
pub fn chars_eq_chars(a: &Vec<char>, b: &Vec<char>) -> (r: bool)
    ensures
        r == (a@ == b@),
{
    if a.len() != b.len() {
        return false;
    }
    let r = occurs_at_exec(a, b, 0);
    proof {
        if r {
            assert(a@.subrange(0, b@.len() as int) =~= a@);
        } else {
            assert(a@.subrange(0, b@.len() as int) =~= a@);
        }
    }
    r
}

/// Whether `s` begins with `p`.
pub open spec fn starts_with(s: Seq<char>, p: Seq<char>) -> bool {
    p.len() <= s.len() && s.subrange(0, p.len() as int) == p
}

/// Whether `s` ends with `p`.
pub open spec fn ends_with(s: Seq<char>, p: Seq<char>) -> bool {
    p.len() <= s.len() && s.subrange(s.len() - p.len(), s.len() as int) == p
}

/// Whether `p` occurs in `s` at position `i`.
pub open spec fn occurs_at(s: Seq<char>, p: Seq<char>, i: int) -> bool {
    0 <= i && i + p.len() <= s.len() && s.subrange(i, i + p.len()) == p
}

pub fn occurs_at_exec(s: &Vec<char>, p: &Vec<char>, i: usize) -> (r: bool)
    ensures
        r == occurs_at(s@, p@, i as int),
{
    if i > s.len() || p.len() > s.len() - i {
        return false;
    }
    let mut k: usize = 0;
    while k < p.len()
        invariant
            i + p@.len() <= s@.len(),
            s@.len() == s.len(),
            k <= p@.len(),
            forall|j: int| 0 <= j < k ==> s@[i + j] == p@[j],
        decreases p@.len() - k,
    {
        assert(i + k < s@.len());
        if s[i + k] != p[k] {
            assert(s@.subrange(i as int, i + p@.len())[k as int] != p@[k as int]);
            return false;
        }
        k = k + 1;
    }
    assert(s@.subrange(i as int, i + p@.len()) =~= p@);
    true
}

pub fn starts_with_exec(s: &Vec<char>, p: &Vec<char>) -> (r: bool)
    ensures
        r == starts_with(s@, p@),
{
    let r = occurs_at_exec(s, p, 0);
    r
}

pub fn ends_with_exec(s: &Vec<char>, p: &Vec<char>) -> (r: bool)
    ensures
        r == ends_with(s@, p@),
{
    if p.len() > s.len() {
        return false;
    }
    occurs_at_exec(s, p, s.len() - p.len())
}

/// Whether every character is an ASCII digit.
pub open spec fn all_digits(d: Seq<char>) -> bool {
    forall|k: int| 0 <= k < d.len() ==> '0' <= #[trigger] d[k] <= '9'
}

/// The number that a run of ASCII digits writes in decimal.
pub open spec fn decimal_value(d: Seq<char>) -> nat
    decreases d.len(),
{
    if d.len() == 0 {
        0
    } else {
        decimal_value(d.drop_last()) * 10 + ((d.last() as u32 - '0' as u32) as nat)
    }
}

/// The unsigned number written by `d`: one optional `+`, then at least one digit.
pub open spec fn unsigned_of(d: Seq<char>) -> Option<nat> {
    let body = if d.len() > 0 && d[0] == '+' {
        d.drop_first()
    } else {
        d
    };
    if body.len() > 0 && all_digits(body) {
        Some(decimal_value(body))
    } else {
        None
    }
}

/// The signed number written by `d`: one optional `+` or `-`, then at least one digit.
pub open spec fn signed_of(d: Seq<char>) -> Option<int> {
    if d.len() > 0 && d[0] == '-' {
        let body = d.drop_first();
        if body.len() > 0 && all_digits(body) {
            Some(-decimal_value(body))
        } else {
            None
        }
    } else {
        match unsigned_of(d) {
            Some(n) => Some(n as int),
            None => None,
        }
    }
}

proof fn lemma_decimal_step(d: Seq<char>, k: int)
    requires
        0 <= k < d.len(),
    ensures
        decimal_value(d.subrange(0, k + 1)) == decimal_value(d.subrange(0, k)) * 10 + ((d[k] as u32
            - '0' as u32) as nat),
{
    assert(d.subrange(0, k + 1).drop_last() =~= d.subrange(0, k));
}

proof fn lemma_decimal_grows(d: Seq<char>, k: int)
    requires
        0 <= k <= d.len(),
    ensures
        decimal_value(d.subrange(0, k)) <= decimal_value(d),
    decreases d.len() - k,
{
    if k < d.len() {
        lemma_decimal_step(d, k);
        lemma_decimal_grows(d, k + 1);
    } else {
        assert(d.subrange(0, k) =~= d);
    }
}

/// Reads the digits `v[start..]` as a number no larger than `max`.
fn digits_upto(v: &Vec<char>, start: usize, max: u64) -> (r: Option<u64>)
    requires
        start <= v@.len(),
        max < 0x1_0000_0000,
    ensures
        r is Some <==> (v@.len() > start && all_digits(v@.subrange(start as int, v@.len() as int))
            && decimal_value(v@.subrange(start as int, v@.len() as int)) <= max),
        r is Some ==> r->0 as nat == decimal_value(v@.subrange(start as int, v@.len() as int)),
{
    let ghost d = v@.subrange(start as int, v@.len() as int);
    if start >= v.len() {
        return None;
    }
    let mut acc: u64 = 0;
    let mut i: usize = start;
    while i < v.len()
        invariant
            start <= i <= v@.len(),
            d == v@.subrange(start as int, v@.len() as int),
            all_digits(d.subrange(0, i - start)),
            acc as nat == decimal_value(d.subrange(0, i - start)),
            acc <= max,
            max < 0x1_0000_0000,
        decreases v@.len() - i,
    {
        let c = v[i];
        if !('0' <= c && c <= '9') {
            proof {
                assert(d[i - start] == c);
            }
            return None;
        }
        proof {
            lemma_decimal_step(d, i - start);
            assert(d.subrange(0, i - start + 1) =~= d.subrange(0, i - start).push(c));
        }
        let next: u64 = acc * 10 + (c as u64 - '0' as u64);
        if next > max {
            proof {
                lemma_decimal_grows(d, i - start + 1);
            }
            return None;
        }
        acc = next;
        i = i + 1;
    }
    proof {
        assert(d.subrange(0, i - start) =~= d);
    }
    Some(acc)
}

/// Parses an unsigned decimal number no larger than `max`.
pub fn parse_unsigned(v: &Vec<char>, max: u64) -> (r: Option<u64>)
    requires
        max < 0x1_0000_0000,
    ensures
        r is Some <==> (unsigned_of(v@) is Some && unsigned_of(v@)->0 <= max),
        r is Some ==> r->0 as nat == unsigned_of(v@)->0,
{
    let start: usize = if v.len() > 0 && v[0] == '+' {
        1
    } else {
        0
    };
    proof {
        if start == 1 {
            assert(v@.drop_first() =~= v@.subrange(1, v@.len() as int));
        } else {
            assert(v@ =~= v@.subrange(0, v@.len() as int));
        }
    }
    digits_upto(v, start, max)
}

/// Parses a decimal number that fits in an `i32`.
pub fn parse_i32(v: &Vec<char>) -> (r: Option<i32>)
    ensures
        r is Some <==> (signed_of(v@) is Some && i32::MIN <= signed_of(v@)->0 <= i32::MAX),
        r is Some ==> r->0 as int == signed_of(v@)->0,
{
    if v.len() > 0 && v[0] == '-' {
        proof {
            assert(v@.drop_first() =~= v@.subrange(1, v@.len() as int));
        }
        match digits_upto(v, 1, 0x8000_0000) {
            Some(n) => Some((0 - (n as i64)) as i32),
            None => None,
        }
    } else {
        match parse_unsigned(v, 0x7fff_ffff) {
            Some(n) => Some(n as i32),
            None => None,
        }
    }
}

/// The decimal digits of `n`.
pub open spec fn decimal_chars(n: nat) -> Seq<char>
    decreases n,
{
    if n < 10 {
        seq![(('0' as u32) + n) as char]
    } else {
        decimal_chars(n / 10).push((('0' as u32) + (n % 10)) as char)
    }
}

/// Writes `n` in decimal.
pub fn decimal_string(n: u64) -> (r: String)
    ensures
        r@ == decimal_chars(n as nat),
{
    let mut digits: Vec<char> = Vec::new();
    let mut m: u64 = n;
    // digits of m, least significant first, go in front of those already written
    let mut out: Vec<char> = Vec::new();
    while m >= 10
        invariant
            decimal_chars(n as nat) == decimal_chars(m as nat) + out@,
        decreases m,
    {
        let c = char_of_digit(m % 10);
        let mut next: Vec<char> = Vec::new();
        next.push(c);
        extend_chars(&mut next, &out);
        proof {
            assert(decimal_chars(m as nat) == decimal_chars((m / 10) as nat).push(c));
            assert(decimal_chars((m / 10) as nat).push(c) + out@ =~= decimal_chars((m / 10) as nat)
                + next@);
        }
        out = next;
        m = m / 10;
    }
    digits.push(char_of_digit(m));
    extend_chars(&mut digits, &out);
    string_of(digits.as_slice())
}

fn char_of_digit(d: u64) -> (c: char)
    requires
        d < 10,
    ensures
        c == (('0' as u32) + d) as char,
{
    match d {
        0 => '0',
        1 => '1',
        2 => '2',
        3 => '3',
        4 => '4',
        5 => '5',
        6 => '6',
        7 => '7',
        8 => '8',
        _ => '9',
    }
}

/// Pieces of `s` from position `i` on, split at each `sep`, where `cur` is the piece
/// being read.
pub open spec fn split_from(s: Seq<char>, sep: char, i: int, cur: Seq<char>) -> Seq<Seq<char>>
    decreases s.len() - i,
{
    if i < 0 || i >= s.len() {
        seq![cur]
    } else if s[i] == sep {
        seq![cur] + split_from(s, sep, i + 1, Seq::empty())
    } else {
        split_from(s, sep, i + 1, cur.push(s[i]))
    }
}

/// The pieces of `s` between the occurrences of `sep`, as `str::split` gives them.
pub open spec fn split_spec(s: Seq<char>, sep: char) -> Seq<Seq<char>> {
    split_from(s, sep, 0, Seq::empty())
}

/// Splits `s` at each occurrence of `sep`.
pub fn split_chars(s: &Vec<char>, sep: char) -> (r: Vec<Vec<char>>)
    ensures
        crate::parse::char_views(r@) == split_spec(s@, sep),
{
    let mut acc: Vec<Vec<char>> = Vec::new();
    let mut cur: Vec<char> = Vec::new();
    let mut i: usize = 0;
    proof {
        assert(crate::parse::char_views(acc@) + split_from(s@, sep, 0, cur@) =~= split_spec(s@, sep));
    }
    while i < s.len()
        invariant
            i <= s@.len(),
            split_spec(s@, sep) == crate::parse::char_views(acc@) + split_from(s@, sep, i as int, cur@),
        decreases s@.len() - i,
    {
        if s[i] == sep {
            let ghost before = acc@;
            let piece = cur;
            acc.push(piece);
            cur = Vec::new();
            proof {
                assert(crate::parse::char_views(acc@) =~= crate::parse::char_views(before).push(piece@));
                assert(crate::parse::char_views(before) + (seq![piece@] + split_from(s@, sep, i + 1, cur@))
                    =~= crate::parse::char_views(acc@) + split_from(s@, sep, i + 1, cur@));
            }
        } else {
            cur.push(s[i]);
        }
        i = i + 1;
    }
    let ghost before = acc@;
    let piece = cur;
    acc.push(piece);
    proof {
        assert(crate::parse::char_views(acc@) =~= crate::parse::char_views(before).push(piece@));
        assert(crate::parse::char_views(before) + seq![piece@] =~= crate::parse::char_views(acc@));
    }
    acc
}

/// The first position from `k` on where `c` stands.
pub open spec fn index_from(s: Seq<char>, c: char, k: int) -> Option<int>
    decreases s.len() - k,
{
    if k < 0 || k >= s.len() {
        None
    } else if s[k] == c {
        Some(k)
    } else {
        index_from(s, c, k + 1)
    }
}

/// The first position where `c` stands.
pub open spec fn index_of(s: Seq<char>, c: char) -> Option<int> {
    index_from(s, c, 0)
}

proof fn lemma_index_from(s: Seq<char>, c: char, k: int)
    requires
        0 <= k,
    ensures
        index_from(s, c, k) is Some ==> k <= index_from(s, c, k)->0 < s.len() && s[index_from(s, c, k)->0] == c,
    decreases s.len() - k,
{
    if k < s.len() && s[k] != c {
        lemma_index_from(s, c, k + 1);
    }
}

pub proof fn lemma_index_from_total(s: Seq<char>, c: char, k: int, j: int)
    requires
        0 <= k <= j < s.len(),
        s[j] == c,
    ensures
        index_from(s, c, k) is Some,
    decreases j - k,
{
    if s[k] != c {
        lemma_index_from_total(s, c, k + 1, j);
    }
}

/// Finds the first position where `c` stands.
pub fn find_char(s: &Vec<char>, c: char) -> (r: Option<usize>)
    ensures
        r is Some <==> index_of(s@, c) is Some,
        r is Some ==> r->0 as int == index_of(s@, c)->0 && r->0 < s@.len() && s@[r->0 as int] == c,
{
    let mut k: usize = 0;
    proof {
        lemma_index_from(s@, c, 0);
    }
    while k < s.len()
        invariant
            k <= s@.len(),
            index_of(s@, c) == index_from(s@, c, k as int),
        decreases s@.len() - k,
    {
        if s[k] == c {
            return Some(k);
        }
        k = k + 1;
    }
    None
}

/// The first position from `k` on that holds whitespace.
pub open spec fn ws_from(s: Seq<char>, k: int) -> Option<int>
    decreases s.len() - k,
{
    if k < 0 || k >= s.len() {
        None
    } else if is_ws(s[k]) {
        Some(k)
    } else {
        ws_from(s, k + 1)
    }
}

proof fn lemma_ws_from(s: Seq<char>, k: int)
    requires
        0 <= k,
    ensures
        ws_from(s, k) is Some ==> k <= ws_from(s, k)->0 < s.len(),
    decreases s.len() - k,
{
    if k < s.len() && !is_ws(s[k]) {
        lemma_ws_from(s, k + 1);
    }
}

/// Finds the first whitespace character.
pub fn find_ws(s: &Vec<char>) -> (r: Option<usize>)
    ensures
        r is Some <==> ws_from(s@, 0) is Some,
        r is Some ==> r->0 as int == ws_from(s@, 0)->0 && r->0 < s@.len(),
{
    let mut k: usize = 0;
    proof {
        lemma_ws_from(s@, 0);
    }
    while k < s.len()
        invariant
            k <= s@.len(),
            ws_from(s@, 0) == ws_from(s@, k as int),
        decreases s@.len() - k,
    {
        if is_whitespace(s[k]) {
            return Some(k);
        }
        k = k + 1;
    }
    None
}

/// Number of whitespace characters at the start of `s`.
pub open spec fn lead_ws(s: Seq<char>) -> nat
    decreases s.len(),
{
    if s.len() > 0 && is_ws(s[0]) {
        1 + lead_ws(s.drop_first())
    } else {
        0
    }
}

/// Number of whitespace characters at the end of `s`.
pub open spec fn trail_ws(s: Seq<char>) -> nat
    decreases s.len(),
{
    if s.len() > 0 && is_ws(s.last()) {
        1 + trail_ws(s.drop_last())
    } else {
        0
    }
}

proof fn lemma_lead_ws(s: Seq<char>)
    ensures
        lead_ws(s) <= s.len(),
    decreases s.len(),
{
    if s.len() > 0 && is_ws(s[0]) {
        lemma_lead_ws(s.drop_first());
    }
}

proof fn lemma_trail_ws(s: Seq<char>)
    ensures
        trail_ws(s) <= s.len(),
    decreases s.len(),
{
    if s.len() > 0 && is_ws(s.last()) {
        lemma_trail_ws(s.drop_last());
    }
}

/// `s` without whitespace at either end, as `str::trim` gives it.
pub open spec fn trimmed(s: Seq<char>) -> Seq<char> {
    let a = s.subrange(lead_ws(s) as int, s.len() as int);
    a.subrange(0, a.len() - trail_ws(a))
}

/// Removes the whitespace at both ends.
pub fn trim(s: &Vec<char>) -> (r: Vec<char>)
    ensures
        r@ == trimmed(s@),
{
    let mut lo: usize = 0;
    proof {
        lemma_lead_ws(s@);
        assert(s@.subrange(0, s@.len() as int) =~= s@);
    }
    while lo < s.len() && is_whitespace(s[lo])
        invariant
            lo <= s@.len(),
            lead_ws(s@) == lo + lead_ws(s@.subrange(lo as int, s@.len() as int)),
        decreases s@.len() - lo,
    {
        proof {
            assert(s@.subrange(lo as int, s@.len() as int).drop_first() =~= s@.subrange(
                lo + 1,
                s@.len() as int,
            ));
        }
        lo = lo + 1;
    }
    let ghost a = s@.subrange(lo as int, s@.len() as int);
    proof {
        assert(lead_ws(a) == 0);
        assert(s@.subrange(lead_ws(s@) as int, s@.len() as int) =~= a);
        lemma_trail_ws(a);
        assert(a.subrange(0, a.len() as int) =~= a);
    }
    let mut hi: usize = s.len();
    while hi > lo && is_whitespace(s[hi - 1])
        invariant
            lo <= hi <= s@.len(),
            a == s@.subrange(lo as int, s@.len() as int),
            trail_ws(a) == (s@.len() - hi) + trail_ws(a.subrange(0, hi - lo)),
        decreases hi,
    {
        proof {
            assert(a.subrange(0, hi - lo).drop_last() =~= a.subrange(0, hi - lo - 1));
            assert(a.subrange(0, hi - lo).last() == s@[hi - 1]);
        }
        hi = hi - 1;
    }
    proof {
        if hi > lo {
            assert(a.subrange(0, hi - lo).last() == s@[hi - 1]);
        }
        assert(a.subrange(0, a.len() - trail_ws(a)) =~= s@.subrange(lo as int, hi as int));
    }
    sub_chars(s, lo, hi)
}

/// Words of `s` from position `i` on, as `str::split_whitespace` gives them, where
/// `cur` is the word being read and `acc` those found so far.
pub open spec fn words_from(s: Seq<char>, i: int, cur: Seq<char>, acc: Seq<Seq<char>>) -> Seq<
    Seq<char>,
>
    decreases s.len() - i,
{
    if i < 0 || i >= s.len() {
        if cur.len() > 0 {
            acc.push(cur)
        } else {
            acc
        }
    } else if is_ws(s[i]) {
        if cur.len() > 0 {
            words_from(s, i + 1, Seq::empty(), acc.push(cur))
        } else {
            words_from(s, i + 1, cur, acc)
        }
    } else {
        words_from(s, i + 1, cur.push(s[i]), acc)
    }
}

/// The words of `s`, separated by whitespace.
pub open spec fn words_of(s: Seq<char>) -> Seq<Seq<char>> {
    words_from(s, 0, Seq::empty(), Seq::empty())
}

/// Splits `s` into its whitespace-separated words.
pub fn split_words(s: &Vec<char>) -> (r: Vec<Vec<char>>)
    ensures
        crate::parse::char_views(r@) == words_of(s@),
{
    let mut acc: Vec<Vec<char>> = Vec::new();
    let mut cur: Vec<char> = Vec::new();
    let mut i: usize = 0;
    proof {
        assert(crate::parse::char_views(acc@) =~= Seq::<Seq<char>>::empty());
    }
    while i < s.len()
        invariant
            i <= s@.len(),
            words_of(s@) == words_from(s@, i as int, cur@, crate::parse::char_views(acc@)),
        decreases s@.len() - i,
    {
        if is_whitespace(s[i]) {
            if cur.len() > 0 {
                let ghost before = acc@;
                let w = cur;
                acc.push(w);
                cur = Vec::new();
                proof {
                    assert(crate::parse::char_views(acc@) =~= crate::parse::char_views(before).push(w@));
                }
            }
        } else {
            cur.push(s[i]);
        }
        i = i + 1;
    }
    if cur.len() > 0 {
        let ghost before = acc@;
        let w = cur;
        acc.push(w);
        proof {
            assert(crate::parse::char_views(acc@) =~= crate::parse::char_views(before).push(w@));
        }
    }
    acc
}

} // verus!
