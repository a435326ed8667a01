//! A tree of settings built from environment variables whose names share a prefix,
//! with the parts of a name separated by `__`.
use vstd::prelude::*;

use crate::parse::views;
use crate::text::{chars_eq_chars, chars_of, parse_unsigned, starts_with, string_of, sub_chars, unsigned_of};

verus! {

/// A setting: a text, an object of named settings, or an array.
#[derive(Debug)]
pub enum EnvTree {
    Text(String),
    Object(Vec<String>, Vec<EnvTree>),
    Array(Vec<EnvTree>),
}

/// Whether no key appears twice.
pub open spec fn unique_keys(ks: Seq<String>) -> bool {
    forall|i: int, j: int| 0 <= i < j < ks.len() ==> ks[i]@ != ks[j]@
}

/// The parts of `s` from position `i` on, split at each `__`, where `cur` is the part
/// being read.
pub open spec fn parts_from(s: Seq<char>, i: int, cur: Seq<char>) -> Seq<Seq<char>>
    decreases s.len() - i,
{
    if i < 0 || i >= s.len() {
        seq![cur]
    } else if s[i] == '_' && i + 1 < s.len() && s[i + 1] == '_' {
        seq![cur] + parts_from(s, i + 2, Seq::empty())
    } else {
        parts_from(s, i + 1, cur.push(s[i]))
    }
}

/// The parts of a variable name, split at each `__` from the left.
pub open spec fn name_parts(s: Seq<char>) -> Seq<Seq<char>> {
    parts_from(s, 0, Seq::empty())
}

/// Splits a variable name at each `__`.
pub fn split_name(s: &Vec<char>) -> (r: Vec<String>)
    ensures
        views(r@) == name_parts(s@),
{
    let mut acc: Vec<String> = Vec::new();
    let mut cur: Vec<char> = Vec::new();
    let mut i: usize = 0;
    proof {
        assert(views(acc@) =~= Seq::<Seq<char>>::empty());
        assert(views(acc@) + parts_from(s@, 0, cur@) =~= name_parts(s@));
    }
    while i < s.len()
        invariant
            i <= s@.len(),
            name_parts(s@) == views(acc@) + parts_from(s@, i as int, cur@),
        decreases s@.len() - i,
    {
        if s[i] == '_' && i + 1 < s.len() && s[i + 1] == '_' {
            let ghost before = acc@;
            let piece = string_of(cur.as_slice());
            acc.push(piece);
            proof {
                assert(views(acc@) =~= views(before).push(cur@));
                assert(views(before) + (seq![cur@] + parts_from(s@, i + 2, Seq::empty())) =~= views(acc@)
                    + parts_from(s@, i + 2, Seq::empty()));
            }
            cur = Vec::new();
            i = i + 2;
        } else {
            cur.push(s[i]);
            i = i + 1;
        }
    }
    let ghost before = acc@;
    let piece = string_of(cur.as_slice());
    acc.push(piece);
    proof {
        assert(views(acc@) =~= views(before).push(cur@));
        assert(views(before) + seq![cur@] =~= views(acc@));
    }
    acc
}

fn key_index(keys: &Vec<String>, k: &str) -> (r: Option<usize>)
    ensures
        r is Some ==> r->0 < keys@.len() && keys@[r->0 as int]@ == k@,
        r is None ==> forall|j: int| 0 <= j < keys@.len() ==> (#[trigger] keys@[j])@ != k@,
{
    let target = chars_of(k);
    let mut j: usize = 0;
    while j < keys.len()
        invariant
            j <= keys@.len(),
            target@ == k@,
            forall|m: int| 0 <= m < j ==> (#[trigger] keys@[m])@ != k@,
        decreases keys@.len() - j,
    {
        if chars_eq_chars(&chars_of(keys[j].as_str()), &target) {
            return Some(j);
        }
        j = j + 1;
    }
    None
}

/// Stores `value` under the path `parts[i..]` in the object with `keys` and `vals`:
/// the last part names the text, the others name objects, made where missing. A part
/// that names a text or an array already stops the path, and the value is dropped.
pub fn insert_nested(
    keys: &mut Vec<String>,
    vals: &mut Vec<EnvTree>,
    parts: &Vec<String>,
    i: usize,
    value: String,
)
    requires
        old(keys)@.len() == old(vals)@.len(),
        unique_keys(old(keys)@),
    ensures
        final(keys)@.len() == final(vals)@.len(),
        unique_keys(final(keys)@),
        old(keys)@.len() <= final(keys)@.len(),
        i < parts@.len() ==> exists|j: int|
            0 <= j < final(keys)@.len() && (#[trigger] final(keys)@[j])@ == parts@[i as int]@,
        i + 1 == parts@.len() ==> forall|j: int|
            0 <= j < final(keys)@.len() && (#[trigger] final(keys)@[j])@ == parts@[i as int]@
                ==> final(vals)@[j] == EnvTree::Text(value),
        forall|j: int|
            0 <= j < old(keys)@.len() && (i >= parts@.len() || (#[trigger] old(keys)@[j])@
                != parts@[i as int]@) ==> final(keys)@[j] == old(keys)@[j] && final(vals)@[j]
                == old(vals)@[j],
    decreases parts@.len() - i,
{
    if i >= parts.len() {
        return;
    }
    let ghost ok = keys@;
    let ghost ov = vals@;
    let j = match key_index(keys, parts[i].as_str()) {
        Some(j) => j,
        None => {
            let k = parts[i].clone();
            proof {
                assert(k@ == parts@[i as int]@);
            }
            keys.push(k);
            if i + 1 == parts.len() {
                vals.push(EnvTree::Text(value));
                proof {
                    assert forall|a: int, b: int| 0 <= a < b < keys@.len() implies keys@[a]@
                        != keys@[b]@ by {
                        if b == ok.len() {
                            assert(ok[a]@ != parts@[i as int]@);
                        }
                    }
                    assert(keys@[ok.len() as int]@ == parts@[i as int]@);
                }
                return;
            }
            vals.push(EnvTree::Object(Vec::new(), Vec::new()));
            proof {
                assert forall|a: int, b: int| 0 <= a < b < keys@.len() implies keys@[a]@
                    != keys@[b]@ by {
                    if b == ok.len() {
                        assert(ok[a]@ != parts@[i as int]@);
                    }
                }
            }
            keys.len() - 1
        },
    };
    let ghost mk = keys@;
    let ghost mv = vals@;
    if i + 1 == parts.len() {
        let _ = vals.remove(j);
        vals.insert(j, EnvTree::Text(value));
        proof {
            assert forall|m: int|
                0 <= m < keys@.len() && (#[trigger] keys@[m])@ == parts@[i as int]@ implies vals@[m]
                == EnvTree::Text(value) by {
                if m != j {
                    if m < j {
                        assert(keys@[m]@ != keys@[j as int]@);
                    } else {
                        assert(keys@[j as int]@ != keys@[m]@);
                    }
                }
            }
        }
        return;
    }
    let child = vals.remove(j);
    let next = match child {
        EnvTree::Object(mut sk, mut sv) => {
            if sk.len() == sv.len() && unique_keys_exec(&sk) {
                insert_nested(&mut sk, &mut sv, parts, i + 1, value);
            }
            EnvTree::Object(sk, sv)
        },
        other => other,
    };
    vals.insert(j, next);
    proof {
        assert(keys@[j as int]@ == parts@[i as int]@);
        assert forall|m: int|
            0 <= m < ok.len() && (#[trigger] ok[m])@ != parts@[i as int]@ implies keys@[m] == ok[m]
            && vals@[m] == ov[m] by {
            assert(m != j);
        }
    }
}

/// Whether no key appears twice.
fn unique_keys_exec(keys: &Vec<String>) -> (r: bool)
    ensures
        r == unique_keys(keys@),
{
    let mut b: usize = 0;
    while b < keys.len()
        invariant
            b <= keys@.len(),
            forall|x: int, y: int| 0 <= x < y < b ==> keys@[x]@ != keys@[y]@,
        decreases keys@.len() - b,
    {
        let kb = chars_of(keys[b].as_str());
        let mut a: usize = 0;
        while a < b
            invariant
                a <= b < keys@.len(),
                kb@ == keys@[b as int]@,
                forall|x: int| 0 <= x < a ==> keys@[x]@ != keys@[b as int]@,
            decreases b - a,
        {
            if chars_eq_chars(&chars_of(keys[a].as_str()), &kb) {
                return false;
            }
            a = a + 1;
        }
        b = b + 1;
    }
    true
}

/// Whether some key of `ks` reads as the number `p`.
pub open spec fn reads_as(ks: Seq<String>, p: nat) -> bool {
    exists|k: int| 0 <= k < ks.len() && unsigned_of(#[trigger] ks[k]@) == Some(p)
}

/// Whether an object with keys `ks` becomes an array: it has keys, and each position
/// below their number is what one key reads as.
pub open spec fn array_like(ks: Seq<String>) -> bool {
    ks.len() > 0 && forall|p: nat| p < ks.len() ==> #[trigger] reads_as(ks, p)
}

/// The first key that reads as `p`.
fn key_for(keys: &Vec<String>, p: usize) -> (r: Option<usize>)
    requires
        p < 0x1_0000_0000,
    ensures
        r is Some ==> r->0 < keys@.len() && unsigned_of(keys@[r->0 as int]@) == Some(p as nat),
        r is None ==> !reads_as(keys@, p as nat),
{
    let mut k: usize = 0;
    while k < keys.len()
        invariant
            k <= keys@.len(),
            p < 0x1_0000_0000,
            forall|m: int| 0 <= m < k ==> unsigned_of(#[trigger] keys@[m]@) != Some(p as nat),
        decreases keys@.len() - k,
    {
        match parse_unsigned(&chars_of(keys[k].as_str()), 0xffff_ffff) {
            Some(n) => {
                if n == p as u64 {
                    return Some(k);
                }
            },
            None => {},
        }
        k = k + 1;
    }
    None
}

/// Turns objects whose keys are the positions `0..n` into arrays, down to `depth`
/// levels; the other values keep their shape.
pub fn convert_objects_to_arrays(t: EnvTree, depth: usize) -> (r: EnvTree)
    ensures
        t is Text ==> r == t,
        depth == 0 ==> r == t,
        depth > 0 && t is Array ==> r is Array && r->Array_0@.len() == t->Array_0@.len(),
        t is Object ==> r is Object || r is Array,
        depth > 0 && t is Object && t->Object_0@.len() == t->Object_1@.len() && t->Object_0@.len()
            < 0x1_0000_0000 ==> {
            &&& array_like(t->Object_0@) ==> r is Array && r->Array_0@.len() == t->Object_0@.len()
            &&& !array_like(t->Object_0@) ==> r is Object && r->Object_0@ == t->Object_0@
                && r->Object_1@.len() == t->Object_1@.len()
        },
    decreases depth,
{
    if depth == 0 {
        return t;
    }
    match t {
        EnvTree::Text(s) => EnvTree::Text(s),
        EnvTree::Array(items) => {
            let mut rest = items;
            let ghost n = rest@.len();
            let mut out: Vec<EnvTree> = Vec::new();
            while rest.len() > 0
                invariant
                    out@.len() + rest@.len() == n,
                    depth > 0,
                decreases rest@.len(),
            {
                let item = rest.remove(0);
                out.push(convert_objects_to_arrays(item, depth - 1));
            }
            EnvTree::Array(out)
        },
        EnvTree::Object(keys, vals) => {
            let mut rest = vals;
            let ghost n = rest@.len();
            let mut converted: Vec<EnvTree> = Vec::new();
            while rest.len() > 0
                invariant
                    converted@.len() + rest@.len() == n,
                    depth > 0,
                decreases rest@.len(),
            {
                let item = rest.remove(0);
                converted.push(convert_objects_to_arrays(item, depth - 1));
            }
            if keys.len() != converted.len() || keys.len() == 0 || keys.len() as u64 >= 0x1_0000_0000u64 {
                return EnvTree::Object(keys, converted);
            }
            let n = keys.len();
            let mut order: Vec<usize> = Vec::new();
            let mut p: usize = 0;
            while p < n
                invariant
                    n == keys@.len(),
                    n < 0x1_0000_0000,
                    depth > 0,
                    t is Object && t->Object_0@ == keys@ && t->Object_1@.len() == converted@.len(),
                    p <= n,
                    order@.len() == p,
                    forall|q: int| 0 <= q < p ==> #[trigger] order@[q] < n && unsigned_of(
                        keys@[order@[q] as int]@,
                    ) == Some(q as nat),
                    forall|q: nat| q < p ==> #[trigger] reads_as(keys@, q),
                decreases n - p,
            {
                match key_for(&keys, p) {
                    Some(k) => {
                        order.push(k);
                    },
                    None => {
                        return EnvTree::Object(keys, converted);
                    },
                }
                p = p + 1;
            }
            let mut slots: Vec<Option<EnvTree>> = Vec::new();
            let mut rest = converted;
            while rest.len() > 0
                invariant
                    slots@.len() + rest@.len() == n,
                    forall|m: int| 0 <= m < slots@.len() ==> #[trigger] slots@[m] is Some,
                decreases rest@.len(),
            {
                let item = rest.remove(0);
                slots.push(Some(item));
            }
            let mut arr: Vec<EnvTree> = Vec::new();
            let mut q: usize = 0;
            while q < n
                invariant
                    n == keys@.len(),
                    order@.len() == n,
                    slots@.len() == n,
                    q <= n,
                    arr@.len() == q,
                    forall|a: int| 0 <= a < n ==> #[trigger] order@[a] < n && unsigned_of(
                        keys@[order@[a] as int]@,
                    ) == Some(a as nat),
                    forall|m: int|
                        0 <= m < n ==> (#[trigger] slots@[m] is Some <==> forall|a: int|
                            0 <= a < q ==> #[trigger] order@[a] != m),
                decreases n - q,
            {
                let k = order[q];
                proof {
                    assert forall|a: int| 0 <= a < q implies #[trigger] order@[a] != k by {
                        if order@[a] == k {
                            assert(unsigned_of(keys@[k as int]@) == Some(a as nat));
                            assert(unsigned_of(keys@[k as int]@) == Some(q as nat));
                        }
                    }
                }
                let taken = slots.remove(k);
                slots.insert(k, None);
                let v = match taken {
                    Some(v) => v,
                    None => {
                        proof {
                            assert(false);
                        }
                        return EnvTree::Array(arr);
                    },
                };
                arr.push(v);
                q = q + 1;
                proof {
                    assert forall|m: int| 0 <= m < n implies (#[trigger] slots@[m] is Some <==> forall|a: int|
                        0 <= a < q ==> #[trigger] order@[a] != m) by {
                        if m != k {
                            if slots@[m] is Some {
                                assert forall|a: int| 0 <= a < q implies #[trigger] order@[a] != m by {
                                    if a == q - 1 {
                                    }
                                }
                            } else {
                                let w = choose|a: int| 0 <= a < q - 1 && #[trigger] order@[a] == m;
                                assert(order@[w] == m);
                            }
                        } else {
                            assert(order@[q - 1] == m);
                        }
                    }
                }
            }
            EnvTree::Array(arr)
        },
    }
}

} // verus!
