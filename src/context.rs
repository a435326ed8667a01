//! Variable providers used to expand `%{NAME}` references in conditions.
use vstd::prelude::*;

use crate::matcher::FileTest;
use crate::text::{chars_eq, chars_of, decimal_chars, decimal_string, lower_of, lowercase, string_of, sub_chars};

verus! {

/// A source of values for `%{NAME}` references, and of answers to file tests.
///
/// Each provider answers only the keys it knows and returns `None` for the others,
/// so that providers can be chained.
pub trait ContextProvider {
    /// The value that this provider gives for the variable `key`, if it knows it.
    spec fn provides(&self, key: Seq<char>) -> Option<Seq<char>>;

    /// The value of the variable `key`, if this provider knows it; what the provider
    /// gives for any key stays as it was.
    fn fill(&mut self, key: &str) -> (r: Option<String>)
        ensures
            r is Some <==> old(self).provides(key@) is Some,
            r is Some ==> r->0@ == old(self).provides(key@)->0,
            forall|k: Seq<char>| #[trigger] final(self).provides(k) == old(self).provides(k),
    ;

    /// Whether the file at `path` has the attribute `test`, if this provider probes
    /// files.
    fn probe(&self, path: &str, test: FileTest) -> Option<bool>;
}

/// Whether `c` is a Unicode word character (`\\w`), as `regex_syntax::is_word_character`
/// decides.
pub uninterp spec fn is_word(c: char) -> bool;

/// Relies on `regex_syntax::is_word_character` (with the `unicode-perl` feature,
/// which the default features enable, so it does not panic): whether `c` is
/// alphabetic, a decimal digit, a mark, connector punctuation or a join control.
#[verifier::external_body]
fn is_word_exec(c: char) -> (r: bool)
    ensures
        r == is_word(c),
{
    regex_syntax::is_word_character(c)
}

/// End of the run of name characters that starts at `k`.
pub open spec fn word_end(s: Seq<char>, k: int) -> int
    decreases s.len() - k,
{
    if 0 <= k < s.len() && is_word(s[k]) {
        word_end(s, k + 1)
    } else {
        k
    }
}

/// End (exclusive) of the reference `%{NAME}` that starts at `k`, if one does.
pub open spec fn ref_end(s: Seq<char>, k: int) -> Option<int> {
    if 0 <= k && k + 1 < s.len() && s[k] == '%' && s[k + 1] == '{' {
        let e = word_end(s, k + 2);
        if e > k + 2 && e < s.len() && s[e] == '}' {
            Some(e + 1)
        } else {
            None
        }
    } else {
        None
    }
}
proof fn lemma_word_end_bounds(s: Seq<char>, k: int)
    requires
        0 <= k,
    ensures
        k <= word_end(s, k),
        word_end(s, k) <= s.len() || word_end(s, k) == k,
        forall|j: int| k <= j < word_end(s, k) ==> is_word(#[trigger] s[j]),
        0 <= word_end(s, k) < s.len() ==> !is_word(s[word_end(s, k)]),
    decreases s.len() - k,
{
    if 0 <= k < s.len() && is_word(s[k]) {
        lemma_word_end_bounds(s, k + 1);
    }
}

/// `s` from position `i` on, with each reference `%{NAME}` replaced once by
/// `value(NAME)`; the text around the references is kept.
pub open spec fn expanded_with(s: Seq<char>, i: int, value: spec_fn(Seq<char>) -> Seq<char>) -> Seq<
    char,
>
    decreases s.len() - i,
{
    if i < 0 || i >= s.len() {
        Seq::empty()
    } else {
        match ref_end(s, i) {
            Some(e) => if i < e <= s.len() {
                value(s.subrange(i + 2, e - 1)) + expanded_with(s, e, value)
            } else {
                Seq::empty()
            },
            None => seq![s[i]] + expanded_with(s, i + 1, value),
        }
    }
}

/// Expansions with values that agree on every name agree.
pub proof fn lemma_expanded_agree(
    s: Seq<char>,
    i: int,
    f: spec_fn(Seq<char>) -> Seq<char>,
    g: spec_fn(Seq<char>) -> Seq<char>,
)
    requires
        forall|k: Seq<char>| #[trigger] f(k) == g(k),
    ensures
        expanded_with(s, i, f) == expanded_with(s, i, g),
    decreases s.len() - i,
{
    if 0 <= i < s.len() {
        match ref_end(s, i) {
            Some(e) => if i < e <= s.len() {
                lemma_expanded_agree(s, e, f, g);
            },
            None => {
                lemma_expanded_agree(s, i + 1, f, g);
            },
        }
    }
}

/// The value of the first provider of `ps`, from position `i` on, that knows `key`.
pub open spec fn first_value<P: ContextProvider>(ps: Seq<P>, key: Seq<char>, i: int) -> Option<Seq<char>>
    decreases ps.len() - i,
{
    if i < 0 || i >= ps.len() {
        None
    } else {
        match ps[i].provides(key) {
            Some(v) => Some(v),
            None => first_value(ps, key, i + 1),
        }
    }
}

proof fn lemma_first_value_agree<P: ContextProvider>(a: Seq<P>, b: Seq<P>, key: Seq<char>, i: int)
    requires
        a.len() == b.len(),
        forall|j: int, k: Seq<char>| 0 <= j < a.len() ==> #[trigger] a[j].provides(k) == b[j].provides(k),
    ensures
        first_value(a, key, i) == first_value(b, key, i),
    decreases a.len() - i,
{
    if 0 <= i < a.len() {
        assert(a[i].provides(key) == b[i].provides(key));
        lemma_first_value_agree(a, b, key, i + 1);
    }
}

/// The first answer in `answers` from position `i` on; `false` where none answers.
pub open spec fn first_answer(answers: Seq<Option<bool>>, i: int) -> bool
    decreases answers.len() - i,
{
    if i < 0 || i >= answers.len() {
        false
    } else {
        match answers[i] {
            Some(b) => b,
            None => first_answer(answers, i + 1),
        }
    }
}

/// Picks the first answer that the providers gave to a file test.
pub fn choose_answer(answers: &Vec<Option<bool>>) -> (r: bool)
    ensures
        r == first_answer(answers@, 0),
{
    let mut i: usize = 0;
    while i < answers.len()
        invariant
            i <= answers@.len(),
            first_answer(answers@, 0) == first_answer(answers@, i as int),
        decreases answers@.len() - i,
    {
        if let Some(b) = answers[i] {
            return b;
        }
        i = i + 1;
    }
    false
}

/// The context used to expand variables in conditions: an ordered list of providers,
/// of which the first that knows a key gives its value.
pub struct EngineCtx<P> {
    providers: Vec<P>,
}

impl<P> Default for EngineCtx<P> {
    fn default() -> (r: Self)
        ensures
            r.len() == 0,
    {
        EngineCtx { providers: Vec::new() }
    }
}

impl<P> EngineCtx<P> {
    /// The number of providers.
    pub closed spec fn len(&self) -> nat {
        self.providers@.len()
    }

    /// The provider at position `i`.
    pub closed spec fn provider(&self, i: int) -> P {
        self.providers@[i]
    }

    /// The providers, in order.
    pub closed spec fn providers(&self) -> Seq<P> {
        self.providers@
    }
}

impl<P: ContextProvider> EngineCtx<P> {
    /// The value of `key`: that of the first provider that knows it, else empty.
    pub open spec fn resolve(&self, key: Seq<char>) -> Seq<char> {
        match first_value(self.providers(), key, 0) {
            Some(v) => v,
            None => Seq::empty(),
        }
    }

    /// Whether two contexts hold providers that give the same values, in the same
    /// order.
    pub open spec fn same_values(&self, other: &Self) -> bool {
        &&& self.providers().len() == other.providers().len()
        &&& forall|j: int, k: Seq<char>|
            0 <= j < self.providers().len() ==> #[trigger] self.providers()[j].provides(k)
                == other.providers()[j].provides(k)
    }

    /// Contexts with providers that give the same values resolve every key alike.
    pub proof fn lemma_same_resolve(&self, other: &Self)
        requires
            self.same_values(other),
        ensures
            forall|k: Seq<char>| #[trigger] self.resolve(k) == other.resolve(k),
    {
        assert forall|k: Seq<char>| #[trigger] self.resolve(k) == other.resolve(k) by {
            lemma_first_value_agree(self.providers(), other.providers(), k, 0);
        }
    }

    /// `expr` with each reference `%{NAME}` replaced once by the value of `NAME`.
    pub open spec fn expand(&self, expr: Seq<char>) -> Seq<char> {
        expanded_with(expr, 0, |k: Seq<char>| self.resolve(k))
    }

    /// Contexts with providers that give the same values expand alike.
    pub proof fn lemma_same_expand(&self, other: &Self, expr: Seq<char>)
        requires
            self.same_values(other),
        ensures
            self.expand(expr) == other.expand(expr),
    {
        self.lemma_same_resolve(other);
        lemma_expanded_agree(expr, 0, |k: Seq<char>| self.resolve(k), |k: Seq<char>| other.resolve(k));
    }

    /// Giving the same values is transitive.
    pub proof fn lemma_same_values_trans(&self, b: &Self, c: &Self)
        requires
            self.same_values(b),
            b.same_values(c),
        ensures
            self.same_values(c),
    {
        assert forall|j: int, k: Seq<char>| 0 <= j < self.providers().len() implies #[trigger] self.providers()[j].provides(k)
            == c.providers()[j].provides(k) by {
            assert(self.providers()[j].provides(k) == b.providers()[j].provides(k));
        }
    }

    /// A context without providers expands every reference to the empty string.
    pub proof fn lemma_empty_expand(&self, expr: Seq<char>)
        requires
            self.len() == 0,
        ensures
            self.expand(expr) == expanded_with(expr, 0, |k: Seq<char>| Seq::<char>::empty()),
    {
        lemma_expanded_agree(expr, 0, |k: Seq<char>| self.resolve(k), |k: Seq<char>| Seq::<char>::empty());
    }
}

impl<P: ContextProvider> EngineCtx<P> {
    /// An empty context.
    pub fn new() -> (r: Self)
        ensures
            r.len() == 0,
    {
        EngineCtx { providers: Vec::new() }
    }

    /// Adds a provider after those already present.
    pub fn push_ctx(&mut self, ctx: P) -> (r: &mut Self)
        ensures
            *final(self) == *final(r),
            r.len() == old(self).len() + 1,
            r.provider(old(self).len() as int) == ctx,
            forall|i: int| 0 <= i < old(self).len() ==> r.provider(i) == old(self).provider(i),
            r.providers() == old(self).providers().push(ctx),
    {
        self.providers.push(ctx);
        self
    }

    /// Adds a provider after those already present.
    pub fn with_ctx(self, ctx: P) -> (r: Self)
        ensures
            r.len() == self.len() + 1,
            r.provider(self.len() as int) == ctx,
            forall|i: int| 0 <= i < self.len() ==> r.provider(i) == self.provider(i),
            r.providers() == self.providers().push(ctx),
    {
        let mut c = self;
        c.push_ctx(ctx);
        c
    }

    /// The value of the variable `key` from the first provider that knows it, or the
    /// empty string where none does; the providers give the same values after.
    pub fn fill(&mut self, key: &str) -> (r: String)
        ensures
            r@ == old(self).resolve(key@),
            final(self).same_values(old(self)),
            final(self).len() == old(self).len(),
    {
        let n = self.providers.len();
        let mut i: usize = 0;
        while i < n
            invariant
                n == self.providers@.len(),
                n == old(self).providers@.len(),
                i <= n,
                self.same_values(old(self)),
                first_value(old(self).providers(), key@, 0) == first_value(
                    old(self).providers(),
                    key@,
                    i as int,
                ),
            decreases n - i,
        {
            let ghost before = self.providers@;
            let mut p = self.providers.remove(i);
            let v = p.fill(key);
            self.providers.insert(i, p);
            proof {
                assert(self.providers@ =~= before.update(i as int, p));
                assert(before[i as int].provides(key@) == old(self).providers()[i as int].provides(
                    key@,
                ));
            }
            if let Some(v) = v {
                return v;
            }
            i = i + 1;
        }
        String::new()
    }

    /// Whether the file at `path` has the attribute `test`, as the first provider that
    /// probes files answers; `false` where none does.
    pub fn probe(&self, path: &str, test: FileTest) -> (r: bool)
        ensures
            self.len() == 0 ==> !r,
            exists|answers: Seq<Option<bool>>|
                answers.len() <= self.len() && r == first_answer(answers, 0),
    {
        let mut answers: Vec<Option<bool>> = Vec::new();
        let mut i: usize = 0;
        while i < self.providers.len()
            invariant
                i <= self.providers@.len(),
                answers@.len() == i,
            decreases self.providers@.len() - i,
        {
            let a = self.providers[i].probe(path, test);
            answers.push(a);
            i = i + 1;
            if a.is_some() {
                break;
            }
        }
        choose_answer(&answers)
    }

    /// Replaces every reference `%{NAME}` in `expr`, once, by the value of `NAME`:
    /// that of the first provider that knows it, the empty string where none does.
    pub fn replace_all(&mut self, expr: &str) -> (r: String)
        ensures
            r@ == old(self).expand(expr@),
            final(self).same_values(old(self)),
            final(self).len() == old(self).len(),
    {
        let s = chars_of(expr);
        let ghost o = *old(self);
        let ghost f = |k: Seq<char>| o.resolve(k);
        let mut out: Vec<char> = Vec::new();
        let mut i: usize = 0;
        proof {
            assert(out@ + expanded_with(s@, 0, f) =~= expanded_with(s@, 0, f));
        }
        while i < s.len()
            invariant
                i <= s@.len(),
                s@ == expr@,
                f == (|k: Seq<char>| o.resolve(k)),
                self.same_values(&o),
                out@ + expanded_with(s@, i as int, f) == expanded_with(s@, 0, f),
            decreases s@.len() - i,
        {
            let mut found = false;
            if i + 1 < s.len() && s[i] == '%' && s[i + 1] == '{' {
                let mut e: usize = i + 2;
                proof {
                    lemma_word_end_bounds(s@, i + 2);
                }
                while e < s.len() && is_word_exec(s[e])
                    invariant
                        i + 2 <= e <= s@.len(),
                        word_end(s@, i + 2) == word_end(s@, e as int),
                    decreases s@.len() - e,
                {
                    e = e + 1;
                }
                proof {
                    lemma_word_end_bounds(s@, e as int);
                }
                if e > i + 2 && e < s.len() && s[e] == '}' {
                    let name = string_of(sub_chars(&s, i + 2, e).as_slice());
                    let ghost mid = *self;
                    let v = self.fill(name.as_str());
                    proof {
                        assert(ref_end(s@, i as int) == Some(e + 1));
                        mid.lemma_same_resolve(&o);
                        assert(self.same_values(&o));
                        assert(v@ == f(s@.subrange(i + 2, e + 1 - 1)));
                    }
                    let ghost before = out@;
                    crate::text::extend_chars(&mut out, &chars_of(v.as_str()));
                    proof {
                        assert(out@ + expanded_with(s@, e + 1, f) =~= before + (v@ + expanded_with(
                            s@,
                            e + 1,
                            f,
                        )));
                    }
                    i = e + 1;
                    found = true;
                }
            }
            if !found {
                proof {
                    assert(ref_end(s@, i as int) is None);
                }
                let ghost before = out@;
                out.push(s[i]);
                proof {
                    assert(out@ + expanded_with(s@, i + 1, f) =~= before + (seq![s@[i as int]]
                        + expanded_with(s@, i + 1, f)));
                }
                i = i + 1;
            }
        }
        proof {
            assert(out@ + Seq::<char>::empty() =~= out@);
        }
        string_of(out.as_slice())
    }
}

/// The value of an optional field, the empty string where it is unset.
pub open spec fn opt_view(o: Option<String>) -> Seq<char> {
    match o {
        Some(s) => s@,
        None => Seq::empty(),
    }
}

fn opt_string(o: &Option<String>) -> (r: String)
    ensures
        r@ == opt_view(*o),
{
    match o {
        Some(s) => s.clone(),
        None => String::new(),
    }
}

proof fn lemma_server_keys_differ()
    ensures
        "DOCUMENT_ROOT"@ != "SERVER_ADMIN"@,
        "DOCUMENT_ROOT"@ != "SERVER_ADDR"@,
        "DOCUMENT_ROOT"@ != "SERVER_NAME"@,
        "DOCUMENT_ROOT"@ != "SERVER_PORT"@,
        "DOCUMENT_ROOT"@ != "SERVER_PROTOCOL"@,
        "DOCUMENT_ROOT"@ != "SERVER_SOFTWARE"@,
        "SERVER_ADMIN"@ != "SERVER_ADDR"@,
        "SERVER_ADMIN"@ != "SERVER_NAME"@,
        "SERVER_ADMIN"@ != "SERVER_PORT"@,
        "SERVER_ADMIN"@ != "SERVER_PROTOCOL"@,
        "SERVER_ADMIN"@ != "SERVER_SOFTWARE"@,
        "SERVER_ADDR"@ != "SERVER_NAME"@,
        "SERVER_ADDR"@ != "SERVER_PORT"@,
        "SERVER_ADDR"@ != "SERVER_PROTOCOL"@,
        "SERVER_ADDR"@ != "SERVER_SOFTWARE"@,
        "SERVER_NAME"@ != "SERVER_PORT"@,
        "SERVER_NAME"@ != "SERVER_PROTOCOL"@,
        "SERVER_NAME"@ != "SERVER_SOFTWARE"@,
        "SERVER_PORT"@ != "SERVER_PROTOCOL"@,
        "SERVER_PORT"@ != "SERVER_SOFTWARE"@,
        "SERVER_PROTOCOL"@ != "SERVER_SOFTWARE"@,
{
    reveal_strlit("DOCUMENT_ROOT");
    reveal_strlit("SERVER_ADMIN");
    reveal_strlit("SERVER_ADDR");
    reveal_strlit("SERVER_NAME");
    reveal_strlit("SERVER_PORT");
    reveal_strlit("SERVER_PROTOCOL");
    reveal_strlit("SERVER_SOFTWARE");
    assert("DOCUMENT_ROOT"@.len() != "SERVER_ADMIN"@.len());
    assert("DOCUMENT_ROOT"@.len() != "SERVER_ADDR"@.len());
    assert("DOCUMENT_ROOT"@.len() != "SERVER_NAME"@.len());
    assert("DOCUMENT_ROOT"@.len() != "SERVER_PORT"@.len());
    assert("DOCUMENT_ROOT"@.len() != "SERVER_PROTOCOL"@.len());
    assert("DOCUMENT_ROOT"@.len() != "SERVER_SOFTWARE"@.len());
    assert("SERVER_ADMIN"@.len() != "SERVER_ADDR"@.len());
    assert("SERVER_ADMIN"@.len() != "SERVER_NAME"@.len());
    assert("SERVER_ADMIN"@.len() != "SERVER_PORT"@.len());
    assert("SERVER_ADMIN"@.len() != "SERVER_PROTOCOL"@.len());
    assert("SERVER_ADMIN"@.len() != "SERVER_SOFTWARE"@.len());
    assert("SERVER_ADDR"@[7] != "SERVER_NAME"@[7]);
    assert("SERVER_ADDR"@[7] != "SERVER_PORT"@[7]);
    assert("SERVER_ADDR"@.len() != "SERVER_PROTOCOL"@.len());
    assert("SERVER_ADDR"@.len() != "SERVER_SOFTWARE"@.len());
    assert("SERVER_NAME"@[7] != "SERVER_PORT"@[7]);
    assert("SERVER_NAME"@.len() != "SERVER_PROTOCOL"@.len());
    assert("SERVER_NAME"@.len() != "SERVER_SOFTWARE"@.len());
    assert("SERVER_PORT"@.len() != "SERVER_PROTOCOL"@.len());
    assert("SERVER_PORT"@.len() != "SERVER_SOFTWARE"@.len());
    assert("SERVER_PROTOCOL"@[7] != "SERVER_SOFTWARE"@[7]);
}

/// Server attributes: the `SERVER_` variables and `DOCUMENT_ROOT`.
#[derive(Clone, Debug, Default)]
pub struct ServerCtx {
    document_root: Option<String>,
    server_admin: Option<String>,
    server_addr: Option<String>,
    server_name: Option<String>,
    server_port: Option<String>,
    server_protocol: Option<String>,
    server_software: Option<String>,
}

impl ServerCtx {
    /// The value that this provider gives for `key`, if it knows the key.
    pub closed spec fn value(&self, key: Seq<char>) -> Option<Seq<char>> {
        if key == "DOCUMENT_ROOT"@ {
            Some(opt_view(self.document_root))
        } else if key == "SERVER_ADMIN"@ {
            Some(opt_view(self.server_admin))
        } else if key == "SERVER_ADDR"@ {
            Some(opt_view(self.server_addr))
        } else if key == "SERVER_NAME"@ {
            Some(opt_view(self.server_name))
        } else if key == "SERVER_PORT"@ {
            Some(opt_view(self.server_port))
        } else if key == "SERVER_PROTOCOL"@ {
            Some(opt_view(self.server_protocol))
        } else if key == "SERVER_SOFTWARE"@ {
            Some(opt_view(self.server_software))
        } else {
            None
        }
    }

    /// The value for `key`, if this provider knows the key.
    pub fn get(&self, key: &str) -> (r: Option<String>)
        ensures
            r is Some <==> self.value(key@) is Some,
            r is Some ==> r->0@ == self.value(key@)->0,
    {
        let k = chars_of(key);
        if chars_eq(&k, "DOCUMENT_ROOT") {
            Some(opt_string(&self.document_root))
        } else if chars_eq(&k, "SERVER_ADMIN") {
            Some(opt_string(&self.server_admin))
        } else if chars_eq(&k, "SERVER_ADDR") {
            Some(opt_string(&self.server_addr))
        } else if chars_eq(&k, "SERVER_NAME") {
            Some(opt_string(&self.server_name))
        } else if chars_eq(&k, "SERVER_PORT") {
            Some(opt_string(&self.server_port))
        } else if chars_eq(&k, "SERVER_PROTOCOL") {
            Some(opt_string(&self.server_protocol))
        } else if chars_eq(&k, "SERVER_SOFTWARE") {
            Some(opt_string(&self.server_software))
        } else {
            None
        }
    }

    /// Assigns the value of `DOCUMENT_ROOT`.
    pub fn document_root(self, document_root: &str) -> (r: Self)
        ensures
            r.value("DOCUMENT_ROOT"@) == Some(document_root@),
            forall|key: Seq<char>| key != "DOCUMENT_ROOT"@ ==> r.value(key) == self.value(key),
    {
        proof {
            lemma_server_keys_differ();
        }
        let mut c = self;
        c.document_root = Some(String::from_str(document_root));
        c
    }

    /// Assigns the value of `SERVER_ADMIN`.
    pub fn server_admin(self, server_admin: &str) -> (r: Self)
        ensures
            r.value("SERVER_ADMIN"@) == Some(server_admin@),
            forall|key: Seq<char>| key != "SERVER_ADMIN"@ ==> r.value(key) == self.value(key),
    {
        proof {
            lemma_server_keys_differ();
        }
        let mut c = self;
        c.server_admin = Some(String::from_str(server_admin));
        c
    }

    /// Assigns the value of `SERVER_NAME`.
    pub fn server_name(self, server_name: &str) -> (r: Self)
        ensures
            r.value("SERVER_NAME"@) == Some(server_name@),
            forall|key: Seq<char>| key != "SERVER_NAME"@ ==> r.value(key) == self.value(key),
    {
        proof {
            lemma_server_keys_differ();
        }
        let mut c = self;
        c.server_name = Some(String::from_str(server_name));
        c
    }

    /// Assigns the value of `SERVER_PROTOCOL`.
    pub fn server_protocol(self, server_protocol: &str) -> (r: Self)
        ensures
            r.value("SERVER_PROTOCOL"@) == Some(server_protocol@),
            forall|key: Seq<char>| key != "SERVER_PROTOCOL"@ ==> r.value(key) == self.value(key),
    {
        proof {
            lemma_server_keys_differ();
        }
        let mut c = self;
        c.server_protocol = Some(String::from_str(server_protocol));
        c
    }

    /// Assigns the value of `SERVER_SOFTWARE`.
    pub fn server_software(self, server_software: &str) -> (r: Self)
        ensures
            r.value("SERVER_SOFTWARE"@) == Some(server_software@),
            forall|key: Seq<char>| key != "SERVER_SOFTWARE"@ ==> r.value(key) == self.value(key),
    {
        proof {
            lemma_server_keys_differ();
        }
        let mut c = self;
        c.server_software = Some(String::from_str(server_software));
        c
    }

    /// Whether `SERVER_NAME` has been assigned.
    pub closed spec fn has_name(&self) -> bool {
        self.server_name is Some
    }

    /// Assigns `SERVER_ADDR` and `SERVER_PORT` from a resolved socket address, written
    /// out as `addr`, with host part `ip` and port `port`; `SERVER_NAME` becomes `ip`
    /// unless it is already set.
    pub fn server_addr(self, addr: &str, ip: &str, port: u16) -> (r: Self)
        ensures
            r.value("SERVER_ADDR"@) == Some(addr@),
            r.value("SERVER_PORT"@) == Some(decimal_chars(port as nat)),
            !self.has_name() ==> r.value("SERVER_NAME"@) == Some(ip@),
            self.has_name() ==> r.value("SERVER_NAME"@) == self.value("SERVER_NAME"@),
            forall|key: Seq<char>|
                key != "SERVER_ADDR"@ && key != "SERVER_PORT"@ && key != "SERVER_NAME"@
                    ==> r.value(key) == self.value(key),
    {
        proof {
            lemma_server_keys_differ();
        }
        let mut c = self;
        c.server_addr = Some(String::from_str(addr));
        if c.server_name.is_none() {
            c.server_name = Some(String::from_str(ip));
        }
        c.server_port = Some(decimal_string(port as u64));
        c
    }

    /// As [`ServerCtx::server_addr`] where an address is given; unchanged otherwise.
    pub fn maybe_server_addr(self, addr: Option<(&str, &str, u16)>) -> (r: Self)
        ensures
            addr is None ==> r == self,
            addr matches Some((a, _, p)) ==> r.value("SERVER_ADDR"@) == Some(a@) && r.value(
                "SERVER_PORT"@,
            ) == Some(decimal_chars(p as nat)),
    {
        match addr {
            Some((a, ip, port)) => self.server_addr(a, ip, port),
            None => self,
        }
    }
}

proof fn lemma_request_keys_differ()
    ensures
        "AUTH_TYPE"@ != "IPV6"@,
        "AUTH_TYPE"@ != "PATH_INFO"@,
        "AUTH_TYPE"@ != "QUERY_STRING"@,
        "AUTH_TYPE"@ != "REMOTE_ADDR"@,
        "AUTH_TYPE"@ != "REMOTE_HOST"@,
        "AUTH_TYPE"@ != "REMOTE_PORT"@,
        "AUTH_TYPE"@ != "REQUEST_METHOD"@,
        "AUTH_TYPE"@ != "REQUEST_URI"@,
        "IPV6"@ != "PATH_INFO"@,
        "IPV6"@ != "QUERY_STRING"@,
        "IPV6"@ != "REMOTE_ADDR"@,
        "IPV6"@ != "REMOTE_HOST"@,
        "IPV6"@ != "REMOTE_PORT"@,
        "IPV6"@ != "REQUEST_METHOD"@,
        "IPV6"@ != "REQUEST_URI"@,
        "PATH_INFO"@ != "QUERY_STRING"@,
        "PATH_INFO"@ != "REMOTE_ADDR"@,
        "PATH_INFO"@ != "REMOTE_HOST"@,
        "PATH_INFO"@ != "REMOTE_PORT"@,
        "PATH_INFO"@ != "REQUEST_METHOD"@,
        "PATH_INFO"@ != "REQUEST_URI"@,
        "QUERY_STRING"@ != "REMOTE_ADDR"@,
        "QUERY_STRING"@ != "REMOTE_HOST"@,
        "QUERY_STRING"@ != "REMOTE_PORT"@,
        "QUERY_STRING"@ != "REQUEST_METHOD"@,
        "QUERY_STRING"@ != "REQUEST_URI"@,
        "REMOTE_ADDR"@ != "REMOTE_HOST"@,
        "REMOTE_ADDR"@ != "REMOTE_PORT"@,
        "REMOTE_ADDR"@ != "REQUEST_METHOD"@,
        "REMOTE_ADDR"@ != "REQUEST_URI"@,
        "REMOTE_HOST"@ != "REMOTE_PORT"@,
        "REMOTE_HOST"@ != "REQUEST_METHOD"@,
        "REMOTE_HOST"@ != "REQUEST_URI"@,
        "REMOTE_PORT"@ != "REQUEST_METHOD"@,
        "REMOTE_PORT"@ != "REQUEST_URI"@,
        "REQUEST_METHOD"@ != "REQUEST_URI"@,
{
    reveal_strlit("AUTH_TYPE");
    reveal_strlit("IPV6");
    reveal_strlit("PATH_INFO");
    reveal_strlit("QUERY_STRING");
    reveal_strlit("REMOTE_ADDR");
    reveal_strlit("REMOTE_HOST");
    reveal_strlit("REMOTE_PORT");
    reveal_strlit("REQUEST_METHOD");
    reveal_strlit("REQUEST_URI");
    assert("AUTH_TYPE"@.len() != "IPV6"@.len());
    assert("AUTH_TYPE"@[0] != "PATH_INFO"@[0]);
    assert("AUTH_TYPE"@.len() != "QUERY_STRING"@.len());
    assert("AUTH_TYPE"@.len() != "REMOTE_ADDR"@.len());
    assert("AUTH_TYPE"@.len() != "REMOTE_HOST"@.len());
    assert("AUTH_TYPE"@.len() != "REMOTE_PORT"@.len());
    assert("AUTH_TYPE"@.len() != "REQUEST_METHOD"@.len());
    assert("AUTH_TYPE"@.len() != "REQUEST_URI"@.len());
    assert("IPV6"@.len() != "PATH_INFO"@.len());
    assert("IPV6"@.len() != "QUERY_STRING"@.len());
    assert("IPV6"@.len() != "REMOTE_ADDR"@.len());
    assert("IPV6"@.len() != "REMOTE_HOST"@.len());
    assert("IPV6"@.len() != "REMOTE_PORT"@.len());
    assert("IPV6"@.len() != "REQUEST_METHOD"@.len());
    assert("IPV6"@.len() != "REQUEST_URI"@.len());
    assert("PATH_INFO"@.len() != "QUERY_STRING"@.len());
    assert("PATH_INFO"@.len() != "REMOTE_ADDR"@.len());
    assert("PATH_INFO"@.len() != "REMOTE_HOST"@.len());
    assert("PATH_INFO"@.len() != "REMOTE_PORT"@.len());
    assert("PATH_INFO"@.len() != "REQUEST_METHOD"@.len());
    assert("PATH_INFO"@.len() != "REQUEST_URI"@.len());
    assert("QUERY_STRING"@.len() != "REMOTE_ADDR"@.len());
    assert("QUERY_STRING"@.len() != "REMOTE_HOST"@.len());
    assert("QUERY_STRING"@.len() != "REMOTE_PORT"@.len());
    assert("QUERY_STRING"@.len() != "REQUEST_METHOD"@.len());
    assert("QUERY_STRING"@.len() != "REQUEST_URI"@.len());
    assert("REMOTE_ADDR"@[7] != "REMOTE_HOST"@[7]);
    assert("REMOTE_ADDR"@[7] != "REMOTE_PORT"@[7]);
    assert("REMOTE_ADDR"@.len() != "REQUEST_METHOD"@.len());
    assert("REMOTE_ADDR"@[2] != "REQUEST_URI"@[2]);
    assert("REMOTE_HOST"@[7] != "REMOTE_PORT"@[7]);
    assert("REMOTE_HOST"@.len() != "REQUEST_METHOD"@.len());
    assert("REMOTE_HOST"@[2] != "REQUEST_URI"@[2]);
    assert("REMOTE_PORT"@.len() != "REQUEST_METHOD"@.len());
    assert("REMOTE_PORT"@[2] != "REQUEST_URI"@[2]);
    assert("REQUEST_METHOD"@.len() != "REQUEST_URI"@.len());
}

/// Request attributes: the `REMOTE_` variables and others of the request.
#[derive(Clone, Debug, Default)]
pub struct RequestCtx {
    auth_type: Option<String>,
    ipv6: Option<String>,
    path_info: Option<String>,
    query_string: Option<String>,
    remote_addr: Option<String>,
    remote_host: Option<String>,
    remote_port: Option<String>,
    request_method: Option<String>,
    request_uri: Option<String>,
}

impl RequestCtx {
    /// The value that this provider gives for `key`, if it knows the key.
    pub closed spec fn value(&self, key: Seq<char>) -> Option<Seq<char>> {
        if key == "AUTH_TYPE"@ {
            Some(opt_view(self.auth_type))
        } else if key == "IPV6"@ {
            Some(opt_view(self.ipv6))
        } else if key == "PATH_INFO"@ {
            Some(opt_view(self.path_info))
        } else if key == "QUERY_STRING"@ {
            Some(opt_view(self.query_string))
        } else if key == "REMOTE_ADDR"@ {
            Some(opt_view(self.remote_addr))
        } else if key == "REMOTE_HOST"@ {
            Some(opt_view(self.remote_host))
        } else if key == "REMOTE_PORT"@ {
            Some(opt_view(self.remote_port))
        } else if key == "REQUEST_METHOD"@ {
            Some(opt_view(self.request_method))
        } else if key == "REQUEST_URI"@ {
            Some(opt_view(self.request_uri))
        } else {
            None
        }
    }

    /// The value for `key`, if this provider knows the key.
    pub fn get(&self, key: &str) -> (r: Option<String>)
        ensures
            r is Some <==> self.value(key@) is Some,
            r is Some ==> r->0@ == self.value(key@)->0,
    {
        let k = chars_of(key);
        if chars_eq(&k, "AUTH_TYPE") {
            Some(opt_string(&self.auth_type))
        } else if chars_eq(&k, "IPV6") {
            Some(opt_string(&self.ipv6))
        } else if chars_eq(&k, "PATH_INFO") {
            Some(opt_string(&self.path_info))
        } else if chars_eq(&k, "QUERY_STRING") {
            Some(opt_string(&self.query_string))
        } else if chars_eq(&k, "REMOTE_ADDR") {
            Some(opt_string(&self.remote_addr))
        } else if chars_eq(&k, "REMOTE_HOST") {
            Some(opt_string(&self.remote_host))
        } else if chars_eq(&k, "REMOTE_PORT") {
            Some(opt_string(&self.remote_port))
        } else if chars_eq(&k, "REQUEST_METHOD") {
            Some(opt_string(&self.request_method))
        } else if chars_eq(&k, "REQUEST_URI") {
            Some(opt_string(&self.request_uri))
        } else {
            None
        }
    }

    /// Assigns the value of `AUTH_TYPE`.
    pub fn auth_type(self, auth_type: &str) -> (r: Self)
        ensures
            r.value("AUTH_TYPE"@) == Some(auth_type@),
            forall|key: Seq<char>| key != "AUTH_TYPE"@ ==> r.value(key) == self.value(key),
    {
        proof {
            lemma_request_keys_differ();
        }
        let mut c = self;
        c.auth_type = Some(String::from_str(auth_type));
        c
    }

    /// Assigns the value of `IPV6`.
    pub fn ipv6(self, ipv6: &str) -> (r: Self)
        ensures
            r.value("IPV6"@) == Some(ipv6@),
            forall|key: Seq<char>| key != "IPV6"@ ==> r.value(key) == self.value(key),
    {
        proof {
            lemma_request_keys_differ();
        }
        let mut c = self;
        c.ipv6 = Some(String::from_str(ipv6));
        c
    }

    /// Assigns the value of `PATH_INFO`.
    pub fn path_info(self, path_info: &str) -> (r: Self)
        ensures
            r.value("PATH_INFO"@) == Some(path_info@),
            forall|key: Seq<char>| key != "PATH_INFO"@ ==> r.value(key) == self.value(key),
    {
        proof {
            lemma_request_keys_differ();
        }
        let mut c = self;
        c.path_info = Some(String::from_str(path_info));
        c
    }

    /// Assigns the value of `QUERY_STRING`.
    pub fn query_string(self, query_string: &str) -> (r: Self)
        ensures
            r.value("QUERY_STRING"@) == Some(query_string@),
            forall|key: Seq<char>| key != "QUERY_STRING"@ ==> r.value(key) == self.value(key),
    {
        proof {
            lemma_request_keys_differ();
        }
        let mut c = self;
        c.query_string = Some(String::from_str(query_string));
        c
    }

    /// Assigns the value of `REQUEST_METHOD`.
    pub fn request_method(self, request_method: &str) -> (r: Self)
        ensures
            r.value("REQUEST_METHOD"@) == Some(request_method@),
            forall|key: Seq<char>| key != "REQUEST_METHOD"@ ==> r.value(key) == self.value(key),
    {
        proof {
            lemma_request_keys_differ();
        }
        let mut c = self;
        c.request_method = Some(String::from_str(request_method));
        c
    }

    /// Assigns the value of `REQUEST_URI`.
    pub fn request_uri(self, request_uri: &str) -> (r: Self)
        ensures
            r.value("REQUEST_URI"@) == Some(request_uri@),
            forall|key: Seq<char>| key != "REQUEST_URI"@ ==> r.value(key) == self.value(key),
    {
        proof {
            lemma_request_keys_differ();
        }
        let mut c = self;
        c.request_uri = Some(String::from_str(request_uri));
        c
    }

    /// Assigns `REMOTE_ADDR`, `REMOTE_HOST` and `REMOTE_PORT` from a resolved socket
    /// address, written out as `addr`, with host part `ip` and port `port`.
    pub fn remote_addr(self, addr: &str, ip: &str, port: u16) -> (r: Self)
        ensures
            r.value("REMOTE_ADDR"@) == Some(addr@),
            r.value("REMOTE_HOST"@) == Some(ip@),
            r.value("REMOTE_PORT"@) == Some(decimal_chars(port as nat)),
            forall|key: Seq<char>|
                key != "REMOTE_ADDR"@ && key != "REMOTE_PORT"@ && key != "REMOTE_HOST"@
                    ==> r.value(key) == self.value(key),
    {
        proof {
            lemma_request_keys_differ();
        }
        let mut c = self;
        c.remote_addr = Some(String::from_str(addr));
        c.remote_host = Some(String::from_str(ip));
        c.remote_port = Some(decimal_string(port as u64));
        c
    }

    /// As [`RequestCtx::remote_addr`] where an address is given; unchanged otherwise.
    pub fn maybe_remote_addr(self, addr: Option<(&str, &str, u16)>) -> (r: Self)
        ensures
            addr is None ==> r == self,
            addr matches Some((a, _, p)) ==> r.value("REMOTE_ADDR"@) == Some(a@) && r.value(
                "REMOTE_PORT"@,
            ) == Some(decimal_chars(p as nat)),
    {
        match addr {
            Some((a, ip, port)) => self.remote_addr(a, ip, port),
            None => self,
        }
    }
}

/// Environment variables, named with the prefix `ENV:` (in any case).
#[derive(Clone, Debug, Default)]
pub struct EnvCtx {
    names: Vec<String>,
    values: Vec<String>,
}

/// The value of the first variable called `name`.
pub open spec fn env_lookup(names: Seq<String>, values: Seq<String>, name: Seq<char>, k: int) -> Option<
    Seq<char>,
>
    decreases names.len() - k,
{
    if k < 0 || k >= names.len() || k >= values.len() {
        None
    } else if names[k]@ == name {
        Some(values[k]@)
    } else {
        env_lookup(names, values, name, k + 1)
    }
}

impl EnvCtx {
    /// A provider that knows the variables `names[i] = values[i]`.
    pub fn from_vars(names: Vec<String>, values: Vec<String>) -> (r: Self)
        requires
            names@.len() == values@.len(),
        ensures
            forall|key: Seq<char>| #[trigger] r.value(key) == env_value(names@, values@, key),
    {
        EnvCtx { names, values }
    }

    /// The value that this provider gives for `key`, if it knows the key.
    pub closed spec fn value(&self, key: Seq<char>) -> Option<Seq<char>> {
        env_value(self.names@, self.values@, key)
    }

    /// The value for `key`, if this provider knows the key.
    pub fn get(&self, key: &str) -> (r: Option<String>)
        ensures
            r is Some <==> self.value(key@) is Some,
            r is Some ==> r->0@ == self.value(key@)->0,
    {
        let k = chars_of(key);
        let i = match crate::text::find_char(&k, ':') {
            Some(i) => i,
            None => return None,
        };
        let prefix = crate::text::sub_string(&k, 0, i);
        let lower = lowercase(prefix.as_str());
        let lc = chars_of(lower.as_str());
        if !chars_eq(&lc, "env") {
            return None;
        }
        assert(i < k.len());
        let name = crate::text::sub_chars(&k, i + 1, k.len());
        let mut j: usize = 0;
        while j < self.names.len() && j < self.values.len()
            invariant
                j <= self.names@.len(),
                self.value(key@) == env_lookup(
                    self.names@,
                    self.values@,
                    name@,
                    j as int,
                ),
            decreases self.names@.len() - j,
        {
            let n = chars_of(self.names[j].as_str());
            if crate::text::chars_eq_chars(&n, &name) {
                return Some(self.values[j].clone());
            }
            j = j + 1;
        }
        None
    }
}

/// The value of an environment reference `prefix:NAME`: the variable `NAME`, where the
/// prefix lowercases to `env`.
pub open spec fn env_value(names: Seq<String>, values: Seq<String>, key: Seq<char>) -> Option<
    Seq<char>,
> {
    match crate::text::index_of(key, ':') {
        None => None,
        Some(i) => if lower_of(key.subrange(0, i)) == "env"@ {
            env_lookup(names, values, key.subrange(i + 1, key.len() as int), 0)
        } else {
            None
        },
    }
}

/// Relies on `chrono::Local::now` and `DateTime::format`: the local time now, written
/// with the given format. It depends on the clock, so nothing is stated of it.
#[verifier::external_body]
fn local_time_now(fmt: &str) -> (r: String)
    requires
        fmt@ == "%Y %m %d %H %M %S %A"@,
{
    chrono::Local::now().format(fmt).to_string()
}

proof fn lemma_date_keys_differ()
    ensures
        "TIME_YEAR"@ != "TIME_MONTH"@,
        "TIME_YEAR"@ != "TIME_DAY"@,
        "TIME_YEAR"@ != "TIME_HOUR"@,
        "TIME_YEAR"@ != "TIME_MIN"@,
        "TIME_YEAR"@ != "TIME_SEC"@,
        "TIME_YEAR"@ != "TIME_WDAY"@,
        "TIME_YEAR"@ != "TIME"@,
        "TIME_MONTH"@ != "TIME_DAY"@,
        "TIME_MONTH"@ != "TIME_HOUR"@,
        "TIME_MONTH"@ != "TIME_MIN"@,
        "TIME_MONTH"@ != "TIME_SEC"@,
        "TIME_MONTH"@ != "TIME_WDAY"@,
        "TIME_MONTH"@ != "TIME"@,
        "TIME_DAY"@ != "TIME_HOUR"@,
        "TIME_DAY"@ != "TIME_MIN"@,
        "TIME_DAY"@ != "TIME_SEC"@,
        "TIME_DAY"@ != "TIME_WDAY"@,
        "TIME_DAY"@ != "TIME"@,
        "TIME_HOUR"@ != "TIME_MIN"@,
        "TIME_HOUR"@ != "TIME_SEC"@,
        "TIME_HOUR"@ != "TIME_WDAY"@,
        "TIME_HOUR"@ != "TIME"@,
        "TIME_MIN"@ != "TIME_SEC"@,
        "TIME_MIN"@ != "TIME_WDAY"@,
        "TIME_MIN"@ != "TIME"@,
        "TIME_SEC"@ != "TIME_WDAY"@,
        "TIME_SEC"@ != "TIME"@,
        "TIME_WDAY"@ != "TIME"@,
{
    reveal_strlit("TIME_YEAR");
    reveal_strlit("TIME_MONTH");
    reveal_strlit("TIME_DAY");
    reveal_strlit("TIME_HOUR");
    reveal_strlit("TIME_MIN");
    reveal_strlit("TIME_SEC");
    reveal_strlit("TIME_WDAY");
    reveal_strlit("TIME");
    assert("TIME_YEAR"@.len() != "TIME_MONTH"@.len());
    assert("TIME_YEAR"@.len() != "TIME_DAY"@.len());
    assert("TIME_YEAR"@[5] != "TIME_HOUR"@[5]);
    assert("TIME_YEAR"@.len() != "TIME_MIN"@.len());
    assert("TIME_YEAR"@.len() != "TIME_SEC"@.len());
    assert("TIME_YEAR"@[5] != "TIME_WDAY"@[5]);
    assert("TIME_YEAR"@.len() != "TIME"@.len());
    assert("TIME_MONTH"@.len() != "TIME_DAY"@.len());
    assert("TIME_MONTH"@.len() != "TIME_HOUR"@.len());
    assert("TIME_MONTH"@.len() != "TIME_MIN"@.len());
    assert("TIME_MONTH"@.len() != "TIME_SEC"@.len());
    assert("TIME_MONTH"@.len() != "TIME_WDAY"@.len());
    assert("TIME_MONTH"@.len() != "TIME"@.len());
    assert("TIME_DAY"@.len() != "TIME_HOUR"@.len());
    assert("TIME_DAY"@[5] != "TIME_MIN"@[5]);
    assert("TIME_DAY"@[5] != "TIME_SEC"@[5]);
    assert("TIME_DAY"@.len() != "TIME_WDAY"@.len());
    assert("TIME_DAY"@.len() != "TIME"@.len());
    assert("TIME_HOUR"@.len() != "TIME_MIN"@.len());
    assert("TIME_HOUR"@.len() != "TIME_SEC"@.len());
    assert("TIME_HOUR"@[5] != "TIME_WDAY"@[5]);
    assert("TIME_HOUR"@.len() != "TIME"@.len());
    assert("TIME_MIN"@[5] != "TIME_SEC"@[5]);
    assert("TIME_MIN"@.len() != "TIME_WDAY"@.len());
    assert("TIME_MIN"@.len() != "TIME"@.len());
    assert("TIME_SEC"@.len() != "TIME_WDAY"@.len());
    assert("TIME_SEC"@.len() != "TIME"@.len());
    assert("TIME_WDAY"@.len() != "TIME"@.len());
}

/// The date and time: the `TIME_` variables and `TIME`, taken once.
#[derive(Clone, Debug)]
pub struct DateCtx {
    time_year: String,
    time_month: String,
    time_day: String,
    time_hour: String,
    time_min: String,
    time_sec: String,
    time_wday: String,
    time: String,
}

/// `TIME` as it follows from its parts: `YYYY-MM-DD HH:MM:SS`.
pub open spec fn time_of(
    y: Seq<char>,
    mo: Seq<char>,
    d: Seq<char>,
    h: Seq<char>,
    mi: Seq<char>,
    s: Seq<char>,
) -> Seq<char> {
    y + seq!['-'] + mo + seq!['-'] + d + seq![' '] + h + seq![':'] + mi + seq![':'] + s
}

impl DateCtx {
    /// The value that this provider gives for `key`, if it knows the key.
    pub closed spec fn value(&self, key: Seq<char>) -> Option<Seq<char>> {
        if key == "TIME_YEAR"@ {
            Some(self.time_year@)
        } else if key == "TIME_MONTH"@ {
            Some(self.time_month@)
        } else if key == "TIME_DAY"@ {
            Some(self.time_day@)
        } else if key == "TIME_HOUR"@ {
            Some(self.time_hour@)
        } else if key == "TIME_MIN"@ {
            Some(self.time_min@)
        } else if key == "TIME_SEC"@ {
            Some(self.time_sec@)
        } else if key == "TIME_WDAY"@ {
            Some(self.time_wday@)
        } else if key == "TIME"@ {
            Some(self.time@)
        } else {
            None
        }
    }

    /// A provider for the given parts of a date and time.
    pub fn from_parts(
        year: &str,
        month: &str,
        day: &str,
        hour: &str,
        min: &str,
        sec: &str,
        wday: &str,
    ) -> (r: Self)
        ensures
            r.value("TIME_YEAR"@) == Some(year@),
            r.value("TIME_MONTH"@) == Some(month@),
            r.value("TIME_DAY"@) == Some(day@),
            r.value("TIME_HOUR"@) == Some(hour@),
            r.value("TIME_MIN"@) == Some(min@),
            r.value("TIME_SEC"@) == Some(sec@),
            r.value("TIME_WDAY"@) == Some(wday@),
            r.value("TIME"@) == Some(time_of(year@, month@, day@, hour@, min@, sec@)),
    {
        proof {
            lemma_date_keys_differ();
        }
        let mut t: Vec<char> = chars_of(year);
        t.push('-');
        crate::text::extend_chars(&mut t, &chars_of(month));
        t.push('-');
        crate::text::extend_chars(&mut t, &chars_of(day));
        t.push(' ');
        crate::text::extend_chars(&mut t, &chars_of(hour));
        t.push(':');
        crate::text::extend_chars(&mut t, &chars_of(min));
        t.push(':');
        crate::text::extend_chars(&mut t, &chars_of(sec));
        proof {
            assert(t@ =~= time_of(year@, month@, day@, hour@, min@, sec@));
        }
        DateCtx {
            time_year: String::from_str(year),
            time_month: String::from_str(month),
            time_day: String::from_str(day),
            time_hour: String::from_str(hour),
            time_min: String::from_str(min),
            time_sec: String::from_str(sec),
            time_wday: String::from_str(wday),
            time: string_of(t.as_slice()),
        }
    }

    /// Whether every `TIME_` key has a value and `TIME` is made of them.
    pub open spec fn time_consistent(&self) -> bool {
        &&& self.value("TIME_YEAR"@) is Some
        &&& self.value("TIME_MONTH"@) is Some
        &&& self.value("TIME_DAY"@) is Some
        &&& self.value("TIME_HOUR"@) is Some
        &&& self.value("TIME_MIN"@) is Some
        &&& self.value("TIME_SEC"@) is Some
        &&& self.value("TIME_WDAY"@) is Some
        &&& self.value("TIME"@) == Some(
            time_of(
                self.value("TIME_YEAR"@)->0,
                self.value("TIME_MONTH"@)->0,
                self.value("TIME_DAY"@)->0,
                self.value("TIME_HOUR"@)->0,
                self.value("TIME_MIN"@)->0,
                self.value("TIME_SEC"@)->0,
            ),
        )
    }

    /// A provider for the local date and time now.
    pub fn new() -> (r: Self)
        ensures
            r.time_consistent(),
    {
        let stamp = local_time_now("%Y %m %d %H %M %S %A");
        let sc = chars_of(stamp.as_str());
        let parts = crate::text::split_chars(&sc, ' ');
        let mut fields: Vec<String> = Vec::new();
        let mut i: usize = 0;
        while i < 7
            invariant
                fields@.len() == i,
                i <= 7,
            decreases 7 - i,
        {
            if i < parts.len() {
                fields.push(string_of(parts[i].as_slice()));
            } else {
                fields.push(String::new());
            }
            i = i + 1;
        }
        DateCtx::from_parts(
            fields[0].as_str(),
            fields[1].as_str(),
            fields[2].as_str(),
            fields[3].as_str(),
            fields[4].as_str(),
            fields[5].as_str(),
            fields[6].as_str(),
        )
    }

    /// The value for `key`, if this provider knows the key.
    pub fn get(&self, key: &str) -> (r: Option<String>)
        ensures
            r is Some <==> self.value(key@) is Some,
            r is Some ==> r->0@ == self.value(key@)->0,
    {
        let k = chars_of(key);
        if chars_eq(&k, "TIME_YEAR") {
            Some(self.time_year.clone())
        } else if chars_eq(&k, "TIME_MONTH") {
            Some(self.time_month.clone())
        } else if chars_eq(&k, "TIME_DAY") {
            Some(self.time_day.clone())
        } else if chars_eq(&k, "TIME_HOUR") {
            Some(self.time_hour.clone())
        } else if chars_eq(&k, "TIME_MIN") {
            Some(self.time_min.clone())
        } else if chars_eq(&k, "TIME_SEC") {
            Some(self.time_sec.clone())
        } else if chars_eq(&k, "TIME_WDAY") {
            Some(self.time_wday.clone())
        } else if chars_eq(&k, "TIME") {
            Some(self.time.clone())
        } else {
            None
        }
    }
}

impl ContextProvider for EnvCtx {
    open spec fn provides(&self, key: Seq<char>) -> Option<Seq<char>> {
        self.value(key)
    }

    fn fill(&mut self, key: &str) -> (r: Option<String>) {
        self.get(key)
    }

    fn probe(&self, path: &str, test: FileTest) -> Option<bool> {
        None
    }
}

impl ContextProvider for DateCtx {
    open spec fn provides(&self, key: Seq<char>) -> Option<Seq<char>> {
        self.value(key)
    }

    fn fill(&mut self, key: &str) -> (r: Option<String>) {
        self.get(key)
    }

    fn probe(&self, path: &str, test: FileTest) -> Option<bool> {
        None
    }
}

impl ContextProvider for ServerCtx {
    open spec fn provides(&self, key: Seq<char>) -> Option<Seq<char>> {
        self.value(key)
    }

    fn fill(&mut self, key: &str) -> (r: Option<String>) {
        self.get(key)
    }

    fn probe(&self, path: &str, test: FileTest) -> Option<bool> {
        None
    }
}

impl ContextProvider for RequestCtx {
    open spec fn provides(&self, key: Seq<char>) -> Option<Seq<char>> {
        self.value(key)
    }

    fn fill(&mut self, key: &str) -> (r: Option<String>) {
        self.get(key)
    }

    fn probe(&self, path: &str, test: FileTest) -> Option<bool> {
        None
    }
}

/// Answers file tests from a file system; implemented outside the library, where
/// files can be read.
pub trait FileProbe {
    /// Whether the file at `path` has the attribute `test`; `false` where it cannot
    /// be read.
    fn probe(&self, path: &str, test: FileTest) -> bool;
}

/// A file system in which no file is found.
#[derive(Clone, Copy, Debug, Default)]
pub struct NoFiles;

impl FileProbe for NoFiles {
    fn probe(&self, path: &str, test: FileTest) -> bool {
        false
    }
}

/// Any of the providers of this library, and one that answers file tests, so that
/// they can share one context.
#[derive(Clone, Debug)]
pub enum Provider<F = NoFiles> {
    Env(EnvCtx),
    Date(DateCtx),
    Server(ServerCtx),
    Request(RequestCtx),
    Files(F),
}

impl<F> Provider<F> {
    /// The value that this provider gives for `key`, if it knows the key.
    pub open spec fn value(&self, key: Seq<char>) -> Option<Seq<char>> {
        match self {
            Provider::Env(p) => p.value(key),
            Provider::Date(p) => p.value(key),
            Provider::Server(p) => p.value(key),
            Provider::Request(p) => p.value(key),
            Provider::Files(_) => None,
        }
    }

    /// The value for `key`, if this provider knows the key.
    pub fn get(&self, key: &str) -> (r: Option<String>)
        ensures
            r is Some <==> self.value(key@) is Some,
            r is Some ==> r->0@ == self.value(key@)->0,
    {
        match self {
            Provider::Env(p) => p.get(key),
            Provider::Date(p) => p.get(key),
            Provider::Server(p) => p.get(key),
            Provider::Request(p) => p.get(key),
            Provider::Files(_) => None,
        }
    }
}

impl<F: FileProbe> ContextProvider for Provider<F> {
    open spec fn provides(&self, key: Seq<char>) -> Option<Seq<char>> {
        self.value(key)
    }

    fn fill(&mut self, key: &str) -> (r: Option<String>) {
        self.get(key)
    }

    fn probe(&self, path: &str, test: FileTest) -> Option<bool> {
        match self {
            Provider::Files(f) => Some(f.probe(path, test)),
            _ => None,
        }
    }
}

impl<F: FileProbe> EngineCtx<Provider<F>> {
    /// Adds the environment variables `names[i] = values[i]`, reached as `ENV:NAME`.
    pub fn with_env(self, names: Vec<String>, values: Vec<String>) -> (r: Self)
        requires
            names@.len() == values@.len(),
        ensures
            r.len() == self.len() + 1,
            forall|key: Seq<char>| #[trigger] r.provider(self.len() as int).value(key) == env_value(names@, values@, key),
            forall|i: int| 0 <= i < self.len() ==> r.provider(i) == self.provider(i),
    {
        self.with_ctx(Provider::Env(EnvCtx::from_vars(names, values)))
    }

    /// Adds the local date and time now.
    pub fn with_time(self) -> (r: Self)
        ensures
            r.len() == self.len() + 1,
            r.provider(self.len() as int) is Date,
            r.provider(self.len() as int)->Date_0.time_consistent(),
            forall|i: int| 0 <= i < self.len() ==> r.provider(i) == self.provider(i),
    {
        self.with_ctx(Provider::Date(DateCtx::new()))
    }
}

} // verus!
