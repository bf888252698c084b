//! Resolution of the flags that precede each pattern on the command line.
//!
//! Lower-case flags apply to the next pattern only; upper-case (global) flags
//! also become the default for every later pattern. Matcher kind and polarity
//! are two independent channels.
use vstd::prelude::*;

verus! {

/// The matcher a pattern is compiled with.
#[derive(Clone, Copy, Debug, PartialEq, Eq, Structural)]
pub enum Kind {
    Glob,
    Regex,
}

/// Whether files that match a pattern are kept or dropped.
#[derive(Clone, Copy, Debug, PartialEq, Eq, Structural)]
pub enum Polarity {
    Accept,
    Reject,
}

/// A flag seen on the command line; the payload is `true` for the global
/// (upper-case) form.
#[derive(Clone, Copy, Debug, PartialEq, Eq, Structural)]
pub enum Flag {
    Glob(bool),
    Regex(bool),
    Accept(bool),
    Reject(bool),
}

/// One item of the ordered stream of flags and patterns.
#[derive(Debug)]
pub enum Token {
    Flag(Flag),
    Pattern(String),
}

/// A pattern with the kind and polarity that its flags gave it.
#[derive(Debug)]
pub struct ResolvedPattern {
    pub text: String,
    pub kind: Kind,
    pub polarity: Polarity,
}

impl View for ResolvedPattern {
    type V = (Seq<char>, Kind, Polarity);

    open spec fn view(&self) -> (Seq<char>, Kind, Polarity) {
        (self.text@, self.kind, self.polarity)
    }
}

/// The resolver's state: the two defaults, and the flags seen since the last
/// pattern.
#[derive(Clone, Copy, Debug)]
pub struct Scope {
    pub default_kind: Kind,
    pub default_polarity: Polarity,
    pub pending_kind: Option<Kind>,
    pub pending_polarity: Option<Polarity>,
}

impl Flag {
    pub open spec fn is_global(self) -> bool {
        match self {
            Flag::Glob(g) => g,
            Flag::Regex(g) => g,
            Flag::Accept(g) => g,
            Flag::Reject(g) => g,
        }
    }

    /// The flag selects a matcher kind (as opposed to a polarity).
    pub open spec fn is_kind_flag(self) -> bool {
        self is Glob || self is Regex
    }

    /// The kind a kind flag selects.
    pub open spec fn kind(self) -> Kind {
        if self is Glob {
            Kind::Glob
        } else {
            Kind::Regex
        }
    }

    /// The polarity a polarity flag selects.
    pub open spec fn polarity(self) -> Polarity {
        if self is Accept {
            Polarity::Accept
        } else {
            Polarity::Reject
        }
    }
}

/// Before any token: glob patterns that accept.
pub open spec fn initial_scope() -> Scope {
    Scope {
        default_kind: Kind::Glob,
        default_polarity: Polarity::Accept,
        pending_kind: None,
        pending_polarity: None,
    }
}

/// A flag sets its channel for the next pattern; a global one also sets the
/// channel's default.
pub open spec fn after_flag(s: Scope, f: Flag) -> Scope {
    match f {
        Flag::Glob(g) => Scope {
            default_kind: if g { Kind::Glob } else { s.default_kind },
            pending_kind: Some(Kind::Glob),
            ..s
        },
        Flag::Regex(g) => Scope {
            default_kind: if g { Kind::Regex } else { s.default_kind },
            pending_kind: Some(Kind::Regex),
            ..s
        },
        Flag::Accept(g) => Scope {
            default_polarity: if g { Polarity::Accept } else { s.default_polarity },
            pending_polarity: Some(Polarity::Accept),
            ..s
        },
        Flag::Reject(g) => Scope {
            default_polarity: if g { Polarity::Reject } else { s.default_polarity },
            pending_polarity: Some(Polarity::Reject),
            ..s
        },
    }
}

/// The kind that the next pattern gets in state `s`.
pub open spec fn kind_in(s: Scope) -> Kind {
    match s.pending_kind {
        Some(k) => k,
        None => s.default_kind,
    }
}

/// The polarity that the next pattern gets in state `s`.
pub open spec fn polarity_in(s: Scope) -> Polarity {
    match s.pending_polarity {
        Some(p) => p,
        None => s.default_polarity,
    }
}

/// A pattern consumes the flags seen since the previous one.
pub open spec fn after_pattern(s: Scope) -> Scope {
    Scope { pending_kind: None, pending_polarity: None, ..s }
}

pub open spec fn after_token(s: Scope, t: Token) -> Scope {
    match t {
        Token::Flag(f) => after_flag(s, f),
        Token::Pattern(_) => after_pattern(s),
    }
}

/// The state after scanning `ts` from the start.
pub open spec fn scope_after(ts: Seq<Token>) -> Scope
    decreases ts.len(),
{
    if ts.len() == 0 {
        initial_scope()
    } else {
        after_token(scope_after(ts.drop_last()), ts.last())
    }
}

/// Each pattern of `ts`, in order, with the kind and polarity in force where
/// it stands.
pub open spec fn resolved(ts: Seq<Token>) -> Seq<(Seq<char>, Kind, Polarity)>
    decreases ts.len(),
{
    if ts.len() == 0 {
        seq![]
    } else {
        let prev = resolved(ts.drop_last());
        match ts.last() {
            Token::Pattern(p) => {
                let s = scope_after(ts.drop_last());
                prev.push((p@, kind_in(s), polarity_in(s)))
            },
            Token::Flag(_) => prev,
        }
    }
}

impl Scope {
    pub fn new() -> (r: Scope)
        ensures
            r == initial_scope(),
    {
        Scope {
            default_kind: Kind::Glob,
            default_polarity: Polarity::Accept,
            pending_kind: None,
            pending_polarity: None,
        }
    }

    pub fn apply_flag(&mut self, f: Flag)
        ensures
            *final(self) == after_flag(*old(self), f),
    {
        match f {
            Flag::Glob(g) => {
                if g {
                    self.default_kind = Kind::Glob;
                }
                self.pending_kind = Some(Kind::Glob);
            },
            Flag::Regex(g) => {
                if g {
                    self.default_kind = Kind::Regex;
                }
                self.pending_kind = Some(Kind::Regex);
            },
            Flag::Accept(g) => {
                if g {
                    self.default_polarity = Polarity::Accept;
                }
                self.pending_polarity = Some(Polarity::Accept);
            },
            Flag::Reject(g) => {
                if g {
                    self.default_polarity = Polarity::Reject;
                }
                self.pending_polarity = Some(Polarity::Reject);
            },
        }
    }

    /// Gives the next pattern its kind and polarity, and clears the pending
    /// flags.
    pub fn take_pattern(&mut self) -> (r: (Kind, Polarity))
        ensures
            r == (kind_in(*old(self)), polarity_in(*old(self))),
            *final(self) == after_pattern(*old(self)),
    {
        let kind = match self.pending_kind {
            Some(k) => k,
            None => self.default_kind,
        };
        let polarity = match self.pending_polarity {
            Some(p) => p,
            None => self.default_polarity,
        };
        self.pending_kind = None;
        self.pending_polarity = None;
        (kind, polarity)
    }
}

/// Resolves every pattern of the ordered token stream.
pub fn resolve_patterns(tokens: &Vec<Token>) -> (r: Vec<ResolvedPattern>)
    ensures
        r@.map_values(|p: ResolvedPattern| p@) == resolved(tokens@),
{
    let mut scope = Scope::new();
    let mut out: Vec<ResolvedPattern> = Vec::new();
    let n = tokens.len();
    for i in 0..n
        invariant
            n == tokens@.len(),
            scope == scope_after(tokens@.take(i as int)),
            out@.map_values(|p: ResolvedPattern| p@) == resolved(tokens@.take(i as int)),
    {
        let ghost before = tokens@.take(i as int);
        assert(tokens@.take(i + 1).drop_last() == before);
        match &tokens[i] {
            Token::Flag(f) => {
                scope.apply_flag(*f);
            },
            Token::Pattern(p) => {
                let (kind, polarity) = scope.take_pattern();
                out.push(ResolvedPattern { text: p.clone(), kind, polarity });
                assert(out@.map_values(|p: ResolvedPattern| p@) =~= resolved(before).push(
                    (p@, kind, polarity),
                ));
            },
        }
    }
    assert(tokens@.take(n as int) == tokens@);
    out
}

/// A lower-case flag applies to the one pattern that follows it: that pattern
/// gets the flag's kind or polarity, the pattern after it gets the defaults in
/// force before the flag, and the defaults are left as they were.
pub proof fn lemma_local_flag_scope(prefix: Seq<Token>, f: Flag, a: String, b: String)
    requires
        !f.is_global(),
    ensures
        ({
            let s = scope_after(prefix);
            let ts = prefix.push(Token::Flag(f)).push(Token::Pattern(a)).push(Token::Pattern(b));
            let t = after_flag(s, f);
            &&& resolved(ts) == resolved(prefix).push((a@, kind_in(t), polarity_in(t))).push(
                (b@, s.default_kind, s.default_polarity),
            )
            &&& f.is_kind_flag() ==> kind_in(t) == f.kind() && polarity_in(t) == polarity_in(s)
            &&& !f.is_kind_flag() ==> polarity_in(t) == f.polarity() && kind_in(t) == kind_in(s)
            &&& scope_after(ts).default_kind == s.default_kind
            &&& scope_after(ts).default_polarity == s.default_polarity
        }),
{
    let t0 = prefix.push(Token::Flag(f));
    let t1 = t0.push(Token::Pattern(a));
    let t2 = t1.push(Token::Pattern(b));
    assert(t0.drop_last() == prefix);
    assert(t1.drop_last() == t0);
    assert(t2.drop_last() == t1);
    let s = scope_after(prefix);
    let t = after_flag(s, f);
    assert(scope_after(t0) == t);
    assert(resolved(t0) == resolved(prefix));
    assert(scope_after(t1) == after_pattern(t));
    assert(resolved(t1) == resolved(prefix).push((a@, kind_in(t), polarity_in(t))));
    assert(scope_after(t2) == after_pattern(after_pattern(t)));
}

/// The state after `base` followed by the first `j` tokens of `rest`, where
/// `rest` holds no kind flag: the kind stays that of a global kind flag ending
/// `base`, and every pattern resolved on the way gets that kind.
proof fn lemma_global_kind_steps(base: Seq<Token>, k: Kind, rest: Seq<Token>, j: int)
    requires
        0 <= j <= rest.len(),
        scope_after(base).default_kind == k,
        kind_in(scope_after(base)) == k,
        forall|i: int| 0 <= i < rest.len() ==> !(#[trigger] rest[i] matches Token::Flag(g) && g.is_kind_flag()),
    ensures
        scope_after(base + rest.take(j)).default_kind == k,
        kind_in(scope_after(base + rest.take(j))) == k,
        resolved(base + rest.take(j)).len() >= resolved(base).len(),
        resolved(base + rest.take(j)).take(resolved(base).len() as int) == resolved(base),
        forall|i: int|
            resolved(base).len() <= i < resolved(base + rest.take(j)).len() ==> (#[trigger] resolved(
                base + rest.take(j),
            )[i]).1 == k,
    decreases j,
{
    if j == 0 {
        assert(base + rest.take(0) == base);
        assert(resolved(base).take(resolved(base).len() as int) == resolved(base));
    } else {
        lemma_global_kind_steps(base, k, rest, j - 1);
        let prev = base + rest.take(j - 1);
        let cur = base + rest.take(j);
        assert(cur.drop_last() == prev);
        assert(cur.last() == rest[j - 1]);
        let tok = rest[j - 1];
        assert(!(tok matches Token::Flag(g) && g.is_kind_flag()));
        match tok {
            Token::Pattern(p) => {
                assert(resolved(cur) == resolved(prev).push((p@, kind_in(scope_after(prev)), polarity_in(scope_after(prev)))));
                assert(resolved(cur).take(resolved(base).len() as int) =~= resolved(prev).take(resolved(base).len() as int));
            },
            Token::Flag(g) => {
                assert(resolved(cur) == resolved(prev));
            },
        }
    }
}

/// An upper-case kind flag makes its kind the default: every later pattern is
/// compiled with that kind, up to the next kind flag.
pub proof fn lemma_global_kind_flag(prefix: Seq<Token>, f: Flag, rest: Seq<Token>)
    requires
        f.is_kind_flag(),
        f.is_global(),
        forall|i: int| 0 <= i < rest.len() ==> !(#[trigger] rest[i] matches Token::Flag(g) && g.is_kind_flag()),
    ensures
        ({
            let ts = prefix.push(Token::Flag(f)) + rest;
            &&& resolved(ts).take(resolved(prefix).len() as int) == resolved(prefix)
            &&& forall|i: int|
                resolved(prefix).len() <= i < resolved(ts).len() ==> (#[trigger] resolved(ts)[i]).1
                    == f.kind()
            &&& scope_after(ts).default_kind == f.kind()
        }),
{
    let base = prefix.push(Token::Flag(f));
    assert(base.drop_last() == prefix);
    assert(resolved(base) == resolved(prefix));
    lemma_global_kind_steps(base, f.kind(), rest, rest.len() as int);
    assert(rest.take(rest.len() as int) == rest);
}

/// The state after `base` followed by the first `j` tokens of `rest`, where
/// `rest` holds no polarity flag: the polarity stays that of a global polarity
/// flag ending `base`, and every pattern resolved on the way gets it.
proof fn lemma_global_polarity_steps(base: Seq<Token>, k: Polarity, rest: Seq<Token>, j: int)
    requires
        0 <= j <= rest.len(),
        scope_after(base).default_polarity == k,
        polarity_in(scope_after(base)) == k,
        forall|i: int| 0 <= i < rest.len() ==> !(#[trigger] rest[i] matches Token::Flag(g) && !g.is_kind_flag()),
    ensures
        scope_after(base + rest.take(j)).default_polarity == k,
        polarity_in(scope_after(base + rest.take(j))) == k,
        resolved(base + rest.take(j)).len() >= resolved(base).len(),
        resolved(base + rest.take(j)).take(resolved(base).len() as int) == resolved(base),
        forall|i: int|
            resolved(base).len() <= i < resolved(base + rest.take(j)).len() ==> (#[trigger] resolved(
                base + rest.take(j),
            )[i]).2 == k,
    decreases j,
{
    if j == 0 {
        assert(base + rest.take(0) == base);
        assert(resolved(base).take(resolved(base).len() as int) == resolved(base));
    } else {
        lemma_global_polarity_steps(base, k, rest, j - 1);
        let prev = base + rest.take(j - 1);
        let cur = base + rest.take(j);
        assert(cur.drop_last() == prev);
        assert(cur.last() == rest[j - 1]);
        let tok = rest[j - 1];
        assert(!(tok matches Token::Flag(g) && !g.is_kind_flag()));
        match tok {
            Token::Pattern(p) => {
                assert(resolved(cur) == resolved(prev).push((p@, kind_in(scope_after(prev)), polarity_in(scope_after(prev)))));
                assert(resolved(cur).take(resolved(base).len() as int) =~= resolved(prev).take(resolved(base).len() as int));
            },
            Token::Flag(g) => {
                assert(resolved(cur) == resolved(prev));
            },
        }
    }
}

/// An upper-case polarity flag makes its polarity the default: every later
/// pattern gets that polarity, up to the next polarity flag.
pub proof fn lemma_global_polarity_flag(prefix: Seq<Token>, f: Flag, rest: Seq<Token>)
    requires
        !f.is_kind_flag(),
        f.is_global(),
        forall|i: int| 0 <= i < rest.len() ==> !(#[trigger] rest[i] matches Token::Flag(g) && !g.is_kind_flag()),
    ensures
        ({
            let ts = prefix.push(Token::Flag(f)) + rest;
            &&& resolved(ts).take(resolved(prefix).len() as int) == resolved(prefix)
            &&& forall|i: int|
                resolved(prefix).len() <= i < resolved(ts).len() ==> (#[trigger] resolved(ts)[i]).2
                    == f.polarity()
            &&& scope_after(ts).default_polarity == f.polarity()
        }),
{
    let base = prefix.push(Token::Flag(f));
    assert(base.drop_last() == prefix);
    assert(resolved(base) == resolved(prefix));
    lemma_global_polarity_steps(base, f.polarity(), rest, rest.len() as int);
    assert(rest.take(rest.len() as int) == rest);
}

} // verus!
