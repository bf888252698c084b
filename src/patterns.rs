//! Compilation of resolved patterns into the accept and reject regex sets, and
//! the queries a walked path is filtered by.
use vstd::prelude::*;
use crate::engines::{
    build_regex_set, glob_regex, regex_is_match, set_compiles, set_is_match, set_sources,
    translate_glob,
};
use crate::scope::{resolve_patterns, resolved, Kind, Polarity, ResolvedPattern, Token};

verus! {

/// Why a set of patterns could not be built.
#[derive(Debug)]
pub enum PatternError {
    /// Not a single pattern was given.
    NoPatterns,
    /// A glob could not be parsed: the glob's text and globset's error.
    Glob(String, globset::Error),
    /// One of the two regex sets could not be built.
    Regex(regex::Error),
}

/// The regex source that a resolved pattern compiles to: a regex is taken as
/// it stands, a glob is translated.
pub open spec fn source_of(p: (Seq<char>, Kind, Polarity)) -> Option<Seq<char>> {
    match p.1 {
        Kind::Regex => Some(p.0),
        Kind::Glob => glob_regex(p.0),
    }
}

/// Every pattern of `ps` compiles.
pub open spec fn all_compile(ps: Seq<(Seq<char>, Kind, Polarity)>) -> bool {
    forall|i: int| 0 <= i < ps.len() ==> (#[trigger] source_of(ps[i])) is Some
}

/// `ps[i]` is the first pattern that does not compile.
pub open spec fn first_failure(ps: Seq<(Seq<char>, Kind, Polarity)>, i: int) -> bool {
    &&& 0 <= i < ps.len()
    &&& source_of(ps[i]) is None
    &&& forall|j: int| 0 <= j < i ==> (#[trigger] source_of(ps[j])) is Some
}

/// The sources of the patterns of polarity `pol`, in their order in `ps`.
pub open spec fn sources_with(ps: Seq<(Seq<char>, Kind, Polarity)>, pol: Polarity) -> Seq<
    Seq<char>,
>
    decreases ps.len(),
{
    if ps.len() == 0 {
        seq![]
    } else {
        let prev = sources_with(ps.drop_last(), pol);
        match source_of(ps.last()) {
            Some(s) => if ps.last().2 == pol {
                prev.push(s)
            } else {
                prev
            },
            None => prev,
        }
    }
}

/// At least one of the regexes matches somewhere in `path`.
pub open spec fn any_match(sources: Seq<Seq<char>>, path: Seq<u8>) -> bool {
    exists|i: int| 0 <= i < sources.len() && #[trigger] regex_is_match(sources[i], path)
}

/// The accept list lets `path` through: it is empty, or one of its regexes
/// matches.
pub open spec fn accepts(accept: Seq<Seq<char>>, path: Seq<u8>) -> bool {
    accept.len() == 0 || any_match(accept, path)
}

/// `path` is accepted and no reject regex matches it.
pub open spec fn selects(accept: Seq<Seq<char>>, reject: Seq<Seq<char>>, path: Seq<u8>) -> bool {
    accepts(accept, path) && !any_match(reject, path)
}

/// The two compiled sets of patterns. Built once, then only read.
pub struct PatternSet {
    accept: regex::bytes::RegexSet,
    reject: regex::bytes::RegexSet,
    accept_is_empty: bool,
}

impl PatternSet {
    /// The regex sources of the accepting patterns.
    pub closed spec fn accept_sources(&self) -> Seq<Seq<char>> {
        set_sources(self.accept)
    }

    /// The regex sources of the rejecting patterns.
    pub closed spec fn reject_sources(&self) -> Seq<Seq<char>> {
        set_sources(self.reject)
    }

    #[verifier::type_invariant]
    spec fn inv(&self) -> bool {
        self.accept_is_empty == (set_sources(self.accept).len() == 0)
    }

    /// Whether `path` passes the accept list (an empty list passes every path).
    pub fn matches_accept(&self, path: &[u8]) -> (r: bool)
        ensures
            r == accepts(self.accept_sources(), path@),
    {
        proof {
            use_type_invariant(self);
        }
        self.accept_is_empty || set_is_match(&self.accept, path)
    }

    /// Whether one of the reject patterns matches `path`.
    pub fn matches_reject(&self, path: &[u8]) -> (r: bool)
        ensures
            r == any_match(self.reject_sources(), path@),
    {
        set_is_match(&self.reject, path)
    }

    /// Whether `path` is printed: rejection is applied after acceptance, so a
    /// path that a reject pattern matches is never selected.
    pub fn is_selected(&self, path: &[u8]) -> (r: bool)
        ensures
            r == selects(self.accept_sources(), self.reject_sources(), path@),
            any_match(self.reject_sources(), path@) ==> !r,
    {
        self.matches_accept(path) && !self.matches_reject(path)
    }

    /// Compiles resolved patterns into the two sets. Fails where there is no
    /// pattern, where a glob does not parse (naming the first such glob), or
    /// where a set does not build; nothing else fails.
    pub fn from_resolved(ps: &Vec<ResolvedPattern>) -> (r: Result<PatternSet, PatternError>)
        ensures
            ({
                let v = ps@.map_values(|p: ResolvedPattern| p@);
                &&& (r matches Err(PatternError::NoPatterns)) <==> v.len() == 0
                &&& (r matches Err(PatternError::Glob(_, _))) <==> (v.len() > 0 && !all_compile(
                    v,
                ))
                &&& (r matches Err(PatternError::Glob(text, _)) ==> exists|i: int|
                    first_failure(v, i) && #[trigger] v[i].0 == text@)
                &&& (r matches Err(PatternError::Regex(_))) <==> (v.len() > 0 && all_compile(v)
                    && !(set_compiles(sources_with(v, Polarity::Accept)) && set_compiles(
                    sources_with(v, Polarity::Reject),
                )))
                &&& (r matches Ok(set) ==> set.accept_sources() == sources_with(
                    v,
                    Polarity::Accept,
                ) && set.reject_sources() == sources_with(v, Polarity::Reject))
            }),
    {
        let ghost v = ps@.map_values(|p: ResolvedPattern| p@);
        if ps.len() == 0 {
            return Err(PatternError::NoPatterns);
        }
        let mut accept: Vec<String> = Vec::new();
        let mut reject: Vec<String> = Vec::new();
        let n = ps.len();
        for i in 0..n
            invariant
                n == ps@.len(),
                v == ps@.map_values(|p: ResolvedPattern| p@),
                forall|j: int| 0 <= j < i ==> (#[trigger] source_of(v[j])) is Some,
                accept@.map_values(|s: String| s@) == sources_with(
                    v.take(i as int),
                    Polarity::Accept,
                ),
                reject@.map_values(|s: String| s@) == sources_with(
                    v.take(i as int),
                    Polarity::Reject,
                ),
        {
            let p = &ps[i];
            assert(v.take(i + 1).drop_last() == v.take(i as int));
            assert(v.take(i + 1).last() == p@);
            let compiled = compile_pattern(p);
            match compiled {
                Ok(source) => {
                    match p.polarity {
                        Polarity::Accept => {
                            accept.push(source);
                            assert(accept@.map_values(|s: String| s@) =~= sources_with(
                                v.take(i as int),
                                Polarity::Accept,
                            ).push(source@));
                        },
                        Polarity::Reject => {
                            reject.push(source);
                            assert(reject@.map_values(|s: String| s@) =~= sources_with(
                                v.take(i as int),
                                Polarity::Reject,
                            ).push(source@));
                        },
                    }
                },
                Err(e) => {
                    assert(first_failure(v, i as int));
                    return Err(PatternError::Glob(p.text.clone(), e));
                },
            }
        }
        assert(v.take(n as int) == v);
        let accept_set = match build_regex_set(&accept) {
            Ok(s) => s,
            Err(e) => {
                return Err(PatternError::Regex(e));
            },
        };
        let reject_set = match build_regex_set(&reject) {
            Ok(s) => s,
            Err(e) => {
                return Err(PatternError::Regex(e));
            },
        };
        let accept_is_empty = accept.len() == 0;
        Ok(PatternSet { accept: accept_set, reject: reject_set, accept_is_empty })
    }

    /// Resolves the flags of an ordered token stream and compiles its
    /// patterns, as `from_resolved` does.
    pub fn from_tokens(tokens: &Vec<Token>) -> (r: Result<PatternSet, PatternError>)
        ensures
            ({
                let v = resolved(tokens@);
                &&& (r matches Err(PatternError::NoPatterns)) <==> v.len() == 0
                &&& (r matches Err(PatternError::Glob(_, _))) <==> (v.len() > 0 && !all_compile(
                    v,
                ))
                &&& (r matches Err(PatternError::Glob(text, _)) ==> exists|i: int|
                    first_failure(v, i) && #[trigger] v[i].0 == text@)
                &&& (r matches Err(PatternError::Regex(_))) <==> (v.len() > 0 && all_compile(v)
                    && !(set_compiles(sources_with(v, Polarity::Accept)) && set_compiles(
                    sources_with(v, Polarity::Reject),
                )))
                &&& (r matches Ok(set) ==> set.accept_sources() == sources_with(
                    v,
                    Polarity::Accept,
                ) && set.reject_sources() == sources_with(v, Polarity::Reject))
            }),
    {
        let ps = resolve_patterns(tokens);
        PatternSet::from_resolved(&ps)
    }
}

/// Compiles one pattern to a regex source.
pub fn compile_pattern(p: &ResolvedPattern) -> (r: Result<String, globset::Error>)
    ensures
        match r {
            Ok(s) => source_of(p@) == Some(s@),
            Err(_) => source_of(p@) is None,
        },
{
    match p.kind {
        Kind::Regex => Ok(p.text.clone()),
        Kind::Glob => translate_glob(p.text.as_str()),
    }
}

/// Matching a list of regexes is an "or": it depends on which regexes the list
/// holds, not on their order or repetition.
pub proof fn lemma_any_match_order_free(a: Seq<Seq<char>>, b: Seq<Seq<char>>, path: Seq<u8>)
    requires
        forall|x: Seq<char>| a.contains(x) <==> b.contains(x),
    ensures
        any_match(a, path) == any_match(b, path),
{
    if any_match(a, path) {
        let i = choose|i: int| 0 <= i < a.len() && #[trigger] regex_is_match(a[i], path);
        assert(a.contains(a[i]));
        let j = choose|j: int| 0 <= j < b.len() && b[j] == a[i];
        assert(regex_is_match(b[j], path));
    }
    if any_match(b, path) {
        let i = choose|i: int| 0 <= i < b.len() && #[trigger] regex_is_match(b[i], path);
        assert(b.contains(b[i]));
        let j = choose|j: int| 0 <= j < a.len() && a[j] == b[i];
        assert(regex_is_match(a[j], path));
    }
}

/// Whether a path is selected depends only on which patterns each list holds,
/// not on the order in which they were given.
pub proof fn lemma_selection_order_free(
    accept1: Seq<Seq<char>>,
    reject1: Seq<Seq<char>>,
    accept2: Seq<Seq<char>>,
    reject2: Seq<Seq<char>>,
    path: Seq<u8>,
)
    requires
        forall|x: Seq<char>| accept1.contains(x) <==> accept2.contains(x),
        forall|x: Seq<char>| reject1.contains(x) <==> reject2.contains(x),
    ensures
        selects(accept1, reject1, path) == selects(accept2, reject2, path),
{
    lemma_any_match_order_free(accept1, accept2, path);
    lemma_any_match_order_free(reject1, reject2, path);
    if accept1.len() == 0 && accept2.len() > 0 {
        assert(accept2.contains(accept2[0]));
    }
    if accept2.len() == 0 && accept1.len() > 0 {
        assert(accept1.contains(accept1[0]));
    }
}

/// With no accepting pattern, every path that no reject pattern matches is
/// selected.
pub proof fn lemma_reject_only(accept: Seq<Seq<char>>, reject: Seq<Seq<char>>, path: Seq<u8>)
    requires
        accept.len() == 0,
    ensures
        selects(accept, reject, path) == !any_match(reject, path),
{
}

/// Rejection comes after acceptance: a path matched by a reject pattern is
/// never selected, whatever the accept patterns match.
pub proof fn lemma_rejection_wins(accept: Seq<Seq<char>>, reject: Seq<Seq<char>>, path: Seq<u8>)
    requires
        any_match(reject, path),
    ensures
        !selects(accept, reject, path),
{
}

} // verus!
