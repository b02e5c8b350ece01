//! The pattern matcher: compiles the configured ignore and skip pattern sets
//! into glob sets and answers, for a single path string, whether the path is
//! actionable — that is, whether it matches at least one ignore pattern and
//! no skip pattern. Skip patterns always win.
//!
//! Glob compilation and matching come from the `globset` crate; what a set of
//! compiled globs answers for a given path is named by the uninterpreted
//! functions below and assumed only in the trusted wrappers around the
//! `globset` calls.

use vstd::prelude::*;

use crate::configuration::{
    config_ignore_patterns, config_skip_patterns, spec_patterns, MatcherConfig, MatcherSpec,
};

verus! {

#[verifier::external_type_specification]
#[verifier::external_body]
pub struct ExGlob(globset::Glob);

#[verifier::external_type_specification]
#[verifier::external_body]
pub struct ExGlobSet(globset::GlobSet);

#[verifier::external_type_specification]
#[verifier::external_body]
pub struct ExGlobSetBuilder(globset::GlobSetBuilder);

/// Whether a pattern is syntactically valid glob syntax: the result of
/// `globset::Glob::new` on the pattern, which depends on the pattern text
/// alone.
pub uninterp spec fn glob_pattern_ok(pattern: Seq<char>) -> bool;

/// The pattern text a compiled `globset::Glob` was built from, as
/// `globset::Glob::glob` returns it.
pub uninterp spec fn glob_pattern(g: globset::Glob) -> Seq<char>;

/// The patterns added to a `globset::GlobSetBuilder` so far, in order.
pub uninterp spec fn builder_patterns(b: globset::GlobSetBuilder) -> Seq<Seq<char>>;

/// The patterns a built `globset::GlobSet` holds, in order.
pub uninterp spec fn glob_set_patterns(s: globset::GlobSet) -> Seq<Seq<char>>;

/// Whether a single compiled glob pattern matches a path string, as
/// `globset::Glob::is_match` answers it: a function of the pattern text and
/// the path text alone.
pub uninterp spec fn glob_match(pattern: Seq<char>, path: Seq<char>) -> bool;

/// Whether any pattern of the set matches the path.
pub open spec fn matches_any(patterns: Seq<Seq<char>>, path: Seq<char>) -> bool {
    exists|i: int| 0 <= i < patterns.len() && glob_match(patterns[i], path)
}

/// The match decision: a path is actionable iff it matches at least one
/// ignore pattern and matches no skip pattern.
pub open spec fn spec_decide(
    ignore: Seq<Seq<char>>,
    skip: Seq<Seq<char>>,
    path: Seq<char>,
) -> bool {
    matches_any(ignore, path) && !matches_any(skip, path)
}

/// Whether every pattern of the set is valid glob syntax.
pub open spec fn all_patterns_ok(patterns: Seq<Seq<char>>) -> bool {
    forall|i: int| 0 <= i < patterns.len() ==> glob_pattern_ok(#[trigger] patterns[i])
}

/// Skip precedence: a path that matches any skip pattern is never actionable,
/// regardless of the ignore patterns.
pub proof fn lemma_skip_precedence(
    ignore: Seq<Seq<char>>,
    skip: Seq<Seq<char>>,
    path: Seq<char>,
)
    ensures
        matches_any(skip, path) ==> !spec_decide(ignore, skip, path),
{
}

/// Relies on `globset::Glob::new`: compiling a single glob pattern, which
/// succeeds exactly when the pattern is valid glob syntax; the compiled glob
/// remembers the pattern it was built from.
#[verifier::external_body]
fn glob_new(pattern: &str) -> (r: Result<globset::Glob, String>)
    ensures
        r is Ok <==> glob_pattern_ok(pattern@),
        r matches Ok(g) ==> glob_pattern(g) == pattern@,
{
    globset::Glob::new(pattern).map_err(|e| e.to_string())
}

/// Relies on `globset::GlobSetBuilder::new`: a fresh builder holds no
/// patterns.
#[verifier::external_body]
fn glob_set_builder_new() -> (b: globset::GlobSetBuilder)
    ensures
        builder_patterns(b) == Seq::<Seq<char>>::empty(),
{
    globset::GlobSetBuilder::new()
}

/// Relies on `globset::GlobSetBuilder::add`: adding a compiled glob appends
/// its pattern to the builder's patterns.
#[verifier::external_body]
fn glob_set_builder_add(b: &mut globset::GlobSetBuilder, g: globset::Glob)
    ensures
        builder_patterns(*final(b)) == builder_patterns(*old(b)).push(glob_pattern(g)),
{
    b.add(g);
}

/// Relies on `globset::GlobSetBuilder::build`: on success the built set holds
/// exactly the patterns added so far, and building an empty set always
/// succeeds. A non-empty build may also fail on resource limits of the
/// underlying regex engine, so success there is not promised.
#[verifier::external_body]
fn glob_set_build(b: &globset::GlobSetBuilder) -> (r: Result<globset::GlobSet, String>)
    ensures
        r matches Ok(s) ==> glob_set_patterns(s) == builder_patterns(*b),
        builder_patterns(*b).len() == 0 ==> r is Ok,
{
    b.build().map_err(|e| e.to_string())
}

/// Relies on `globset::GlobSet::is_match`: true iff any glob in the set
/// matches the given path.
#[verifier::external_body]
fn glob_set_is_match(s: &globset::GlobSet, path: &str) -> (r: bool)
    ensures
        r == (exists|i: int|
            0 <= i < glob_set_patterns(*s).len() && glob_match(
                #[trigger] glob_set_patterns(*s)[i],
                path@,
            )),
{
    s.is_match(path)
}

/// The compiled form of the two pattern sets.
pub struct Matcher {
    ignore_set: globset::GlobSet,
    skip_set: globset::GlobSet,
    ignore_patterns: Ghost<Seq<Seq<char>>>,
    skip_patterns: Ghost<Seq<Seq<char>>>,
}

/// Compiles one optional pattern list into a glob set; an absent list is the
/// empty set. Fails if any pattern in the list is invalid glob syntax (or if
/// the final set build fails).
fn build_glob_set(specs: &Option<Vec<MatcherSpec>>) -> (r: Result<globset::GlobSet, String>)
    ensures
        r matches Ok(s) ==> glob_set_patterns(s) == spec_patterns(specs)
            && all_patterns_ok(spec_patterns(specs)),
        !all_patterns_ok(spec_patterns(specs)) ==> r is Err,
        spec_patterns(specs).len() == 0 ==> r is Ok,
{
    let mut builder = glob_set_builder_new();
    if let Some(list) = specs {
        let ghost pats = spec_patterns(specs);
        for i in 0..list.len()
            invariant
                pats == spec_patterns(specs),
                pats.len() == list.len(),
                forall|j: int| 0 <= j < list.len() ==> pats[j] == #[trigger] list[j].pattern@,
                builder_patterns(builder) == pats.take(i as int),
                forall|j: int| 0 <= j < i ==> glob_pattern_ok(#[trigger] pats[j]),
        {
            match glob_new(list[i].pattern.as_str()) {
                Ok(g) => {
                    glob_set_builder_add(&mut builder, g);
                    proof {
                        assert(builder_patterns(builder) =~= pats.take(i + 1 as int));
                    }
                }
                Err(e) => {
                    return Err(e);
                }
            }
        }
        proof {
            assert(builder_patterns(builder) =~= pats);
        }
    }
    glob_set_build(&builder)
}

impl Matcher {
    /// The glob sets hold exactly the patterns the matcher was built from.
    pub closed spec fn wf(&self) -> bool {
        glob_set_patterns(self.ignore_set) == self.ignore_patterns@
            && glob_set_patterns(self.skip_set) == self.skip_patterns@
    }

    /// The ignore patterns this matcher was built from.
    pub closed spec fn spec_ignore(&self) -> Seq<Seq<char>> {
        self.ignore_patterns@
    }

    /// The skip patterns this matcher was built from.
    pub closed spec fn spec_skip(&self) -> Seq<Seq<char>> {
        self.skip_patterns@
    }

    /// Compiles both pattern sets. Fails whenever a pattern in either set is
    /// invalid glob syntax, so a malformed configuration never degrades to a
    /// partial pattern set.
    pub fn new(matcher_config: &Option<MatcherConfig>) -> (r: Result<Self, String>)
        ensures
            r matches Ok(m) ==> m.wf()
                && m.spec_ignore() == config_ignore_patterns(matcher_config)
                && m.spec_skip() == config_skip_patterns(matcher_config)
                && all_patterns_ok(m.spec_ignore())
                && all_patterns_ok(m.spec_skip()),
            !all_patterns_ok(config_ignore_patterns(matcher_config))
                || !all_patterns_ok(config_skip_patterns(matcher_config)) ==> r is Err,
            config_ignore_patterns(matcher_config).len() == 0 && config_skip_patterns(
                matcher_config,
            ).len() == 0 ==> r is Ok,
    {
        let empty: Option<Vec<MatcherSpec>> = None;
        let (ignore_specs, skip_specs) = match matcher_config {
            Some(mc) => (&mc.ignore_specs, &mc.skip_specs),
            None => (&empty, &empty),
        };
        let ignore_set = match build_glob_set(ignore_specs) {
            Ok(s) => s,
            Err(e) => {
                return Err(e);
            }
        };
        let skip_set = match build_glob_set(skip_specs) {
            Ok(s) => s,
            Err(e) => {
                return Err(e);
            }
        };
        Ok(
            Matcher {
                ignore_set,
                skip_set,
                ignore_patterns: Ghost(config_ignore_patterns(matcher_config)),
                skip_patterns: Ghost(config_skip_patterns(matcher_config)),
            },
        )
    }

    /// The match decision for one path: true iff the path matches at least
    /// one ignore pattern and no skip pattern. Pure; no side effects.
    pub fn matches(&self, path: String) -> (r: bool)
        requires
            self.wf(),
        ensures
            r == spec_decide(self.spec_ignore(), self.spec_skip(), path@),
    {
        let ignore_match = glob_set_is_match(&self.ignore_set, path.as_str());
        if !ignore_match {
            return false;
        }
        let skip_match = glob_set_is_match(&self.skip_set, path.as_str());
        !skip_match
    }
}

} // verus!
