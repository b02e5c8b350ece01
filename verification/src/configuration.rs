//! Plain configuration data: the two optional pattern sets that the matcher
//! is built from. Loading them from a settings file is left to the binary
//! around the library; the library only consumes the loaded values.

use vstd::prelude::*;

verus! {

/// One glob pattern, as written in the configuration.
pub struct MatcherSpec {
    pub pattern: String,
}

/// The two pattern sets: paths matching an ignore pattern are candidates for
/// marking, paths matching a skip pattern are never marked. Either set may be
/// absent, which is the same as the set being empty.
pub struct MatcherConfig {
    pub ignore_specs: Option<Vec<MatcherSpec>>,
    pub skip_specs: Option<Vec<MatcherSpec>>,
}

/// The whole configuration of the tool.
pub struct Configuration {
    pub matcher_config: Option<MatcherConfig>,
}

/// The sequence of pattern strings held by an optional spec list; an absent
/// list holds no patterns.
pub open spec fn spec_patterns(specs: &Option<Vec<MatcherSpec>>) -> Seq<Seq<char>> {
    match specs {
        Some(v) => v@.map_values(|s: MatcherSpec| s.pattern@),
        None => Seq::empty(),
    }
}

/// The ignore patterns named by an optional matcher configuration.
pub open spec fn config_ignore_patterns(mc: &Option<MatcherConfig>) -> Seq<Seq<char>> {
    match mc {
        Some(c) => spec_patterns(&c.ignore_specs),
        None => Seq::empty(),
    }
}

/// The skip patterns named by an optional matcher configuration.
pub open spec fn config_skip_patterns(mc: &Option<MatcherConfig>) -> Seq<Seq<char>> {
    match mc {
        Some(c) => spec_patterns(&c.skip_specs),
        None => Seq::empty(),
    }
}

} // verus!
