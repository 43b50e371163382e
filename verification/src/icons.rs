//! Icon detection for terminal panels.
//!
//! Titles are matched case-insensitively against configurable substring
//! patterns; the first matching pattern wins, with a configurable default.

use vstd::prelude::*;

verus! {

use crate::strutil::chars_of;
use crate::strutil::contains_seq;
use crate::strutil::seq_contains;

/// What `str::to_lowercase` returns for these characters.
pub uninterp spec fn lower_of(s: Seq<char>) -> Seq<char>;

/// Relies on str::to_lowercase: the result depends on the characters alone.
#[verifier::external_body]
pub(crate) fn lowercase(s: &str) -> (r: String)
    ensures
        r@ == lower_of(s@),
{
    s.to_lowercase()
}

/// A pattern for icon detection.
pub struct IconPattern {
    /// Substring to match against the lower-cased title.
    pub match_text: String,
    /// Icon to display when matched.
    pub icon: String,
}

/// Icon configuration for terminal titles.
pub struct IconConfig {
    /// Default icon when no pattern matches.
    pub default: String,
    /// Patterns checked in order; the first match wins.
    pub patterns: Vec<IconPattern>,
}

/// The icon chosen for a lower-cased title, scanning patterns from `i` on.
pub open spec fn detect_from(
    title_lower: Seq<char>,
    patterns: Seq<IconPattern>,
    dflt: Seq<char>,
    i: int,
) -> Seq<char>
    decreases patterns.len() - i,
{
    if i < 0 || i >= patterns.len() {
        dflt
    } else if contains_seq(title_lower, patterns[i].match_text@) {
        patterns[i].icon@
    } else {
        detect_from(title_lower, patterns, dflt, i + 1)
    }
}

/// The icon chosen for a title under a configuration.
pub open spec fn spec_detect_icon(title: Seq<char>, config: IconConfig) -> Seq<char> {
    detect_from(lower_of(title), config.patterns@, config.default@, 0)
}

/// Detect an icon for a terminal title: the icon of the first pattern whose
/// text occurs in the lower-cased title, or the configured default.
pub fn detect_icon<'a>(title: &str, config: &'a IconConfig) -> (r: &'a str)
    ensures
        r@ == spec_detect_icon(title@, *config),
{
    let lower = lowercase(title);
    let hay = chars_of(lower.as_str());
    let ghost tl = lower_of(title@);
    let mut i: usize = 0;
    while i < config.patterns.len()
        invariant
            i <= config.patterns@.len(),
            tl == lower_of(title@),
            hay@ == tl,
            detect_from(tl, config.patterns@, config.default@, 0) == detect_from(
                tl,
                config.patterns@,
                config.default@,
                i as int,
            ),
        decreases config.patterns@.len() - i,
    {
        let needle = chars_of(config.patterns[i].match_text.as_str());
        if seq_contains(&hay, &needle) {
            proof {
                assert(contains_seq(tl, config.patterns@[i as int].match_text@));
                assert(detect_from(tl, config.patterns@, config.default@, i as int)
                    == config.patterns@[i as int].icon@);
                assert(spec_detect_icon(title@, *config) == config.patterns@[i as int].icon@);
            }
            return config.patterns[i].icon.as_str();
        }
        i = i + 1;
    }
    proof {
        assert(detect_from(tl, config.patterns@, config.default@, config.patterns@.len() as int)
            == config.default@);
    }
    config.default.as_str()
}

} // verus!
