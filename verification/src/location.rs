//! Matching of request paths against a location pattern.
//!
//! A `LocationMatcher` holds exactly one pattern of one of four kinds, fixed
//! at construction: a glob, a regular expression, a literal prefix or a
//! literal suffix.  Glob and regular-expression patterns are compiled by the
//! `globset` and `regex` crates; a malformed pattern is rejected at
//! construction with a message naming the offending input.

use vstd::prelude::*;

use crate::text::cannot_parse;
use crate::text::cannot_parse_msg;
use crate::text::is_prefix;
use crate::text::is_suffix;
use crate::text::str_ends_with;
use crate::text::str_starts_with;

verus! {

#[verifier::external_type_specification]
#[verifier::external_body]
pub struct ExGlobMatcher(globset::GlobMatcher);

#[verifier::external_type_specification]
#[verifier::external_body]
pub struct ExRegex(regex::Regex);

/// Whether `globset` accepts `pattern` as a well-formed glob.
pub uninterp spec fn glob_ok(pattern: Seq<char>) -> bool;

/// The pattern string a compiled glob matcher was built from.
pub uninterp spec fn glob_pattern(g: globset::GlobMatcher) -> Seq<char>;

/// Whether the glob `pattern` matches `path`, with `globset`'s semantics.
pub uninterp spec fn glob_match(pattern: Seq<char>, path: Seq<char>) -> bool;

/// Whether `regex` accepts `pattern` as a well-formed regular expression.
pub uninterp spec fn regex_ok(pattern: Seq<char>) -> bool;

/// The pattern string a compiled regular expression was built from.
pub uninterp spec fn regex_pattern(r: regex::Regex) -> Seq<char>;

/// Whether the regular expression `pattern` matches somewhere in `text`,
/// with `regex`'s semantics.
pub uninterp spec fn regex_match(pattern: Seq<char>, text: Seq<char>) -> bool;

/// The longest glob pattern accepted at construction.  `compile_matcher`
/// builds the glob's derived regular expression with an `expect` and that
/// compiler refuses programs over ten mebibytes, so the derived program —
/// which grows linearly with the pattern, a few dozen bytes per character —
/// must stay far below that size for the call not to abort.  Longer patterns
/// are turned away with a construction error before globset is called.
pub const MAX_GLOB_LEN: usize = 4096;

/// Relies on `globset::Glob::new` and `Glob::compile_matcher`: for a pattern
/// within `MAX_GLOB_LEN`, parsing succeeds exactly for well-formed patterns,
/// the derived program stays far below the compiler's ten-mebibyte bound so
/// `compile_matcher` cannot abort, and the matcher it yields is for the
/// given pattern, with default options; the error's text describes the
/// syntax fault.
#[verifier::external_body]
fn compile_glob(s: &str) -> (r: Result<globset::GlobMatcher, String>)
    requires
        s@.len() <= MAX_GLOB_LEN,
    ensures
        r is Ok <==> glob_ok(s@),
        r matches Ok(g) ==> glob_pattern(g) == s@,
{
    globset::Glob::new(s).map(|g| g.compile_matcher()).map_err(|e| e.to_string())
}

/// Relies on `globset::GlobMatcher::is_match`: the result is a function of
/// the compiled pattern and the path alone.  Every matcher this crate holds
/// was compiled with default options (through `compile_glob` or
/// `clone_glob`), so the pattern string determines the matcher.
#[verifier::external_body]
fn glob_is_match(g: &globset::GlobMatcher, path: &str) -> (r: bool)
    ensures
        r == glob_match(glob_pattern(*g), path@),
{
    g.is_match(path)
}

/// Relies on `regex::Regex::new`: compilation succeeds exactly for
/// well-formed patterns, and the value it yields is the compiled form of the
/// given pattern; the error's text describes the syntax fault.
#[verifier::external_body]
fn compile_regex(s: &str) -> (r: Result<regex::Regex, String>)
    ensures
        r is Ok <==> regex_ok(s@),
        r matches Ok(g) ==> regex_pattern(g) == s@,
{
    regex::Regex::new(s).map_err(|e| e.to_string())
}

/// Relies on `regex::Regex::is_match`: the result is a function of the
/// compiled pattern and the text alone.  Every compiled value this crate
/// holds was built with default options (through `compile_regex` or
/// `clone_regex`), so the pattern string determines it.
#[verifier::external_body]
fn regex_is_match(g: &regex::Regex, text: &str) -> (r: bool)
    ensures
        r == regex_match(regex_pattern(*g), text@),
{
    g.is_match(text)
}

/// Relies on `globset::GlobMatcher::clone`: a clone is a matcher for the
/// same pattern.
#[verifier::external_body]
fn clone_glob(g: &globset::GlobMatcher) -> (r: globset::GlobMatcher)
    ensures
        glob_pattern(r) == glob_pattern(*g),
{
    g.clone()
}

/// Relies on `regex::Regex::clone`: a clone is the compiled form of the
/// same pattern.
#[verifier::external_body]
fn clone_regex(r: &regex::Regex) -> (c: regex::Regex)
    ensures
        regex_pattern(c) == regex_pattern(*r),
{
    r.clone()
}

/// The abstract form of a location pattern: its kind and its pattern string.
pub enum LocationPattern {
    Glob(Seq<char>),
    Regex(Seq<char>),
    Start(Seq<char>),
    End(Seq<char>),
}

/// Whether the pattern accepts the path.
pub open spec fn location_matches(p: LocationPattern, path: Seq<char>) -> bool {
    match p {
        LocationPattern::Glob(g) => glob_match(g, path),
        LocationPattern::Regex(r) => regex_match(r, path),
        LocationPattern::Start(s) => is_prefix(s, path),
        LocationPattern::End(s) => is_suffix(s, path),
    }
}

/// Matching is pure: the answer depends on the pattern and the path alone
/// — for globs and regular expressions this rests on their matchers being
/// functions of the compiled pattern — so matchers built from the same
/// pattern agree on every path, and repeated calls agree with each other.
pub proof fn lemma_location_deterministic(a: &LocationMatcher, b: &LocationMatcher, path: Seq<char>)
    requires
        a@ == b@,
    ensures
        location_matches(a@, path) == location_matches(b@, path),
{
}

#[derive(Debug)]
enum LocationMode {
    Glob(globset::GlobMatcher),
    Regex(regex::Regex),
    Start(String),
    End(String),
}

/// A compiled location pattern of exactly one kind, immutable after
/// construction.
#[derive(Debug)]
pub struct LocationMatcher(LocationMode);

impl Clone for LocationMatcher {
    /// A clone holds the same pattern and matches exactly as the original.
    fn clone(&self) -> (r: Self)
        ensures
            r@ == self@,
    {
        LocationMatcher(
            match &self.0 {
                LocationMode::Glob(g) => LocationMode::Glob(clone_glob(g)),
                LocationMode::Regex(re) => LocationMode::Regex(clone_regex(re)),
                LocationMode::Start(s) => LocationMode::Start(s.clone()),
                LocationMode::End(s) => LocationMode::End(s.clone()),
            },
        )
    }
}

impl View for LocationMatcher {
    type V = LocationPattern;

    closed spec fn view(&self) -> LocationPattern {
        match self.0 {
            LocationMode::Glob(ref g) => LocationPattern::Glob(glob_pattern(*g)),
            LocationMode::Regex(ref r) => LocationPattern::Regex(regex_pattern(*r)),
            LocationMode::Start(ref s) => LocationPattern::Start(s@),
            LocationMode::End(ref s) => LocationPattern::End(s@),
        }
    }
}

impl LocationMatcher {
    /// A glob-pattern location: fails exactly on malformed glob syntax, or
    /// on a pattern longer than `MAX_GLOB_LEN` characters, which is turned
    /// away before globset is asked to compile it.
    pub fn glob(location: &str) -> (r: Result<LocationMatcher, String>)
        ensures
            r is Ok <==> location@.len() <= MAX_GLOB_LEN && glob_ok(location@),
            r matches Ok(m) ==> m@ == LocationPattern::Glob(location@),
            r matches Err(e) ==> is_prefix(
                cannot_parse_msg(location@, "glob matcher"@) + "\n"@,
                e@,
            ),
            location@.len() > MAX_GLOB_LEN ==> (r matches Err(e) && e@ == cannot_parse_msg(
                location@,
                "glob matcher"@,
            ) + "\n"@ + "pattern is too long"@),
    {
        if location.unicode_len() > MAX_GLOB_LEN {
            let mut e = cannot_parse(location, "glob matcher");
            e.append("\n");
            e.append("pattern is too long");
            proof {
                assert(is_prefix(cannot_parse_msg(location@, "glob matcher"@) + "\n"@, e@)) by {
                    assert((cannot_parse_msg(location@, "glob matcher"@) + "\n"@
                        + "pattern is too long"@).subrange(
                        0,
                        (cannot_parse_msg(location@, "glob matcher"@) + "\n"@).len() as int,
                    ) =~= cannot_parse_msg(location@, "glob matcher"@) + "\n"@);
                }
            }
            return Err(e);
        }
        match compile_glob(location) {
            Ok(g) => Ok(LocationMatcher(LocationMode::Glob(g))),
            Err(detail) => {
                let mut e = cannot_parse(location, "glob matcher");
                e.append("\n");
                e.append(detail.as_str());
                proof {
                    assert(is_prefix(cannot_parse_msg(location@, "glob matcher"@) + "\n"@, e@))
                        by {
                        assert((cannot_parse_msg(location@, "glob matcher"@) + "\n"@
                            + detail@).subrange(
                            0,
                            (cannot_parse_msg(location@, "glob matcher"@) + "\n"@).len() as int,
                        ) =~= cannot_parse_msg(location@, "glob matcher"@) + "\n"@);
                    }
                }
                Err(e)
            },
        }
    }

    /// A regular-expression location: fails exactly on malformed syntax.
    pub fn regex(location: &str) -> (r: Result<LocationMatcher, String>)
        ensures
            r is Ok <==> regex_ok(location@),
            r matches Ok(m) ==> m@ == LocationPattern::Regex(location@),
            r matches Err(e) ==> is_prefix(
                cannot_parse_msg(location@, "regular expression"@) + "\n"@,
                e@,
            ),
    {
        match compile_regex(location) {
            Ok(g) => Ok(LocationMatcher(LocationMode::Regex(g))),
            Err(detail) => {
                let mut e = cannot_parse(location, "regular expression");
                e.append("\n");
                e.append(detail.as_str());
                proof {
                    assert(is_prefix(
                        cannot_parse_msg(location@, "regular expression"@) + "\n"@,
                        e@,
                    )) by {
                        assert((cannot_parse_msg(location@, "regular expression"@) + "\n"@
                            + detail@).subrange(
                            0,
                            (cannot_parse_msg(location@, "regular expression"@)
                                + "\n"@).len() as int,
                        ) =~= cannot_parse_msg(location@, "regular expression"@) + "\n"@);
                    }
                }
                Err(e)
            },
        }
    }

    /// A literal-prefix location.  Construction never fails.
    pub fn start(location: &str) -> (r: LocationMatcher)
        ensures
            r@ == LocationPattern::Start(location@),
    {
        LocationMatcher(LocationMode::Start(location.to_owned()))
    }

    /// A literal-suffix location.  Construction never fails.
    pub fn end(location: &str) -> (r: LocationMatcher)
        ensures
            r@ == LocationPattern::End(location@),
    {
        LocationMatcher(LocationMode::End(location.to_owned()))
    }

    /// Whether the path matches, by the one kind fixed at construction.
    pub fn is_match(&self, path: &str) -> (r: bool)
        ensures
            r == location_matches(self@, path@),
    {
        match &self.0 {
            LocationMode::Glob(glob) => glob_is_match(glob, path),
            LocationMode::Regex(reg) => regex_is_match(reg, path),
            LocationMode::Start(s) => str_starts_with(path, s.as_str()),
            LocationMode::End(s) => str_ends_with(path, s.as_str()),
        }
    }
}

} // verus!
