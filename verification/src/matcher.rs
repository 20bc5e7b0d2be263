use vstd::prelude::*;

verus! {

/// The ordered sequence of matched substrings that a pattern compiled from
/// `pattern` (folding case when `case_insensitive` is set) finds in `text`:
/// one element per successive non-overlapping match, leftmost first, as
/// `regex::Regex::find_iter` yields them.
pub uninterp spec fn match_segments(
    pattern: Seq<char>,
    case_insensitive: bool,
    text: Seq<char>,
) -> Seq<Seq<char>>;

/// What `regex::Regex::replace_all` returns when every non-overlapping match
/// of the pattern in `text` is replaced with `replacement` (including the
/// `$`-expansion the crate applies to string replacements).
pub uninterp spec fn rewritten(
    pattern: Seq<char>,
    case_insensitive: bool,
    text: Seq<char>,
    replacement: Seq<char>,
) -> Seq<char>;

/// Whether `regex::RegexBuilder::build` accepts the pattern: compilation
/// depends on the pattern text and the case flag alone, and fails exactly on
/// a malformed (or oversized) pattern.
pub uninterp spec fn pattern_compiles(pattern: Seq<char>, case_insensitive: bool) -> bool;

/// A line matches exactly when the pattern occurs in it at least once.
pub open spec fn line_matches(pattern: Seq<char>, case_insensitive: bool, text: Seq<char>) -> bool {
    match_segments(pattern, case_insensitive, text).len() > 0
}

/// The text of each string, as a sequence of character sequences.
pub open spec fn line_views(lines: Seq<String>) -> Seq<Seq<char>> {
    lines.map_values(|s: String| s@)
}

#[verifier::external_type_specification]
#[verifier::external_body]
pub struct ExRegex(regex::Regex);

#[verifier::external_type_specification]
#[verifier::external_body]
pub struct ExRegexError(regex::Error);

/// A compiled pattern: a `regex::Regex` together with a record of the
/// pattern text and case flag it was built from, so that contracts can speak
/// of what the matcher matches.
pub struct Matcher {
    re: regex::Regex,
    pattern_text: String,
    case_fold: bool,
}

impl Matcher {
    /// The pattern text this matcher was compiled from.
    pub closed spec fn pattern(&self) -> Seq<char> {
        self.pattern_text@
    }

    /// Whether this matcher ignores case distinctions.
    pub closed spec fn is_ci(&self) -> bool {
        self.case_fold
    }

    /// Relies on `regex::RegexBuilder::new` / `case_insensitive` / `build`:
    /// compiles `pattern` into a matcher, folding case when asked; which
    /// patterns compile is the crate's decision.
    #[verifier::external_body]
    pub(crate) fn build(pattern: &str, case_insensitive: bool) -> (r: Result<Matcher, regex::Error>)
        ensures
            (r is Ok) == pattern_compiles(pattern@, case_insensitive),
            r matches Ok(m) ==> m.pattern() == pattern@ && m.is_ci() == case_insensitive,
    {
        match regex::RegexBuilder::new(pattern).case_insensitive(case_insensitive).build() {
            Ok(re) => Ok(
                Matcher { re, pattern_text: pattern.to_string(), case_fold: case_insensitive },
            ),
            Err(e) => Err(e),
        }
    }

    /// Relies on `regex::Regex::find`: returns `Some` exactly when the
    /// pattern occurs somewhere in `text`.
    #[verifier::external_body]
    pub(crate) fn is_match(&self, text: &str) -> (r: bool)
        ensures
            r == line_matches(self.pattern(), self.is_ci(), text@),
    {
        self.re.find(text).is_some()
    }

    /// Relies on `regex::Regex::find_iter`: yields the successive
    /// non-overlapping matches in `text`, leftmost first; each is handed
    /// back as its matched substring.
    #[verifier::external_body]
    pub(crate) fn match_texts(&self, text: &str) -> (r: Vec<String>)
        ensures
            line_views(r@) == match_segments(self.pattern(), self.is_ci(), text@),
    {
        self.re.find_iter(text).map(|m| m.as_str().to_string()).collect()
    }

    /// Relies on `regex::Regex::replace_all`: replaces every non-overlapping
    /// match of the pattern in `text` with `replacement`.
    #[verifier::external_body]
    pub(crate) fn replace_all(&self, text: &str, replacement: &str) -> (r: String)
        ensures
            r@ == rewritten(self.pattern(), self.is_ci(), text@, replacement@),
    {
        self.re.replace_all(text, replacement).into_owned()
    }
}

} // verus!
