//! The regular expression that selects and rewrites file names, compiled
//! once and used through the `regex` crate.
use vstd::prelude::*;

verus! {

#[verifier::external_type_specification]
#[verifier::external_body]
pub struct ExRegex(regex::Regex);

/// What `Regex::new` makes of `pattern`: `Ok` when it compiles, otherwise
/// the text of the error it reports.
pub uninterp spec fn regex_compile(pattern: Seq<char>) -> Result<(), Seq<char>>;

/// Whether the regex compiled from `pattern` matches somewhere in
/// `haystack` (`Regex::is_match`).
pub uninterp spec fn regex_matches(pattern: Seq<char>, haystack: Seq<char>) -> bool;

/// What `Regex::replace` returns for the regex compiled from `pattern`: the
/// leftmost-first match in `haystack` replaced by `replacement`, in which
/// `$group` and `${group}` stand for the captured groups.
pub uninterp spec fn regex_replace_first(
    pattern: Seq<char>,
    haystack: Seq<char>,
    replacement: Seq<char>,
) -> Seq<char>;

/// A compiled regular expression together with the pattern it was compiled
/// from. Values are only made by `Filter::compile`.
pub struct Filter {
    regex: regex::Regex,
    pattern: String,
}

impl View for Filter {
    type V = Seq<char>;

    /// The pattern the regex was compiled from.
    closed spec fn view(&self) -> Seq<char> {
        self.pattern@
    }
}

impl Filter {
    /// `Regex::new`: compiles `pattern`.
    ///
    /// Trusted: the outcome is the one `Regex::new` gives for the pattern
    /// (success, or the text of its error), and a compiled filter remembers
    /// its pattern.
    #[verifier::external_body]
    pub(crate) fn compile(pattern: &str) -> (r: Result<Filter, String>)
        ensures
            match regex_compile(pattern@) {
                Ok(()) => r matches Ok(f) && f@ == pattern@,
                Err(m) => r matches Err(e) && e@ == m,
            },
    {
        match regex::Regex::new(pattern) {
            Ok(regex) => Ok(Filter { regex, pattern: pattern.to_string() }),
            Err(error) => Err(error.to_string()),
        }
    }

    /// `Regex::is_match`: whether the regex matches somewhere in `haystack`.
    ///
    /// Trusted: the result is the one named `regex_matches` for the filter's
    /// pattern.
    #[verifier::external_body]
    pub(crate) fn is_match(&self, haystack: &str) -> (r: bool)
        ensures
            r == regex_matches(self@, haystack@),
    {
        self.regex.is_match(haystack)
    }

    /// `Regex::replace`: replaces the first match of the regex in `haystack`
    /// by `replacement`, expanding capture-group references.
    ///
    /// Trusted: the result is the one named `regex_replace_first`; as the
    /// crate documents, a haystack without a match comes back unchanged.
    #[verifier::external_body]
    pub(crate) fn replace_first(&self, haystack: &str, replacement: &str) -> (r: String)
        ensures
            r@ == regex_replace_first(self@, haystack@, replacement@),
            !regex_matches(self@, haystack@) ==> r@ == haystack@,
    {
        self.regex.replace(haystack, replacement).into_owned()
    }
}

} // verus!
