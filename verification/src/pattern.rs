//! Patterns: compiled regular expressions that are tested against fields.
//!
//! The expression engine is `regex`. What an expression matches is not
//! modelled here. It is named: [`compiled_language`] is what compiling a
//! text gives, and [`regex_language`] is the set of byte strings in which a
//! compiled expression finds a match.

use crate::error::TransformError;
use regex::bytes::Regex;
use regex::bytes::RegexBuilder;
use vstd::prelude::*;

verus! {

/// Makes `regex::bytes::Regex` known to the verifier as an opaque type.
#[verifier::external_type_specification]
#[verifier::external_body]
pub struct ExRegex(Regex);

/// Makes `regex::Error` known to the verifier as an opaque type.
#[verifier::external_type_specification]
#[verifier::external_body]
pub struct ExRegexError(regex::Error);

/// The byte strings in which a compiled expression finds a match.
pub uninterp spec fn regex_language(regex: Regex) -> Set<Seq<u8>>;

/// The text that a compiled expression was built from.
pub uninterp spec fn regex_source(regex: Regex) -> Seq<char>;

/// `Regex::is_match` tells whether the expression matches anywhere in the
/// haystack. The answer depends on the expression and the haystack alone.
pub assume_specification[ Regex::is_match ](regex: &Regex, haystack: &[u8]) -> (b: bool)
    ensures
        b == regex_language(*regex).contains(haystack@),
;

/// `Regex::as_str` returns the text that the expression was built from.
pub assume_specification<'a>[ Regex::as_str ](regex: &'a Regex) -> (text: &'a str)
    ensures
        text@ == regex_source(*regex),
;

/// What compiling the text `source` gives, without regard to case if
/// `ignore_case` is set, on a machine whose words have `word_bits` bits: the
/// byte strings that the expression matches, or `None` where the engine
/// refuses the text.
///
/// The width of a word is an argument because the engine refuses an
/// expression whose compiled form exceeds a fixed number of bytes, and it
/// counts those bytes by the size of its own states, which is larger on a
/// wider machine. A large expression can therefore compile on one machine
/// and be refused on another.
pub uninterp spec fn compiled_language(
    source: Seq<char>,
    ignore_case: bool,
    word_bits: nat,
) -> Option<Set<Seq<u8>>>;

/// What compiling `source` gives on this machine.
pub open spec fn language_of(source: Seq<char>, ignore_case: bool) -> Option<Set<Seq<u8>>> {
    compiled_language(source, ignore_case, usize::BITS as nat)
}

/// Compiles `source` with `RegexBuilder`, without regard to case if
/// `ignore_case` is set. Whether the engine accepts the text, and what the
/// compiled expression matches, depend on the text, the flag and the width
/// of a machine word alone. A compiled expression keeps the text it was
/// built from.
#[verifier::external_body]
fn compile(source: &str, ignore_case: bool) -> (compiled: Result<Regex, regex::Error>)
    ensures
        match compiled_language(source@, ignore_case, usize::BITS as nat) {
            Some(language) => (compiled matches Ok(regex) && regex_language(regex) == language
                && regex_source(regex) == source@),
            None => compiled is Err,
        },
{
    RegexBuilder::new(source).case_insensitive(ignore_case).build()
}

/// Renders a compile error as text, through its `Display` impl. Nothing is
/// claimed of the text.
#[verifier::external_body]
fn describe(error: &regex::Error) -> (text: String) {
    error.to_string()
}

/// A compiled pattern. Its one use is to test whether it matches a field.
pub struct Pattern {
    regex: Regex,
}

impl Pattern {
    /// The byte strings that the pattern matches.
    pub closed spec fn language(&self) -> Set<Seq<u8>> {
        regex_language(self.regex)
    }

    /// Whether the pattern matches `field`.
    pub open spec fn accepts(&self, field: Seq<u8>) -> bool {
        self.language().contains(field)
    }

    /// The text that the pattern was compiled from.
    pub closed spec fn source(&self) -> Seq<char> {
        regex_source(self.regex)
    }

    /// Wraps a compiled expression.
    pub fn from_regex(regex: Regex) -> (pattern: Pattern)
        ensures
            pattern.language() == regex_language(regex),
            pattern.source() == regex_source(regex),
    {
        Pattern { regex }
    }

    /// Turns the outcome of a compilation into a pattern or into
    /// [`TransformError::PatternCompile`].
    pub fn from_compiled(compiled: Result<Regex, regex::Error>) -> (r: Result<
        Pattern,
        TransformError,
    >)
        ensures
            compiled matches Ok(regex) ==> (r matches Ok(pattern) && pattern.language()
                == regex_language(regex) && pattern.source() == regex_source(regex)),
            compiled is Err ==> (r matches Err(e) && e is PatternCompile),
    {
        match compiled {
            Ok(regex) => Ok(Pattern::from_regex(regex)),
            Err(error) => Err(TransformError::PatternCompile { reason: describe(&error) }),
        }
    }

    /// Compiles `source`, without regard to case if `ignore_case` is set.
    /// Where the engine accepts the text, the pattern matches what the text
    /// stands for and keeps the text; where it refuses the text, the error
    /// is [`TransformError::PatternCompile`].
    pub fn new(source: &str, ignore_case: bool) -> (r: Result<Pattern, TransformError>)
        ensures
            match language_of(source@, ignore_case) {
                Some(language) => (r matches Ok(pattern) && pattern.language() == language
                    && pattern.source() == source@),
                None => (r matches Err(e) && e is PatternCompile),
            },
    {
        Pattern::from_compiled(compile(source, ignore_case))
    }

    /// Whether the pattern matches anywhere in `field`.
    pub fn is_match(&self, field: &[u8]) -> (b: bool)
        ensures
            b == self.accepts(field@),
    {
        self.regex.is_match(field)
    }

    /// The text that the pattern was compiled from.
    pub fn as_str(&self) -> (text: &str)
        ensures
            text@ == self.source(),
    {
        self.regex.as_str()
    }
}

} // verus!
