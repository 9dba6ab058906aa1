use vstd::prelude::*;

verus! {

/// A compiled pattern of the `regex` crate. Its inside is not visible to the
/// verifier; it is carried to the calls that use it.
#[verifier::external_type_specification]
#[verifier::external_body]
pub struct ExRegex(regex::Regex);

/// The `regex` crate's compile error, carried through to the caller.
#[verifier::external_type_specification]
#[verifier::external_body]
pub struct ExRegexError(regex::Error);

/// The pattern text that a compiled pattern was built from
/// (`regex::Regex::as_str`).
pub uninterp spec fn regex_source(re: regex::Regex) -> Seq<char>;

/// Whether the pattern, once compiled, matches anywhere in the text
/// (`regex::Regex::is_match`).
pub uninterp spec fn regex_accepts(pattern: Seq<char>, text: Seq<char>) -> bool;

/// The characters that have a meaning of their own in a pattern.
pub open spec fn is_meta(c: char) -> bool {
    c == '\\' || c == '.' || c == '+' || c == '*' || c == '?' || c == '(' || c == ')' || c == '|'
        || c == '[' || c == ']' || c == '{' || c == '}' || c == '^' || c == '$' || c == '#'
        || c == '&' || c == '-' || c == '~'
}

/// The text with a backslash put before each meta character.
pub open spec fn escaped(text: Seq<char>) -> Seq<char>
    decreases text.len(),
{
    if text.len() == 0 {
        Seq::<char>::empty()
    } else if is_meta(text.last()) {
        escaped(text.drop_last()).push('\\').push(text.last())
    } else {
        escaped(text.drop_last()).push(text.last())
    }
}

/// The pattern text that is compiled: in literal mode every meta character
/// is escaped first, so that the pattern stands for itself.
pub open spec fn effective_pattern(pattern: Seq<char>, literal: bool) -> Seq<char> {
    if literal {
        escaped(pattern)
    } else {
        pattern
    }
}

/// Calls `regex::escape`. Trusted: the result is the argument with a
/// backslash before each of the crate's meta characters and nothing else
/// changed.
#[verifier::external_body]
fn escape_pattern(pattern: &str) -> (out: String)
    ensures
        out@ == escaped(pattern@),
{
    regex::escape(pattern)
}

/// Calls `regex::Regex::new`. Trusted: a compiled pattern remembers the text
/// it was built from. Whether compilation succeeds is left open: the engine
/// refuses malformed patterns and patterns that compile to too large a
/// program.
#[verifier::external_body]
fn compile(pattern: &str) -> (r: Result<regex::Regex, regex::Error>)
    ensures
        r is Ok ==> regex_source(r.unwrap()) == pattern@,
{
    regex::Regex::new(pattern)
}

/// Calls `regex::Regex::is_match`. Trusted: the answer depends on the
/// pattern text and the searched text alone.
#[verifier::external_body]
fn regex_is_match(re: &regex::Regex, text: &str) -> (b: bool)
    ensures
        b == regex_accepts(regex_source(*re), text@),
{
    re.is_match(text)
}

/// Why a pattern could not be turned into a matcher.
#[derive(Debug)]
pub struct MatchCompileError {
    /// The pattern as the caller gave it.
    pub pattern: String,
    /// What the pattern engine reported.
    pub cause: regex::Error,
}

/// The predicate that decides which paths are reported.
#[derive(Debug)]
pub struct Matcher {
    re: regex::Regex,
}

impl Matcher {
    /// The pattern text that this matcher was compiled from.
    pub closed spec fn source(&self) -> Seq<char> {
        regex_source(self.re)
    }

    /// Whether this matcher accepts the text.
    pub open spec fn accepts(&self, text: Seq<char>) -> bool {
        regex_accepts(self.source(), text)
    }

    /// This matcher as a predicate on texts.
    pub open spec fn predicate(&self) -> spec_fn(Seq<char>) -> bool {
        |text: Seq<char>| self.accepts(text)
    }

    /// Turns the outcome of a compilation into a matcher or the library's own
    /// error, which keeps the pattern that the caller wrote.
    pub fn from_compiled(pattern: &str, compiled: Result<regex::Regex, regex::Error>) -> (r: Result<
        Matcher,
        MatchCompileError,
    >)
        ensures
            r is Ok <==> compiled is Ok,
            r is Ok ==> r.unwrap().source() == regex_source(compiled.unwrap()),
            r is Err ==> r.unwrap_err().pattern@ == pattern@ && r.unwrap_err().cause
                == compiled.unwrap_err(),
    {
        match compiled {
            Ok(re) => Ok(Matcher { re }),
            Err(cause) => Err(MatchCompileError { pattern: pattern.to_owned(), cause }),
        }
    }

    /// Builds a matcher from a pattern. In literal mode the pattern matches
    /// its own text; otherwise it is read as a regular expression. Fails
    /// when the pattern engine refuses the text that is compiled; the error
    /// then names the pattern as it was given.
    pub fn new(pattern: &str, literal: bool) -> (r: Result<Matcher, MatchCompileError>)
        ensures
            r is Ok ==> r.unwrap().source() == effective_pattern(pattern@, literal),
            r is Err ==> r.unwrap_err().pattern@ == pattern@,
    {
        if literal {
            let quoted = escape_pattern(pattern);
            Matcher::from_compiled(pattern, compile(quoted.as_str()))
        } else {
            Matcher::from_compiled(pattern, compile(pattern))
        }
    }

    /// Whether the pattern matches anywhere in the text.
    pub fn is_match(&self, text: &str) -> (b: bool)
        ensures
            b == self.accepts(text@),
    {
        regex_is_match(&self.re, text)
    }
}

} // verus!
