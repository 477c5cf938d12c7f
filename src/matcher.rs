use regex::Regex;
use vstd::prelude::*;

verus! {

/// regex::Regex, carried as an opaque compiled pattern.
#[verifier::external_type_specification]
#[verifier::external_body]
pub struct ExRegex(regex::Regex);

/// regex::Error, the reason a pattern was rejected.
#[verifier::external_type_specification]
#[verifier::external_body]
pub struct ExRegexError(regex::Error);

/// Whether `regex::Regex::new` accepts the pattern text.
pub uninterp spec fn compiles(pattern: Seq<char>) -> bool;

/// Whether the compiled pattern occurs somewhere in the text.
pub uninterp spec fn found(pattern: Seq<char>, text: Seq<char>) -> bool;

/// A compiled pattern together with the text it was compiled from.
/// Both fields are set together, and only by trusted code that compiles or
/// clones the regex, so `regex` is always the compilation of `pattern`.
pub struct Matcher {
    regex: Regex,
    pattern: Ghost<Seq<char>>,
}

/// Relies on regex::Regex::is_match: whether the matcher's pattern occurs in the text.
#[verifier::external_body]
fn regex_is_match(m: &Matcher, text: &str) -> (r: bool)
    ensures
        r == found(m@, text@),
{
    m.regex.is_match(text)
}

/// Relies on regex::Regex::as_str: the text the matcher's regex was compiled from.
#[verifier::external_body]
fn regex_source(m: &Matcher) -> (r: &str)
    ensures
        r@ == m@,
{
    m.regex.as_str()
}

/// Relies on regex::Regex::new: the outcome depends on the pattern text
/// alone, and a compiled matcher is paired with that text.
#[verifier::external_body]
fn compile(pattern: &str) -> (r: Result<Matcher, regex::Error>)
    ensures
        r is Ok <==> compiles(pattern@),
        r matches Ok(m) ==> m@ == pattern@,
{
    match Regex::new(pattern) {
        Ok(regex) => Ok(Matcher { regex, pattern: Ghost(pattern@) }),
        Err(e) => Err(e),
    }
}

/// Relies on regex::Regex::clone: the copy is the same compiled pattern.
#[verifier::external_body]
fn regex_clone(m: &Matcher) -> (r: Matcher)
    ensures
        r@ == m@,
{
    Matcher { regex: m.regex.clone(), pattern: Ghost(m.pattern@) }
}

impl View for Matcher {
    type V = Seq<char>;

    closed spec fn view(&self) -> Seq<char> {
        self.pattern@
    }
}

impl Matcher {
    /// Compiles `pattern`; fails exactly when the regex engine rejects it.
    pub fn new(pattern: &str) -> (r: Result<Matcher, regex::Error>)
        ensures
            r is Ok <==> compiles(pattern@),
            r matches Ok(m) ==> m@ == pattern@,
    {
        compile(pattern)
    }

    /// Whether the pattern occurs anywhere in `text`.
    pub fn is_match(&self, text: &str) -> (r: bool)
        ensures
            r == found(self@, text@),
    {
        regex_is_match(self, text)
    }

    /// Whether the matcher was registered with a blank pattern.
    pub fn is_blank(&self) -> (r: bool)
        ensures
            r == (self@.len() == 0),
    {
        regex_source(self).is_empty()
    }

    pub fn duplicate(&self) -> (r: Matcher)
        ensures
            r@ == self@,
    {
        regex_clone(self)
    }
}

} // verus!
