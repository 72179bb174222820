//! The regular expressions that rewrite enum paths in expressions, from the `regex` crate.
use vstd::prelude::*;

verus! {

#[verifier::external_type_specification]
#[verifier::external_body]
pub struct ExRegex(regex::Regex);

#[verifier::external_type_specification]
#[verifier::external_body]
pub struct ExRegexError(regex::Error);

/// A char that a regular expression gives a meaning to.
pub open spec fn is_meta_character(c: char) -> bool {
    c == '\\' || c == '.' || c == '+' || c == '*' || c == '?' || c == '(' || c == ')' || c == '|'
        || c == '[' || c == ']' || c == '{' || c == '}' || c == '^' || c == '$' || c == '#' || c
        == '&' || c == '-' || c == '~'
}

/// `text` with a backslash before each meta character: a pattern that matches `text` itself.
pub open spec fn escaped(text: Seq<char>) -> Seq<char>
    decreases text.len(),
{
    if text.len() == 0 {
        Seq::empty()
    } else {
        let c = text.last();
        escaped(text.drop_last()) + if is_meta_character(c) {
            seq!['\\', c]
        } else {
            seq![c]
        }
    }
}

/// Whether `regex::Regex::new` accepts `pattern`.
pub uninterp spec fn regex_compiles(pattern: Seq<char>) -> bool;

/// What `Regex::replace_all` gives for the regex of `pattern` on `text`, each match replaced
/// by `rep` with `$1` and the like expanded.
pub uninterp spec fn regex_replace_all(pattern: Seq<char>, text: Seq<char>, rep: Seq<char>) -> Seq<
    char,
>;

/// `regex::escape`: the contract states the crate's own definition (a backslash before each
/// char of `is_meta_character`).
#[verifier::external_body]
pub(crate) fn regex_escape(text: &str) -> (r: String)
    ensures
        r@ == escaped(text@),
{
    regex::escape(text)
}

/// `regex::Regex::new`: succeeds exactly on the patterns of `regex_compiles`; what the
/// compiled value does is stated on `Pattern::replace_all`.
#[verifier::external_body]
fn regex_new(pattern: &str) -> (r: Result<regex::Regex, regex::Error>)
    ensures
        r is Ok <==> regex_compiles(pattern@),
{
    regex::Regex::new(pattern)
}

/// A compiled regular expression together with the pattern it was compiled from.
pub struct Pattern {
    source: String,
    compiled: regex::Regex,
}

impl Pattern {
    pub closed spec fn source(&self) -> Seq<char> {
        self.source@
    }

    /// Compiles `source`: `None` exactly where the crate refuses it.
    pub fn new(source: String) -> (r: Option<Pattern>)
        ensures
            r matches Some(p) ==> p.source() == source@ && regex_compiles(source@),
            r is None ==> !regex_compiles(source@),
    {
        match regex_new(source.as_str()) {
            Ok(compiled) => Some(Pattern { source, compiled }),
            Err(_) => None,
        }
    }

    /// `Regex::replace_all` with a replacement string, as an owned string. The regex was
    /// compiled from `source` by `Pattern::new`, the only way to make a `Pattern`.
    #[verifier::external_body]
    fn replace_all(&self, text: &str, rep: &str) -> (r: String)
        ensures
            r@ == regex_replace_all(self.source(), text@, rep@),
    {
        self.compiled.replace_all(text, rep).into_owned()
    }
}

/// `text` with every match of `pattern` replaced by `rep`, if `pattern` compiles; else
/// `text` unchanged.
pub open spec fn replaced(pattern: Seq<char>, text: Seq<char>, rep: Seq<char>) -> Seq<char> {
    if regex_compiles(pattern) {
        regex_replace_all(pattern, text, rep)
    } else {
        text
    }
}

/// Replaces every match of `pattern` in `text` by `rep`.
pub fn replace_matches(pattern: String, text: String, rep: &str) -> (r: String)
    ensures
        r@ == replaced(pattern@, text@, rep@),
{
    match Pattern::new(pattern) {
        Some(p) => p.replace_all(text.as_str(), rep),
        None => text,
    }
}

} // verus!
