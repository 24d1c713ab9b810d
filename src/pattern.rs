//! Label-filter patterns: regular expressions anchored at both ends, compiled
//! once and matched against the joined label values of each sample.

use vstd::prelude::*;

verus! {

#[verifier::external_type_specification]
#[verifier::external_body]
pub struct ExRegex(regex::Regex);

/// Whether `regex::Regex::new` accepts `pattern`.
pub uninterp spec fn regex_compiles(pattern: Seq<char>) -> bool;

/// Whether the regex compiled from `pattern` matches somewhere in `text`.
pub uninterp spec fn regex_is_match(pattern: Seq<char>, text: Seq<char>) -> bool;

/// `pattern` as a group between `^` and `$`, so that it must match the
/// whole text, alternations included.
pub open spec fn anchored(pattern: Seq<char>) -> Seq<char> {
    "^(?:"@ + pattern + ")$"@
}

/// Relies on `regex::Regex::new`: whether a pattern compiles (syntax and the
/// default size limit) depends on the pattern alone. The error is kept as its
/// message.
#[verifier::external_body]
fn compile(pattern: &str) -> (r: Result<regex::Regex, String>)
    ensures
        r is Ok <==> regex_compiles(pattern@),
{
    regex::Regex::new(pattern).map_err(|e| e.to_string())
}

/// A compiled regular expression together with the text it was compiled from.
pub struct AnchoredRegex {
    source: String,
    compiled: regex::Regex,
}

impl View for AnchoredRegex {
    type V = Seq<char>;

    /// The anchored pattern the expression was compiled from.
    closed spec fn view(&self) -> Seq<char> {
        self.source@
    }
}

impl AnchoredRegex {
    /// Compiles `pattern` anchored at both ends; the error is the compiler's message.
    pub fn new(pattern: &str) -> (r: Result<AnchoredRegex, String>)
        ensures
            r is Ok <==> regex_compiles(anchored(pattern@)),
            r is Ok ==> r->Ok_0@ == anchored(pattern@),
    {
        let mut source = String::new();
        source.append("^(?:");
        source.append(pattern);
        source.append(")$");
        match compile(source.as_str()) {
            Ok(compiled) => Ok(AnchoredRegex { source, compiled }),
            Err(message) => Err(message),
        }
    }

    /// Relies on `regex::Regex::is_match`: whether the expression, compiled
    /// from the text this value holds, matches somewhere in `text`.
    #[verifier::external_body]
    pub(crate) fn is_match(&self, text: &str) -> (r: bool)
        ensures
            r == regex_is_match(self@, text@),
    {
        self.compiled.is_match(text)
    }

    /// The anchored pattern.
    pub fn as_str(&self) -> (r: &str)
        ensures
            r@ == self@,
    {
        self.source.as_str()
    }
}

} // verus!
