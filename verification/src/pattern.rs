//! Regular expressions: compiled once, then matched against texts.

use vstd::prelude::*;
use vstd::utf8::{encode_utf8, is_char_boundary};

verus! {

/// A compiled regular expression.
#[verifier::external_type_specification]
#[verifier::external_body]
pub struct ExRegex(regex::Regex);

/// Why `regex::Regex::new` refuses the pattern, or nothing where it
/// compiles.
pub uninterp spec fn regex_error(pattern: Seq<char>) -> Option<Seq<char>>;

/// Whether `regex::Regex::is_match` finds the pattern in the text.
pub uninterp spec fn regex_is_match(pattern: Seq<char>, text: Seq<char>) -> bool;

/// The byte ranges that `regex::Regex::find_iter` yields for the text.
pub uninterp spec fn regex_find_all(pattern: Seq<char>, text: Seq<char>) -> Seq<(usize, usize)>;

/// A pattern together with its compiled form.
///
/// The fields are private to this module, and [`Pattern::compile`] is the
/// only place that fills them.
#[derive(Debug)]
pub struct Pattern {
    text: String,
    regex: regex::Regex,
}

impl View for Pattern {
    type V = Seq<char>;

    closed spec fn view(&self) -> Seq<char> {
        self.text@
    }
}

/// Byte ranges of a text that follow one another without overlap, each on
/// character boundaries.
pub open spec fn ranges_in_order(ranges: Seq<(usize, usize)>, text: Seq<char>) -> bool {
    &&& forall|i: int|
        0 <= i < ranges.len() ==> {
            &&& (#[trigger] ranges[i]).0 <= ranges[i].1 <= encode_utf8(text).len()
            &&& is_char_boundary(encode_utf8(text), ranges[i].0 as int)
            &&& is_char_boundary(encode_utf8(text), ranges[i].1 as int)
        }
    &&& forall|i: int, j: int|
        0 <= i < j < ranges.len() ==> (#[trigger] ranges[i]).1 <= (#[trigger] ranges[j]).0
}

impl Pattern {
    /// Compiles `text` with `regex::Regex::new`.  Whether that succeeds, and
    /// the text of the error where it does not, is a function of the pattern
    /// alone.
    #[verifier::external_body]
    pub(crate) fn compile(text: &str) -> (compiled: Result<Pattern, String>)
        ensures
            match compiled {
                Ok(pattern) => pattern@ == text@ && regex_error(text@) is None,
                Err(error) => regex_error(text@) == Some(error@),
            },
    {
        match regex::Regex::new(text) {
            Ok(regex) => Ok(Pattern { text: text.to_string(), regex }),
            Err(error) => Err(error.to_string()),
        }
    }

    /// `regex::Regex::is_match`: whether the pattern occurs in `text`.
    #[verifier::external_body]
    pub(crate) fn is_match(&self, text: &str) -> (found: bool)
        ensures
            found == regex_is_match(self@, text@),
    {
        self.regex.is_match(text)
    }

    /// `regex::Regex::find_iter`: the byte ranges of successive
    /// non-overlapping matches, on character boundaries.
    #[verifier::external_body]
    pub(crate) fn find_all(&self, text: &str) -> (ranges: Vec<(usize, usize)>)
        ensures
            ranges@ == regex_find_all(self@, text@),
            ranges_in_order(ranges@, text@),
    {
        self.regex.find_iter(text).map(|found| (found.start(), found.end())).collect()
    }

    /// Copies the pattern with `regex::Regex`'s `Clone`, which shares the
    /// compiled form: the copy matches as the original does.
    #[verifier::external_body]
    pub(crate) fn share(&self) -> (copy: Pattern)
        ensures
            copy@ == self@,
    {
        Pattern { text: self.text.clone(), regex: self.regex.clone() }
    }

    /// The pattern as it was written.
    pub fn as_str(&self) -> (text: &str)
        ensures
            text@ == self@,
    {
        self.text.as_str()
    }
}

/// Compiles a pattern, or says why it cannot be.
pub fn compile_pattern(text: &str) -> (compiled: Result<Pattern, String>)
    ensures
        match compiled {
            Ok(pattern) => pattern@ == text@ && regex_error(text@) is None,
            Err(error) => regex_error(text@) == Some(error@),
        },
{
    Pattern::compile(text)
}

} // verus!
