//! The outside regular-expression engine, as the parsers use it: a compiled
//! pattern that remembers its source, and what a search with it yields.
use vstd::prelude::*;
use crate::answer::{error_line_tag, explain_line_text, fix_line_text, ERROR_PATTERN, EXPLAIN_PATTERN, FIX_PATTERN};
use crate::render::opt_view;
use crate::sentences::{
    spans_cover_sentence_ends, spans_end_with_full_stop, spans_hold_decimal_points, ABBREV_PATTERN, NUM_PATTERN,
    SPLIT_PATTERN,
};
use crate::text::utf8_len;

verus! {

broadcast use vstd::string::group_string_axioms;

/// `regex::Regex`, whose values the parsers hold.
#[verifier::external_type_specification]
#[verifier::external_body]
pub struct ExRegex(regex::Regex);

/// `regex::Error`, the error of compiling a pattern.
#[verifier::external_type_specification]
#[verifier::external_body]
pub struct ExRegexError(regex::Error);

/// Whether `regex::Regex::new` accepts `pattern`.
pub uninterp spec fn regex_compiles(pattern: Seq<char>) -> bool;

/// The byte spans of the matches that `Regex::find_iter` yields for the
/// regex compiled from `pattern`, searching `text`.
pub uninterp spec fn match_spans(pattern: Seq<char>, text: Seq<char>) -> Seq<(usize, usize)>;

/// The text of the group named `group` in the first match of the regex
/// compiled from `pattern` in `text`, as `Regex::captures` and
/// `Captures::name` give it.
pub uninterp spec fn named_capture(pattern: Seq<char>, group: Seq<char>, text: Seq<char>) -> Option<Seq<char>>;

/// Byte spans as `Regex::find_iter` yields them: each starts no later than
/// it ends, each ends no later than the next starts, and all lie in a text of
/// `len` bytes.
pub open spec fn ordered_spans(spans: Seq<(usize, usize)>, len: nat) -> bool {
    &&& forall|i: int| #![trigger spans[i]] 0 <= i < spans.len() ==> spans[i].0 <= spans[i].1 && spans[i].1 <= len
    &&& forall|i: int, j: int| #![trigger spans[i], spans[j]] 0 <= i < j < spans.len() ==> spans[i].1 <= spans[j].0
}

/// `regex::Regex::new`: compiles `pattern`; whether it succeeds is named by `regex_compiles`.
#[verifier::external_body]
fn compile_regex(pattern: &str) -> (r: Result<regex::Regex, regex::Error>)
    ensures
        r is Ok <==> regex_compiles(pattern@),
{
    regex::Regex::new(pattern)
}

/// A compiled regular expression together with the pattern it was compiled
/// from. Only `compile` makes one, so `re` is always the regex of `source`.
pub struct Pattern {
    source: String,
    re: regex::Regex,
}

impl Pattern {
    /// The pattern this regex was compiled from.
    pub closed spec fn source(&self) -> Seq<char> {
        self.source@
    }

    /// Compiles `pattern`.
    pub fn compile(pattern: &str) -> (r: Result<Pattern, regex::Error>)
        ensures
            r is Ok <==> regex_compiles(pattern@),
            r matches Ok(p) ==> p.source() == pattern@,
    {
        let re = compile_regex(pattern)?;
        Ok(Pattern { source: pattern.to_string(), re })
    }

    /// `Regex::find_iter`, as byte spans: the successive non-overlapping
    /// matches in `text`, named by `match_spans`; the crate's documentation
    /// gives that they are ordered and lie within `text`. For the three
    /// patterns of sentence splitting, the contract states what the regex
    /// syntax makes each match cover: for sentence ends, `[.!?]+` one or more
    /// of `.`, `!` and `?`, then `\s*` characters with the `White_Space`
    /// property only; for abbreviations, text that ends with the literal
    /// `\.`; for decimal points, `(\d)\.(\d)` three characters, the middle
    /// one a full stop.
    #[verifier::external_body]
    pub(crate) fn find_spans(&self, text: &str) -> (r: Vec<(usize, usize)>)
        ensures
            r@ == match_spans(self.source(), text@),
            ordered_spans(r@, utf8_len(text@)),
            self.source() == SPLIT_PATTERN@ ==> spans_cover_sentence_ends(text@, r@),
            self.source() == ABBREV_PATTERN@ ==> spans_end_with_full_stop(text@, r@),
            self.source() == NUM_PATTERN@ ==> spans_hold_decimal_points(text@, r@),
    {
        self.re.find_iter(text).map(|m| (m.start(), m.end())).collect()
    }

    /// `Regex::captures`, then `Captures::name(group)`: the text of that
    /// group in the first match in `text`, named by `named_capture`. For the
    /// three anchored patterns of an answer's lines, the contract states what
    /// the regex syntax makes them match: `[^>]+` any non-empty text without
    /// `>`, `.*` any text without a line feed, `^` and `$` the ends of `text`.
    #[verifier::external_body]
    pub(crate) fn capture_named(&self, text: &str, group: &str) -> (r: Option<String>)
        ensures
            opt_view(r) == named_capture(self.source(), group@, text@),
            self.source() == ERROR_PATTERN@ && group@ == "status"@ ==> opt_view(r) == error_line_tag(text@),
            self.source() == FIX_PATTERN@ && group@ == "fix"@ ==> opt_view(r) == fix_line_text(text@),
            self.source() == EXPLAIN_PATTERN@ && group@ == "explain"@ ==> opt_view(r) == explain_line_text(
                text@,
            ),
    {
        self.re.captures(text).and_then(|caps| caps.name(group).map(|m| m.as_str().to_string()))
    }
}

} // verus!
