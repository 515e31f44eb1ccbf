//! Compiled description patterns.  Regular-expression matching is done by
//! the `regex` crate; whether a pattern text compiles and whether it
//! matches a given text are named facts about that crate, stated only at
//! the two calls below.

use vstd::prelude::*;

verus! {

#[verifier::external_type_specification]
#[verifier::external_body]
pub struct ExRegex(regex::Regex);

/// Whether `regex::Regex::new` accepts the pattern text.
pub uninterp spec fn regex_ok(pattern: Seq<char>) -> bool;

/// Whether the regular expression `pattern` matches somewhere inside
/// `text`, as `regex::Regex::is_match` decides it.
pub uninterp spec fn regex_matches(pattern: Seq<char>, text: Seq<char>) -> bool;

/// A compiled description pattern, kept together with the pattern text it
/// was compiled from.  The fields are private, so a `Pattern` can only be
/// made by `Pattern::new`, which guarantees the two agree.
pub struct Pattern {
    src: String,
    re: regex::Regex,
}

impl Pattern {
    /// The pattern text this value was compiled from.
    pub closed spec fn text(&self) -> Seq<char> {
        self.src@
    }

    /// The pattern text, for reporting.
    pub fn src_str(&self) -> (r: &str)
        ensures
            r@ == self.text(),
    {
        self.src.as_str()
    }

    /// Relies on `regex::Regex::new`: success depends on the pattern text
    /// alone, and the compiled expression is the one for this text.
    #[verifier::external_body]
    pub fn new(src: &str) -> (r: Option<Pattern>)
        ensures
            match r {
                Some(p) => regex_ok(src@) && p.text() == src@,
                None => !regex_ok(src@),
            },
    {
        match regex::Regex::new(src) {
            Ok(re) => Some(Pattern { src: src.to_owned(), re }),
            Err(_) => None,
        }
    }

    /// Relies on `regex::Regex::is_match`: the answer is a function of the
    /// pattern and the searched text alone.
    #[verifier::external_body]
    pub fn is_match(&self, text: &str) -> (r: bool)
        ensures
            r == regex_matches(self.text(), text@),
    {
        self.re.is_match(text)
    }
}

} // verus!
