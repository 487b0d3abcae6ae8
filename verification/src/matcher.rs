//! The pattern side of the tool: a user-supplied fragment is compiled into
//! a matcher that is anchored at the start of the subject and tolerates
//! trailing unmatched content, and the matcher is queried for the byte
//! spans of named capture groups.

use vstd::prelude::*;
use vstd::string::StringSliceAdditionalSpecFns;

verus! {

#[verifier::external_type_specification]
#[verifier::external_body]
pub struct ExRegex(regex::Regex);

/// The pattern fragment was not a syntactically valid pattern.
#[derive(Debug)]
pub struct PatternError {
    pub message: String,
}

/// Whether the pattern compiler accepts the anchored form of `fragment`.
pub uninterp spec fn pattern_accepted(fragment: Seq<char>) -> bool;

/// The outcome of querying the matcher built from `fragment` on `subject`
/// (given by its bytes) for the named group `group`: `None` when the
/// anchored pattern does not match the subject at all, `Some(None)` when
/// it matches but the group took no part in the match, and
/// `Some(Some((start, end)))` when the group matched the byte range
/// `[start, end)` of the subject.
pub uninterp spec fn named_span(fragment: Seq<char>, subject: Seq<u8>, group: Seq<char>) -> Option<
    Option<(int, int)>,
>;

/// A compiled matcher, remembering the fragment it was built from.
pub struct Matcher {
    re: regex::Regex,
    fragment: String,
}

impl Matcher {
    /// The pattern fragment this matcher was compiled from.
    pub closed spec fn fragment(&self) -> Seq<char> {
        self.fragment@
    }

    /// Relies on `regex::Regex::captures`, `regex::Captures::name` and
    /// `regex::Match::{start, end}`: `captures` returns `Some` exactly
    /// when the pattern matches the haystack, `name` returns the group's
    /// match exactly when the group took part in it, and the reported
    /// offsets are byte offsets into the haystack with
    /// `start <= end <= haystack.len()`.  The query depends only on the
    /// compiled pattern and the subject.
    #[verifier::external_body]
    pub(crate) fn named_span_raw(&self, subject: &str, group: &str) -> (r: Option<
        Option<(usize, usize)>,
    >)
        ensures
            ({
                let s = named_span(self.fragment(), subject.spec_bytes(), group@);
                match r {
                    None => s is None,
                    Some(None) => s == Some(Option::<(int, int)>::None),
                    Some(Some(sp)) => s == Some(Some((sp.0 as int, sp.1 as int))) && sp.0 <= sp.1
                        <= subject.spec_bytes().len(),
                }
            }),
    {
        match self.re.captures(subject) {
            None => None,
            Some(c) => Some(c.name(group).map(|m| (m.start(), m.end()))),
        }
    }
}

/// Relies on `regex::RegexBuilder::new` and `build`: compiling the
/// anchored form `^(?:<fragment>).*` of the fragment succeeds exactly
/// when it is valid pattern syntax, and fails with the compiler's
/// diagnostic otherwise.  The non-capturing group keeps the anchor in
/// force over the whole fragment, a top-level alternation included.
#[verifier::external_body]
pub fn build_regex(pattern: &str) -> (r: Result<Matcher, PatternError>)
    ensures
        r is Ok <==> pattern_accepted(pattern@),
        r matches Ok(m) ==> m.fragment() == pattern@,
{
    let anchored = format!("^(?:{}).*", pattern);
    match regex::RegexBuilder::new(&anchored).build() {
        Ok(re) => Ok(Matcher { re, fragment: pattern.to_string() }),
        Err(e) => Err(PatternError { message: e.to_string() }),
    }
}

} // verus!
