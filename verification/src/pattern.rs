//! Searching text with a regular expression.
//!
//! The search itself is made by the `regex` crate and is not verified: this
//! module gives its result a name, `leftmost_match`, and states of it only
//! that the pieces it cuts the text into make up the text again.

use vstd::prelude::*;

verus! {

/// What one search found: the text on either side of the match, and the text
/// of each capture group. Group 0 is the match itself; a group that took no
/// part in the match is `None`.
pub struct Captured {
    pub before: String,
    pub after: String,
    pub groups: Vec<Option<String>>,
}

/// The model of a `Captured`.
pub struct CapturedView {
    pub before: Seq<char>,
    pub after: Seq<char>,
    pub groups: Seq<Option<Seq<char>>>,
}

impl View for Captured {
    type V = CapturedView;

    open spec fn view(&self) -> CapturedView {
        CapturedView {
            before: self.before@,
            after: self.after@,
            groups: self.groups.deep_view(),
        }
    }
}

impl CapturedView {
    /// The text of the whole match.
    pub open spec fn whole(self) -> Seq<char> {
        self.groups[0]->0
    }

    /// The match has a group 0, and with the text around it makes up `text`.
    pub open spec fn splits(self, text: Seq<char>) -> bool {
        &&& self.groups.len() >= 1
        &&& self.groups[0] is Some
        &&& text == self.before + self.whole() + self.after
    }

    /// The text of group `i`, where the pattern has such a group and it took
    /// part in the match.
    pub open spec fn group(self, i: int) -> Option<Seq<char>> {
        if 0 <= i < self.groups.len() {
            self.groups[i]
        } else {
            None
        }
    }
}

/// The leftmost match of the regular expression `pattern` in `haystack`, as
/// the `regex` crate finds it: `None` where `pattern` is no valid expression
/// or nothing matches.
pub uninterp spec fn leftmost_match(pattern: Seq<char>, haystack: Seq<char>) -> Option<
    CapturedView,
>;

/// Compiles `pattern` with `regex::Regex::new` and searches `haystack` with
/// `Regex::captures`. The contract names the result and claims of it what the
/// crate documents of a match: group 0 is always there, and its offsets cut
/// the haystack into the text before the match, the match, and the text after
/// it.
#[verifier::external_body]
pub(crate) fn leftmost_captures(pattern: &str, haystack: &str) -> (r: Option<Captured>)
    ensures
        match r {
            Some(c) => leftmost_match(pattern@, haystack@) == Some(c@) && c@.splits(haystack@),
            None => leftmost_match(pattern@, haystack@) is None,
        },
{
    let expression = regex::Regex::new(pattern).ok()?;
    let captures = expression.captures(haystack)?;
    let whole = captures.get(0)?;
    Some(Captured {
        before: haystack[..whole.start()].to_owned(),
        after: haystack[whole.end()..].to_owned(),
        groups: captures.iter().map(|g| g.map(|m| m.as_str().to_owned())).collect(),
    })
}

impl Captured {
    /// The text of group `i`, where the pattern has such a group and it took
    /// part in the match.
    pub fn group(&self, i: usize) -> (r: Option<&String>)
        ensures
            match r {
                Some(s) => self@.group(i as int) == Some(s@),
                None => self@.group(i as int) is None,
            },
    {
        if i < self.groups.len() {
            match &self.groups[i] {
                Some(s) => Some(s),
                None => None,
            }
        } else {
            None
        }
    }
}

} // verus!
