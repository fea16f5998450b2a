//! The regeneration gate: decides whether the artifact that stands at a path
//! is kept as it is or written anew.
//!
//! An artifact is kept only where its first line is the stamp of the version
//! at hand and nothing behind that line holds the marker of outstanding work.
//! Finished work is never overwritten; stale or unfinished work never stays.

use vstd::prelude::*;
use crate::text::{
    append_str, chars_of, contains, equal, find, index_of, lemma_contains_found, position, slice,
    text_of,
};

verus! {

/// What stands in front of the version on the first line of an artifact.
pub const STAMP_PREFIX: &'static str = "// version: ";

/// The marker of outstanding work.
pub const MARKER: &'static str = "TODO";

/// What is decided on one artifact.
#[derive(Debug, Clone, Copy, PartialEq, Eq)]
pub enum Decision {
    /// The artifact is complete for this version: it is left untouched.
    Skip,
    /// The artifact is absent, stale or unfinished: it is written anew.
    Regenerate,
}

/// The stamp line of `version`, without its line break.
pub open spec fn stamp(version: Seq<char>) -> Seq<char> {
    STAMP_PREFIX@ + version
}

/// The first line of `text`, without the line break that ends it (a line feed,
/// or a carriage return and a line feed).
pub open spec fn first_line(text: Seq<char>) -> Seq<char> {
    let i = position(text, '\n', 0);
    if 0 < i < text.len() && text[i - 1] == '\r' {
        text.take(i - 1)
    } else {
        text.take(i)
    }
}

/// What follows the first line of `text`.
pub open spec fn rest_of(text: Seq<char>) -> Seq<char> {
    let i = position(text, '\n', 0);
    if i < text.len() {
        text.skip(i + 1)
    } else {
        Seq::empty()
    }
}

/// `text` holds the marker of outstanding work.
pub open spec fn has_marker(text: Seq<char>) -> bool {
    contains(text, MARKER@)
}

/// The artifact `text` is complete for `version`: its first line is exactly
/// the stamp of `version`, and no later line holds the marker.
pub open spec fn is_complete(text: Seq<char>, version: Seq<char>) -> bool {
    first_line(text) == stamp(version) && !has_marker(rest_of(text))
}

/// The decision on an artifact, given what stands at its path (`None` where
/// nothing readable does).
pub open spec fn decision(existing: Option<Seq<char>>, version: Seq<char>) -> Decision {
    match existing {
        Some(text) => if is_complete(text, version) {
            Decision::Skip
        } else {
            Decision::Regenerate
        },
        None => Decision::Regenerate,
    }
}

/// Whether the artifact `text` is complete for `version`.
pub fn complete(text: &str, version: &str) -> (r: bool)
    ensures
        r == is_complete(text@, version@),
{
    let all = chars_of(text);
    let i = index_of(&all, '\n', 0);
    let line = if 0 < i && i < all.len() && all[i - 1] == '\r' {
        slice(&all, 0, i - 1)
    } else {
        slice(&all, 0, i)
    };
    let mut wanted = chars_of(STAMP_PREFIX);
    append_str(&mut wanted, version);
    if !equal(&line, &wanted) {
        return false;
    }
    let rest = if i < all.len() {
        slice(&all, i + 1, all.len())
    } else {
        Vec::new()
    };
    let marker = chars_of(MARKER);
    assert(rest@ =~= rest_of(text@));
    proof {
        lemma_contains_found(rest@, marker@);
    }
    find(&rest, &marker, 0).is_none()
}

/// Decides on one artifact. `existing` is what stands at its path, `None`
/// where nothing stands there or it cannot be read.
pub fn decide(existing: Option<&str>, version: &str) -> (d: Decision)
    ensures
        d == decision(text_of(existing), version@),
{
    match existing {
        Some(text) => if complete(text, version) {
            Decision::Skip
        } else {
            Decision::Regenerate
        },
        None => Decision::Regenerate,
    }
}

/// A complete artifact is regenerated as soon as the version changes.
pub proof fn lemma_new_version_regenerates(
    text: Seq<char>,
    old_version: Seq<char>,
    new_version: Seq<char>,
)
    requires
        is_complete(text, old_version),
        old_version != new_version,
    ensures
        decision(Some(text), new_version) == Decision::Regenerate,
{
    let p = STAMP_PREFIX@;
    assert((p + old_version).skip(p.len() as int) =~= old_version);
    assert((p + new_version).skip(p.len() as int) =~= new_version);
}

/// An artifact that carries the stamp of the version at hand and no marker
/// behind it is left untouched, whatever else it holds.
pub proof fn lemma_finished_work_is_kept(text: Seq<char>, version: Seq<char>)
    requires
        first_line(text) == stamp(version),
        !has_marker(rest_of(text)),
    ensures
        decision(Some(text), version) == Decision::Skip,
{
}

/// An artifact that is absent, carries another first line, or holds the marker
/// behind its first line is written anew.
pub proof fn lemma_unfinished_work_is_replaced(existing: Option<Seq<char>>, version: Seq<char>)
    requires
        existing is None || first_line(existing->0) != stamp(version) || has_marker(
            rest_of(existing->0),
        ),
    ensures
        decision(existing, version) == Decision::Regenerate,
{
}

} // verus!
