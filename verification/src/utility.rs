//! The definition locator: finds an anchor in a buffer and returns the
//! brace-balanced text that starts there.
//!
//! The scan is made character by character. Braces inside string or comment
//! literals are counted like any other, so a block that holds an unpaired
//! brace in a literal is cut at the wrong place.

use vstd::prelude::*;
use crate::text::{
    chars_of, contains, find, first_occurrence, lemma_contains_found, lemma_find_from,
};

verus! {

/// What one character adds to the brace depth.
pub open spec fn brace_step(c: char) -> int {
    if c == '{' {
        1
    } else if c == '}' {
        -1
    } else {
        0
    }
}

/// Opening braces minus closing braces in `s`.
pub open spec fn net_depth(s: Seq<char>) -> int
    decreases s.len(),
{
    if s.len() == 0 {
        0
    } else {
        net_depth(s.drop_last()) + brace_step(s.last())
    }
}

/// The brace that was open at `from` is closed by the character before `end`,
/// where the depth is counted from 1 at `from`.
pub open spec fn closes_at(s: Seq<char>, from: int, end: int) -> bool {
    &&& from < end <= s.len()
    &&& 1 + net_depth(s.subrange(from, end)) == 0
}

/// Some brace closes the block that is open at `from`.
pub open spec fn block_closes(s: Seq<char>, from: int) -> bool {
    exists|end: int| closes_at(s, from, end)
}

/// Where a scan that stands at `pos` with depth `depth` stops: just behind the
/// first character that brings the depth to zero, or at the end of `s`.
pub open spec fn scan_end(s: Seq<char>, pos: int, depth: int) -> int
    decreases s.len() - pos,
{
    if pos < 0 || pos >= s.len() {
        s.len() as int
    } else if depth + brace_step(s[pos]) == 0 {
        pos + 1
    } else {
        scan_end(s, pos + 1, depth + brace_step(s[pos]))
    }
}

/// The end of the block whose opening brace is the last character before
/// `from`.
pub open spec fn block_end(s: Seq<char>, from: int) -> int {
    scan_end(s, from, 1)
}

/// The text from the first occurrence of `start` in `content` to the end of
/// the block that `start` opens; `None` where `start` does not occur.
pub open spec fn definition_of(start: Seq<char>, content: Seq<char>) -> Option<Seq<char>> {
    match first_occurrence(content, start) {
        Some(i) => Some(content.subrange(i, block_end(content, i + start.len()))),
        None => None,
    }
}

proof fn lemma_net_depth_push(s: Seq<char>, from: int, pos: int)
    requires
        0 <= from <= pos < s.len(),
    ensures
        net_depth(s.subrange(from, pos + 1)) == net_depth(s.subrange(from, pos)) + brace_step(
            s[pos],
        ),
{
    assert(s.subrange(from, pos + 1).drop_last() =~= s.subrange(from, pos));
}

/// A scan that has counted the depth of `s[from..pos]` stops at the first
/// index behind `pos` where the block opened at `from` closes, and at the end
/// of `s` where there is none.
pub proof fn lemma_scan_end(s: Seq<char>, from: int, pos: int, depth: int)
    requires
        0 <= from <= pos <= s.len(),
        depth == 1 + net_depth(s.subrange(from, pos)),
    ensures
        pos <= scan_end(s, pos, depth) <= s.len(),
        forall|k: int| pos < k < scan_end(s, pos, depth) ==> !closes_at(s, from, k),
        closes_at(s, from, scan_end(s, pos, depth)) || (scan_end(s, pos, depth) == s.len()
            && forall|k: int| pos < k ==> !closes_at(s, from, k)),
    decreases s.len() - pos,
{
    if pos < s.len() {
        lemma_net_depth_push(s, from, pos);
        if depth + brace_step(s[pos]) != 0 {
            lemma_scan_end(s, from, pos + 1, depth + brace_step(s[pos]));
        }
    }
}

/// Where the block that is open at `from` ends.
pub fn close_index(s: &Vec<char>, from: usize) -> (end: usize)
    ensures
        end == block_end(s@, from as int),
        end <= s.len(),
        from <= s.len() ==> from <= end,
{
    if from > s.len() {
        return s.len();
    }
    let mut pos: usize = from;
    let mut depth: u128 = 1;
    while pos < s.len()
        invariant
            from <= pos <= s.len(),
            1 <= depth <= 1 + (pos - from),
            block_end(s@, from as int) == scan_end(s@, pos as int, depth as int),
        decreases s.len() - pos,
    {
        let c = s[pos];
        if c == '{' {
            depth += 1;
        } else if c == '}' {
            depth -= 1;
        }
        pos += 1;
        if depth == 0 {
            return pos;
        }
    }
    pos
}

/// The definition that `start` opens in `content`: the text from the first
/// occurrence of `start` to the brace that closes the block, both included.
/// `start` should end in the opening brace of the block. Where the block is
/// never closed the text runs to the end of `content`.
pub fn get_definition<'a>(start: &'a str, content: &'a str) -> (r: Option<&'a str>)
    ensures
        match r {
            Some(d) => definition_of(start@, content@) == Some(d@),
            None => definition_of(start@, content@) is None,
        },
        r is Some <==> contains(content@, start@),
{
    proof {
        lemma_contains_found(content@, start@);
    }
    let hay = chars_of(content);
    let needle = chars_of(start);
    match find(&hay, &needle, 0) {
        None => None,
        Some(i) => {
            proof {
                lemma_find_from(hay@, needle@, 0);
            }
            let end = close_index(&hay, i + needle.len());
            Some(content.substring_char(i, end))
        },
    }
}

/// Where the anchor occurs and some brace closes its block, the definition
/// found has the anchor in front, its text behind the anchor brings the depth
/// from 1 to exactly zero, and no shorter text from the anchor on does.
pub proof fn lemma_definition_balanced_and_minimal(start: Seq<char>, content: Seq<char>)
    requires
        first_occurrence(content, start) is Some,
        block_closes(content, first_occurrence(content, start)->0 + start.len()),
    ensures
        definition_of(start, content) is Some,
        ({
            let found = definition_of(start, content)->0;
            let body = found.skip(start.len() as int);
            &&& found.len() >= start.len()
            &&& found.take(start.len() as int) == start
            &&& 1 + net_depth(body) == 0
            &&& forall|n: int| 0 <= n < body.len() ==> 1 + net_depth(#[trigger] body.take(n)) != 0
        }),
{
    let i = first_occurrence(content, start)->0;
    let from = i + start.len();
    lemma_find_from(content, start, 0);
    lemma_scan_end(content, from, from, 1);
    let end = block_end(content, from);
    let e = choose|e: int| closes_at(content, from, e);
    assert(closes_at(content, from, end));
    let found = content.subrange(i, end);
    let body = found.skip(start.len() as int);
    assert(found.take(start.len() as int) =~= start);
    assert(body =~= content.subrange(from, end));
    assert forall|n: int| 0 <= n < body.len() implies 1 + net_depth(#[trigger] body.take(n))
        != 0 by {
        assert(body.take(n) =~= content.subrange(from, from + n));
        if n > 0 {
            assert(!closes_at(content, from, from + n));
        }
    }
}

} // verus!
