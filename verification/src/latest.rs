//! Picking the newest bundle among the files at hand.
//!
//! A bundle's file is named by a prefix, a hyphen, a version token and the
//! suffix `.map.js`. Version tokens are compared as plain text.

use vstd::prelude::*;
use crate::text::{append_chars, chars_of, ends_with, has_suffix, slice, string_of};

verus! {

/// The ending of a bundle's file name.
pub const MAP_SUFFIX: &'static str = ".map.js";

/// The directory that holds the bundles.
pub const DATA_DIRECTORY: &'static str = "data/";

/// `s` without `suffix` at its end, as often as it stands there.
pub open spec fn without_suffixes(s: Seq<char>, suffix: Seq<char>) -> Seq<char>
    decreases s.len(),
{
    if suffix.len() > 0 && ends_with(s, suffix) {
        without_suffixes(s.take(s.len() - suffix.len()), suffix)
    } else {
        s
    }
}

/// The index behind the last `c` before `end`, or 0 where there is none.
pub open spec fn behind_last(s: Seq<char>, c: char, end: int) -> int
    decreases end,
{
    if end <= 0 || end > s.len() {
        0
    } else if s[end - 1] == c {
        end
    } else {
        behind_last(s, c, end - 1)
    }
}

/// The version token of a bundle's file name: what stands behind the last
/// hyphen, before the suffix.
pub open spec fn version_token(file_name: Seq<char>) -> Seq<char> {
    let stem = without_suffixes(file_name, MAP_SUFFIX@);
    stem.skip(behind_last(stem, '-', stem.len() as int))
}

/// `a` comes before `b` in the order of strings, compared character by
/// character from index `i` on.
pub open spec fn precedes_from(a: Seq<char>, b: Seq<char>, i: int) -> bool
    decreases a.len() - i,
{
    if i < 0 || i >= b.len() {
        false
    } else if i >= a.len() {
        true
    } else if a[i] != b[i] {
        a[i] < b[i]
    } else {
        precedes_from(a, b, i + 1)
    }
}

/// `a` comes before `b` in the order of strings. Version tokens are compared
/// as plain text, so "10" comes before "9".
pub open spec fn precedes(a: Seq<char>, b: Seq<char>) -> bool {
    precedes_from(a, b, 0)
}

/// The newest bundle among `names[from..]`, given the newest found before:
/// each is a version token and the file name it comes from. A later file
/// takes the place of an earlier one only with a greater token.
pub open spec fn latest_from(
    names: Seq<Seq<char>>,
    from: int,
    best: Option<(Seq<char>, Seq<char>)>,
) -> Option<(Seq<char>, Seq<char>)>
    decreases names.len() - from,
{
    if from < 0 || from >= names.len() {
        best
    } else {
        let name = names[from];
        let better = ends_with(name, MAP_SUFFIX@) && match best {
            Some((version, _)) => precedes(version, version_token(name)),
            None => true,
        };
        latest_from(
            names,
            from + 1,
            if better {
                Some((version_token(name), name))
            } else {
                best
            },
        )
    }
}

/// The newest bundle among the files `names`: its version token and its path.
pub open spec fn latest_map(names: Seq<Seq<char>>) -> Option<(Seq<char>, Seq<char>)> {
    match latest_from(names, 0, None) {
        Some((version, name)) => Some((version, DATA_DIRECTORY@ + name)),
        None => None,
    }
}

proof fn lemma_precedes_transitive(a: Seq<char>, b: Seq<char>, c: Seq<char>, i: int)
    requires
        0 <= i,
        precedes_from(a, b, i),
        precedes_from(b, c, i),
    ensures
        precedes_from(a, c, i),
    decreases a.len() - i,
{
    if i < a.len() && a[i] == b[i] && b[i] == c[i] {
        lemma_precedes_transitive(a, b, c, i + 1);
    }
}

proof fn lemma_precedes_irreflexive(a: Seq<char>, i: int)
    requires
        0 <= i,
    ensures
        !precedes_from(a, a, i),
    decreases a.len() - i,
{
    if i < a.len() {
        lemma_precedes_irreflexive(a, i + 1);
    }
}

/// `best` is the token and name of a bundle among `names[..upto]`, and no
/// bundle among them has a greater token; or there is no bundle among them.
pub open spec fn greatest_among(
    names: Seq<Seq<char>>,
    upto: int,
    best: Option<(Seq<char>, Seq<char>)>,
) -> bool {
    match best {
        Some((version, name)) => {
            &&& exists|k: int|
                0 <= k < upto && k < names.len() && #[trigger] names[k] == name
            &&& ends_with(name, MAP_SUFFIX@)
            &&& version == version_token(name)
            &&& forall|j: int|
                0 <= j < upto && j < names.len() && ends_with(#[trigger] names[j], MAP_SUFFIX@)
                    ==> !precedes(version, version_token(names[j]))
        },
        None => forall|j: int|
            0 <= j < upto && j < names.len() ==> !ends_with(#[trigger] names[j], MAP_SUFFIX@),
    }
}

proof fn lemma_latest_from(names: Seq<Seq<char>>, from: int, best: Option<(Seq<char>, Seq<char>)>)
    requires
        0 <= from <= names.len(),
        greatest_among(names, from, best),
    ensures
        greatest_among(names, names.len() as int, latest_from(names, from, best)),
    decreases names.len() - from,
{
    if from < names.len() {
        let name = names[from];
        let candidate = version_token(name);
        let better = ends_with(name, MAP_SUFFIX@) && match best {
            Some((version, _)) => precedes(version, candidate),
            None => true,
        };
        let next = if better {
            Some((candidate, name))
        } else {
            best
        };
        if better {
            lemma_precedes_irreflexive(candidate, 0);
            assert forall|j: int|
                0 <= j < from + 1 && j < names.len() && ends_with(#[trigger] names[j], MAP_SUFFIX@)
                    implies !precedes(candidate, version_token(names[j])) by {
                if j < from && precedes(candidate, version_token(names[j])) {
                    let (version, _) = best->0;
                    lemma_precedes_transitive(version, candidate, version_token(names[j]), 0);
                }
            }
            assert(names[from] == name);
        } else {
            if best is Some {
                let k = choose|k: int|
                    0 <= k < from && k < names.len() && #[trigger] names[k] == (best->0).1;
                assert(0 <= k < from + 1 && names[k] == (best->0).1);
            }
        }
        assert(greatest_among(names, from + 1, next));
        lemma_latest_from(names, from + 1, next);
    }
}

/// The bundle picked is one of the files named, its name ends in the bundle
/// suffix, and no bundle named has a version token that comes behind its own
/// in the order of strings. Nothing is picked only where no bundle is named.
pub proof fn lemma_latest_is_greatest(names: Seq<Seq<char>>)
    ensures
        greatest_among(names, names.len() as int, latest_from(names, 0, None)),
{
    lemma_latest_from(names, 0, None);
}

/// The version token of a bundle's file name.
fn token(file_name: &Vec<char>) -> (r: Vec<char>)
    ensures
        r@ == version_token(file_name@),
{
    let suffix = chars_of(MAP_SUFFIX);
    let mut end: usize = file_name.len();
    assert(file_name@.take(end as int) =~= file_name@);
    while suffix.len() > 0 && has_suffix(file_name, end, &suffix)
        invariant
            end <= file_name.len(),
            suffix@ == MAP_SUFFIX@,
            without_suffixes(file_name@, MAP_SUFFIX@) == without_suffixes(
                file_name@.take(end as int),
                MAP_SUFFIX@,
            ),
        decreases end,
    {
        assert(file_name@.take(end as int).take(end - suffix.len()) =~= file_name@.take(
            end - suffix.len(),
        ));
        end -= suffix.len();
    }
    let ghost stem = file_name@.take(end as int);
    let mut start: usize = end;
    while start > 0 && file_name[start - 1] != '-'
        invariant
            start <= end <= file_name.len(),
            stem == file_name@.take(end as int),
            behind_last(stem, '-', end as int) == behind_last(stem, '-', start as int),
        decreases start,
    {
        start -= 1;
    }
    let r = slice(file_name, start, end);
    assert(r@ =~= stem.skip(start as int));
    r
}

/// Whether `a` comes before `b` in the order of strings.
fn less(a: &Vec<char>, b: &Vec<char>) -> (r: bool)
    ensures
        r == precedes(a@, b@),
{
    let mut i: usize = 0;
    loop
        invariant
            i <= a.len(),
            i <= b.len(),
            precedes(a@, b@) == precedes_from(a@, b@, i as int),
        decreases a.len() - i,
    {
        if i >= b.len() {
            return false;
        }
        if i >= a.len() {
            return true;
        }
        if a[i] != b[i] {
            return a[i] < b[i];
        }
        i += 1;
    }
}

/// Picks the newest bundle among the files of the data directory. `file_names`
/// are the names found there, in the order in which the directory gave them.
/// A bundle is a file whose name ends in `.map.js`; the newest is the one
/// with the greatest version token, and among equal tokens the first named.
/// Returns its version token and its path, or `None` where no bundle is
/// there.
pub fn find_latest_map(file_names: &Vec<String>) -> (r: Option<(String, String)>)
    ensures
        match r {
            Some((version, path)) => latest_map(file_names.deep_view()) == Some(
                (version@, path@),
            ),
            None => latest_map(file_names.deep_view()) is None,
        },
{
    let suffix = chars_of(MAP_SUFFIX);
    let ghost names = file_names.deep_view();
    let mut best: Option<(Vec<char>, Vec<char>)> = None;
    let mut i: usize = 0;
    while i < file_names.len()
        invariant
            i <= file_names.len(),
            names == file_names.deep_view(),
            suffix@ == MAP_SUFFIX@,
            latest_from(names, 0, None) == latest_from(
                names,
                i as int,
                match best {
                    Some((v, n)) => Some((v@, n@)),
                    None => None,
                },
            ),
        decreases file_names.len() - i,
    {
        let name = chars_of(file_names[i].as_str());
        assert(name@ == names[i as int]);
        assert(name@.take(name.len() as int) =~= name@);
        if has_suffix(&name, name.len(), &suffix) {
            let version = token(&name);
            let better = match &best {
                Some((v, _)) => less(v, &version),
                None => true,
            };
            if better {
                best = Some((version, name));
            }
        }
        i += 1;
    }
    match best {
        Some((version, name)) => {
            let mut path = chars_of(DATA_DIRECTORY);
            append_chars(&mut path, &name);
            Some((string_of(&version), string_of(&path)))
        },
        None => None,
    }
}

} // verus!
