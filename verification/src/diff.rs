//! The reader of a branch diff: from the name-and-status listing of a diff
//! against another branch to the migrations that were added, each version
//! with its description.

use vstd::prelude::*;
use crate::catalog::{gathered, lemma_gathered_skip, VersionMap};
use crate::migration::{parts_of, version_and_name};
use crate::pattern::{pattern_compiles, search_of, Groups, Pattern};
use crate::text::{capitalized, humanized, lines, lines_of, to_capitalized_human_string};

verus! {

/// The pattern of a diff line that reports an added migration file: the
/// status `A`, white space, and a migration file's path below `db/migrate/`.
/// The first group is the version, the second the name.
pub const DIFF_PATTERN: &'static str = "^A\\s+db/migrate/(\\d+)_(.+)\\.rb";

/// What a line of the listing adds: a version with its description, or
/// nothing where the line does not match `DIFF_PATTERN`.
pub open spec fn diff_binding(line: Seq<char>) -> Option<(Seq<char>, Seq<char>)> {
    match parts_of(search_of(DIFF_PATTERN@, line)) {
        Some((version, name)) => Some((version, capitalized(humanized(name)))),
        None => None,
    }
}

/// The bindings of the lines of a listing, line by line.
pub open spec fn diff_bindings(listing: Seq<Seq<char>>) -> Seq<Option<(Seq<char>, Seq<char>)>> {
    Seq::new(listing.len(), |i: int| diff_binding(listing[i]))
}

/// The added migrations that the lines of a listing report.
pub open spec fn added_of(listing: Seq<Seq<char>>) -> Map<Seq<char>, Seq<char>> {
    gathered(diff_bindings(listing))
}

/// The added migrations of a diff run: those of the lines of its output where
/// the run succeeded, none where it failed.
pub open spec fn diff_of(succeeded: bool, output: Seq<char>) -> Map<Seq<char>, Seq<char>> {
    if succeeded {
        added_of(lines_of(output))
    } else {
        Map::empty()
    }
}

/// A line that `DIFF_PATTERN` does not match adds nothing, wherever it stands
/// in the listing: the added migrations are those of the listing without it.
pub proof fn lemma_unmatched_line_adds_nothing(
    before: Seq<Seq<char>>,
    line: Seq<char>,
    after: Seq<Seq<char>>,
)
    requires
        search_of(DIFF_PATTERN@, line) is None,
    ensures
        added_of(before.push(line) + after) == added_of(before + after),
{
    assert(diff_bindings(before.push(line) + after) =~= diff_bindings(before).push(None)
        + diff_bindings(after));
    assert(diff_bindings(before + after) =~= diff_bindings(before) + diff_bindings(after));
    lemma_gathered_skip(diff_bindings(before), diff_bindings(after));
}

/// With a pattern that does not compile no line adds anything.
proof fn lemma_nothing_without_pattern(listing: Seq<Seq<char>>)
    requires
        !pattern_compiles(DIFF_PATTERN@),
    ensures
        added_of(listing) == Map::<Seq<char>, Seq<char>>::empty(),
    decreases listing.len(),
{
    if listing.len() > 0 {
        assert(diff_bindings(listing).drop_last() =~= diff_bindings(listing.drop_last()));
        lemma_nothing_without_pattern(listing.drop_last());
    }
}

/// The version and the description in the groups that a search of a diff line
/// captured.
pub fn added_migration(groups: &Option<Groups>) -> (r: Option<(String, String)>)
    ensures
        r.deep_view() == match parts_of(groups.deep_view()) {
            Some((version, name)) => Some((version, capitalized(humanized(name)))),
            None => None,
        },
{
    match version_and_name(groups) {
        Some((version, name)) => Some((version, to_capitalized_human_string(name.as_str()))),
        None => None,
    }
}

/// Reads the migrations that a diff against another branch reports as added.
/// `succeeded` says whether the diff run ended with status zero, `output` is
/// what it printed.  A failed run gives the empty map.  Only lines that match
/// `DIFF_PATTERN` count; where two lines carry one version, the later one
/// stays.
pub fn migration_diff(succeeded: bool, output: &str) -> (added: VersionMap<String>)
    ensures
        added.wf(),
        added@ == diff_of(succeeded, output@),
{
    let mut added: VersionMap<String> = VersionMap::new();
    if !succeeded {
        return added;
    }
    let listing = lines(output);
    let ghost all = listing.deep_view();
    let pattern = match Pattern::new(DIFF_PATTERN) {
        Some(pattern) => pattern,
        None => {
            proof {
                lemma_nothing_without_pattern(all);
            }
            return added;
        },
    };
    let mut i: usize = 0;
    while i < listing.len()
        invariant
            i <= listing.len(),
            all == listing.deep_view(),
            pattern_compiles(DIFF_PATTERN@),
            pattern.source() == DIFF_PATTERN@,
            added.wf(),
            added@ == added_of(all.take(i as int)),
        decreases listing.len() - i,
    {
        assert(diff_bindings(all.take(i + 1)).drop_last() =~= diff_bindings(all.take(i as int)));
        assert(diff_bindings(all.take(i + 1)).last() == diff_binding(listing[i as int]@));
        let groups = pattern.captures(listing[i].as_str());
        match added_migration(&groups) {
            Some((version, description)) => {
                added.insert(version, description);
            },
            None => {},
        }
        i += 1;
    }
    assert(all.take(listing.len() as int) =~= all);
    added
}

} // verus!
