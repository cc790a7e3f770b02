//! Migrations, the parser that reads a version and a description out of a
//! file name, and the catalog of the migration files of a directory.

use vstd::prelude::*;
use crate::catalog::{gathered, lemma_gathered_skip, VersionMap};
use crate::pattern::{search, search_of, Groups};
use crate::text::{capitalized, humanized, to_capitalized_human_string, uppercase_of};

verus! {

/// Whether a migration is recorded as applied to the database (`Up`) or not
/// (`Down`).
#[derive(Clone, Copy, Debug, PartialEq, Eq, Structural)]
pub enum MigrationStatus {
    Up,
    Down,
}

impl MigrationStatus {
    /// The four-character marker that a status report shows.
    pub open spec fn marker(self) -> Seq<char> {
        match self {
            MigrationStatus::Up => " up "@,
            MigrationStatus::Down => "down"@,
        }
    }

    /// The marker of this status: `" up "` or `"down"`.
    pub fn as_str(&self) -> (r: &'static str)
        ensures
            r@ == self.marker(),
    {
        match self {
            MigrationStatus::Up => " up ",
            MigrationStatus::Down => "down",
        }
    }
}

/// One schema migration.
#[derive(Clone, Debug, PartialEq, Eq)]
pub struct Migration {
    pub version: String,
    pub description: String,
    pub status: MigrationStatus,
}

/// A migration as contracts see it: its strings as sequences of characters.
pub struct MigrationView {
    pub version: Seq<char>,
    pub description: Seq<char>,
    pub status: MigrationStatus,
}

impl View for Migration {
    type V = MigrationView;

    open spec fn view(&self) -> MigrationView {
        MigrationView {
            version: self.version@,
            description: self.description@,
            status: self.status,
        }
    }
}

/// The pattern of a migration file's name: digits, an underscore, a name and
/// the extension `.rb`.  The first group is the version, the second the name.
pub const FILE_PATTERN: &'static str = "(\\d+)_(.+)\\.rb";

/// The version and the name that a search captured: its first and second
/// group, where the search matched and both groups took part.
pub open spec fn parts_of(groups: Option<Seq<Option<Seq<char>>>>) -> Option<
    (Seq<char>, Seq<char>),
> {
    match groups {
        Some(g) => if g.len() >= 3 && g[1] is Some && g[2] is Some {
            Some((g[1]->0, g[2]->0))
        } else {
            None
        },
        None => None,
    }
}

/// Picks the version and the name out of the groups of a search.
pub fn version_and_name(groups: &Option<Groups>) -> (r: Option<(String, String)>)
    ensures
        r.deep_view() == parts_of(groups.deep_view()),
{
    match groups {
        Some(g) => {
            if g.len() >= 3 {
                match (&g[1], &g[2]) {
                    (Some(version), Some(name)) => Some((version.clone(), name.clone())),
                    _ => None,
                }
            } else {
                None
            }
        },
        None => None,
    }
}

/// The version and the name in a file name, `None` where the name is not that
/// of a migration file.
pub open spec fn file_name_parts(name: Seq<char>) -> Option<(Seq<char>, Seq<char>)> {
    parts_of(search_of(FILE_PATTERN@, name))
}

/// Splits a file name into version and name.  A file name that does not match
/// `FILE_PATTERN` gives `None`.
pub fn split_file_name(name: &str) -> (r: Option<(String, String)>)
    ensures
        r.deep_view() == file_name_parts(name@),
{
    let groups = search(FILE_PATTERN, name);
    version_and_name(&groups)
}

/// The migration that a version and a file's name stand for: not applied, and
/// described by the name with spaces for underscores and an uppercase first
/// character.
pub open spec fn described(version: Seq<char>, name: Seq<char>) -> MigrationView {
    MigrationView {
        version,
        description: capitalized(humanized(name)),
        status: MigrationStatus::Down,
    }
}

/// Builds the migration of a file from the two parts of its name.
pub fn migration_of(version: String, name: &str) -> (m: Migration)
    ensures
        m@ == described(version@, name@),
{
    Migration {
        version,
        description: to_capitalized_human_string(name),
        status: MigrationStatus::Down,
    }
}

/// What a file name adds to the catalog: its migration under its version, or
/// nothing.
pub open spec fn file_binding(name: Seq<char>) -> Option<(Seq<char>, MigrationView)> {
    match file_name_parts(name) {
        Some((version, rest)) => Some((version, described(version, rest))),
        None => None,
    }
}

/// A file name in which `FILE_PATTERN` captures the version `version` and the
/// name `rest` stands for the migration of that version, not applied, whose
/// description is `rest` with a space for every underscore and with its first
/// character in upper case.
pub proof fn lemma_file_name_recovered(
    name: Seq<char>,
    groups: Seq<Option<Seq<char>>>,
    version: Seq<char>,
    rest: Seq<char>,
)
    requires
        search_of(FILE_PATTERN@, name) == Some(groups),
        groups.len() >= 3,
        groups[1] == Some(version),
        groups[2] == Some(rest),
    ensures
        file_name_parts(name) == Some((version, rest)),
        file_binding(name) == Some((version, described(version, rest))),
        described(version, rest).version == version,
        described(version, rest).status == MigrationStatus::Down,
        humanized(rest).len() == rest.len(),
        forall|i: int|
            0 <= i < rest.len() ==> humanized(rest)[i] == (if rest[i] == '_' {
                ' '
            } else {
                rest[i]
            }),
        rest.len() > 0 ==> described(version, rest).description == uppercase_of(humanized(rest)[0])
            + humanized(rest).drop_first(),
{
}

/// The bindings of a list of file names, name by name.
pub open spec fn file_bindings(names: Seq<Seq<char>>) -> Seq<Option<(Seq<char>, MigrationView)>> {
    Seq::new(names.len(), |i: int| file_binding(names[i]))
}

/// The catalog of a list of file names, taken in order.
pub open spec fn catalog_of(names: Seq<Seq<char>>) -> Map<Seq<char>, MigrationView> {
    gathered(file_bindings(names))
}

/// A file name that `FILE_PATTERN` does not match adds nothing, wherever it
/// stands in the list: the catalog is that of the list without it.
pub proof fn lemma_unmatched_name_adds_nothing(
    before: Seq<Seq<char>>,
    name: Seq<char>,
    after: Seq<Seq<char>>,
)
    requires
        search_of(FILE_PATTERN@, name) is None,
    ensures
        catalog_of(before.push(name) + after) == catalog_of(before + after),
{
    assert(file_bindings(before.push(name) + after) =~= file_bindings(before).push(None)
        + file_bindings(after));
    assert(file_bindings(before + after) =~= file_bindings(before) + file_bindings(after));
    lemma_gathered_skip(file_bindings(before), file_bindings(after));
}

/// The migration that a file name stands for, `None` where the name is not
/// that of a migration file.
pub fn migration_from_file_name(name: &str) -> (r: Option<Migration>)
    ensures
        r is Some <==> file_binding(name@) is Some,
        r matches Some(m) ==> file_binding(name@) == Some((m@.version, m@)),
{
    match split_file_name(name) {
        Some((version, rest)) => Some(migration_of(version, rest.as_str())),
        None => None,
    }
}

/// Catalogs the migration files among `names`, the names of the files of the
/// migrations directory.  Names that are not those of migration files are
/// passed over; where two names carry one version, the later one stays.
pub fn migration_files(names: &Vec<String>) -> (files: VersionMap<Migration>)
    ensures
        files.wf(),
        files@ == catalog_of(names.deep_view()),
{
    let mut files: VersionMap<Migration> = VersionMap::new();
    let ghost all = names.deep_view();
    let mut i: usize = 0;
    while i < names.len()
        invariant
            i <= names.len(),
            all == names.deep_view(),
            files.wf(),
            files@ == catalog_of(all.take(i as int)),
        decreases names.len() - i,
    {
        assert(file_bindings(all.take(i + 1)).drop_last() =~= file_bindings(all.take(i as int)));
        assert(file_bindings(all.take(i + 1)).last() == file_binding(names[i as int]@));
        match migration_from_file_name(names[i].as_str()) {
            Some(m) => {
                files.insert(m.version.clone(), m);
            },
            None => {},
        }
        i += 1;
    }
    assert(all.take(names.len() as int) =~= all);
    files
}

} // verus!
