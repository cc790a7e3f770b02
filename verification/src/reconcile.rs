//! The reconciliation engine: the status of every known migration, and the
//! applied migrations that another branch does not have.

use vstd::prelude::*;
use crate::catalog::{
    ascending, in_order, lemma_ascending_distinct, lemma_in_order, lemma_same_view_same_order,
    VersionMap,
};
use crate::migration::{Migration, MigrationStatus, MigrationView};
use crate::text::{lemma_precedes_total, precedes, same_text};

verus! {

/// The description of an applied migration that has no file.
pub const NO_FILE: &'static str = "NO FILE";

/// The entry of an applied version: its file's migration marked `Up`, or a
/// migration without a file.
pub open spec fn applied_entry(files: Map<Seq<char>, MigrationView>, version: Seq<char>) -> MigrationView {
    if files.contains_key(version) {
        MigrationView {
            version: files[version].version,
            description: files[version].description,
            status: MigrationStatus::Up,
        }
    } else {
        MigrationView { version, description: NO_FILE@, status: MigrationStatus::Up }
    }
}

/// The status of every migration that has a file or is applied: an applied
/// version is `Up`, with its file's description or `NO_FILE`; a file whose
/// version is not applied stays as the catalog has it.
pub open spec fn status_of(files: Map<Seq<char>, MigrationView>, applied: Set<Seq<char>>) -> Map<
    Seq<char>,
    MigrationView,
> {
    Map::new(
        |v: Seq<char>| files.contains_key(v) || applied.contains(v),
        |v: Seq<char>|
            if applied.contains(v) {
                applied_entry(files, v)
            } else {
                files[v]
            },
    )
}

/// A sequence with one more item holds what it held before and that item.
pub proof fn lemma_push_contains<A>(s: Seq<A>, x: A, k: A)
    ensures
        s.push(x).contains(k) <==> s.contains(k) || k == x,
{
    if s.contains(k) {
        let j = s.index_of(k);
        assert(s.push(x)[j] == k);
    }
    if k == x {
        assert(s.push(x)[s.len() as int] == k);
    }
    if s.push(x).contains(k) {
        let j = s.push(x).index_of(k);
        if j < s.len() {
            assert(s[j] == k);
        }
    }
}

/// Whether `list` holds a string with the characters of `key`.
pub fn holds(list: &Vec<String>, key: &str) -> (r: bool)
    ensures
        r == list.deep_view().contains(key@),
{
    let mut i: usize = 0;
    while i < list.len()
        invariant
            i <= list.len(),
            forall|j: int| 0 <= j < i ==> list.deep_view()[j] != key@,
        decreases list.len() - i,
    {
        if same_text(list[i].as_str(), key) {
            assert(list.deep_view()[i as int] == key@);
            return true;
        }
        i += 1;
    }
    false
}

/// Merges the catalog of migration files with the applied versions.  Every
/// applied version is marked `Up`; one without a file gets an entry of its own
/// with the description `NO_FILE`.  The result holds its entries in ascending
/// order of version.
pub fn reconcile_status(files: VersionMap<Migration>, applied: &Vec<String>) -> (report:
    VersionMap<Migration>)
    ensures
        report.wf(),
        report@ == status_of(files@, applied.deep_view().to_set()),
{
    let ghost catalog = files@;
    let ghost all = applied.deep_view();
    let mut report = files;
    proof {
        use_type_invariant(&report);
    }
    assert(report@ =~= status_of(catalog, all.take(0).to_set()));
    let mut i: usize = 0;
    while i < applied.len()
        invariant
            i <= applied.len(),
            all == applied.deep_view(),
            report.wf(),
            report@ == status_of(catalog, all.take(i as int).to_set()),
        decreases applied.len() - i,
    {
        let version = &applied[i];
        let entry = match report.get(version.as_str()) {
            Some(m) => Migration {
                version: m.version.clone(),
                description: m.description.clone(),
                status: MigrationStatus::Up,
            },
            None => Migration {
                version: version.clone(),
                description: NO_FILE.to_owned(),
                status: MigrationStatus::Up,
            },
        };
        report.insert(version.clone(), entry);
        proof {
            assert(all.take(i + 1) =~= all.take(i as int).push(version@));
            assert forall|k: Seq<char>|
                all.take(i + 1).to_set().contains(k) <==> all.take(i as int).to_set().contains(k)
                    || k == version@ by {
                lemma_push_contains(all.take(i as int), version@, k);
            }
            assert(report@ =~= status_of(catalog, all.take(i + 1).to_set()));
        }
        i += 1;
    }
    assert(all.take(applied.len() as int) =~= all);
    report
}

/// Reconciling a report with the same applied versions once more changes
/// nothing.
pub proof fn lemma_status_idempotent(files: Map<Seq<char>, MigrationView>, applied: Set<Seq<char>>)
    ensures
        status_of(status_of(files, applied), applied) == status_of(files, applied),
{
    assert(status_of(status_of(files, applied), applied) =~= status_of(files, applied));
}

/// Two runs of the status reconciliation on the same files and the same
/// applied versions give the same entries in the same order.
pub proof fn lemma_status_repeatable(
    files: Map<Seq<char>, MigrationView>,
    applied: Set<Seq<char>>,
    first: VersionMap<Migration>,
    second: VersionMap<Migration>,
)
    requires
        first.wf(),
        second.wf(),
        first@ == status_of(files, applied),
        second@ == status_of(files, applied),
    ensures
        first.keys() == second.keys(),
        first.values() == second.values(),
{
    lemma_same_view_same_order(first, second);
}

/// The versions that are applied and were added on the other side of the
/// diff, in ascending order.
pub open spec fn rollback_of(applied: Seq<Seq<char>>, added: Set<Seq<char>>) -> Seq<Seq<char>> {
    in_order(applied.to_set().intersect(added))
}

/// The versions to roll back depend on which versions are applied, not on the
/// order in which they are listed nor on how often one is listed.
pub proof fn lemma_rollback_order_free(
    first: Seq<Seq<char>>,
    second: Seq<Seq<char>>,
    added: Set<Seq<char>>,
)
    requires
        forall|v: Seq<char>| first.contains(v) <==> second.contains(v),
    ensures
        rollback_of(first, added) == rollback_of(second, added),
{
    assert(first.to_set() =~= second.to_set());
}

/// Computes the applied versions that the diff reports as added: the
/// intersection of the two sets, each version once, in ascending order,
/// whatever the order and the repetitions of `applied`.
pub fn reconcile_target(applied: &Vec<String>, added: &VersionMap<String>) -> (u: Vec<String>)
    ensures
        u.deep_view() == rollback_of(applied.deep_view(), added@.dom()),
        ascending(u.deep_view()),
        u.deep_view().no_duplicates(),
        forall|v: Seq<char>|
            u.deep_view().contains(v) <==> applied.deep_view().contains(v) && added@.contains_key(
                v,
            ),
{
    let mut u: Vec<String> = Vec::new();
    let n: usize = added.len();
    proof {
        use_type_invariant(added);
    }
    let ghost keys = added.keys();
    let ghost all = applied.deep_view();
    let mut j: usize = 0;
    while j < n
        invariant
            j <= n,
            n == keys.len(),
            keys == added.keys(),
            added.wf(),
            all == applied.deep_view(),
            ascending(u.deep_view()),
            forall|v: Seq<char>|
                #![trigger u.deep_view().contains(v)]
                #![trigger keys.take(j as int).contains(v)]
                u.deep_view().contains(v) <==> all.contains(v) && keys.take(j as int).contains(v),
        decreases n - j,
    {
        let key = added.key_at(j);
        let ghost before = u.deep_view();
        assert(keys.take(j + 1) =~= keys.take(j as int).push(key@));
        if holds(applied, key.as_str()) {
            u.push(key.clone());
            proof {
                assert(u.deep_view() =~= before.push(key@));
                assert forall|a: int, b: int| 0 <= a < b < u.deep_view().len() implies precedes(
                    u.deep_view()[a],
                    u.deep_view()[b],
                ) by {
                    if b == before.len() {
                        assert(before.contains(before[a]));
                        let c = keys.take(j as int).index_of(before[a]);
                        assert(keys[c] == before[a]);
                    }
                }
                assert forall|v: Seq<char>|
                    #![trigger u.deep_view().contains(v)]
                    #![trigger keys.take(j + 1).contains(v)]
                    u.deep_view().contains(v) <==> all.contains(v) && keys.take(j + 1).contains(
                        v,
                    ) by {
                    lemma_push_contains(before, key@, v);
                    lemma_push_contains(keys.take(j as int), key@, v);
                }
            }
        } else {
            proof {
                assert forall|v: Seq<char>|
                    #![trigger u.deep_view().contains(v)]
                    #![trigger keys.take(j + 1).contains(v)]
                    u.deep_view().contains(v) <==> all.contains(v) && keys.take(j + 1).contains(
                        v,
                    ) by {
                    lemma_push_contains(keys.take(j as int), key@, v);
                }
            }
        }
        j += 1;
    }
    proof {
        assert(keys.take(n as int) =~= keys);
        let target = all.to_set().intersect(added@.dom());
        assert forall|v: Seq<char>| u.deep_view().contains(v) <==> target.contains(v) by {
            assert(added@.dom().contains(v) == keys.contains(v));
        }
        lemma_in_order(u.deep_view(), target);
        assert forall|a: int, b: int|
            0 <= a < u.deep_view().len() && 0 <= b < u.deep_view().len() && a != b implies u.deep_view()[a]
            != u.deep_view()[b] by {
            if u.deep_view()[a] == u.deep_view()[b] {
                lemma_ascending_distinct(u.deep_view(), a, b);
            }
        }
    }
    u
}

/// Read from its end, an ascending sequence descends: every version sorts
/// strictly after the versions behind it.
pub proof fn lemma_reverse_descends(u: Seq<Seq<char>>)
    requires
        ascending(u),
    ensures
        forall|i: int, j: int|
            0 <= i < j < u.len() ==> precedes(u.reverse()[j], u.reverse()[i]),
{
    assert forall|i: int, j: int| 0 <= i < j < u.len() implies precedes(
        u.reverse()[j],
        u.reverse()[i],
    ) by {
        assert(u.reverse()[j] == u[u.len() - 1 - j]);
        assert(u.reverse()[i] == u[u.len() - 1 - i]);
    }
}

} // verus!
