//! What the three commands hand to their caller: the lines of the status
//! report, the lines of the diff report, and the argument of the rollback.

use vstd::prelude::*;
use vstd::string::StringExecFns;
use crate::catalog::{in_order, lemma_stored_in_order, VersionMap};
use crate::migration::{Migration, MigrationView};
use crate::reconcile::{reconcile_status, reconcile_target, rollback_of, status_of};
use crate::text::{decimal, decimal_string, join, joined};

verus! {

/// What follows the count in the first line of a diff report.
pub const HEADING: &'static str = " migration(s) should be rollbacked!";

/// The rule below the first line of a diff report.
pub const RULE: &'static str = "-------------------------------------------";

/// What stands before the versions in the argument of a rollback.
pub const ROLLBACK_PREFIX: &'static str = "VERSIONS=";

/// What stands before the version in the argument of the rollback of a single
/// version.
pub const SINGLE_PREFIX: &'static str = "VERSION=";

/// What stands between the versions in the argument of a rollback.
pub const SEPARATOR: &'static str = ",";

/// The line of one migration in a status report: a blank, the status marker,
/// four blanks, the version, two blanks, the description.
pub open spec fn status_text(m: MigrationView) -> Seq<char> {
    " "@ + m.status.marker() + "    "@ + m.version + "  "@ + m.description
}

/// The status report of a set of migrations: one line for each, in ascending
/// order of version.
pub open spec fn status_report(migrations: Map<Seq<char>, MigrationView>) -> Seq<Seq<char>> {
    let versions = in_order(migrations.dom());
    Seq::new(versions.len(), |i: int| status_text(migrations[versions[i]]))
}

/// Writes the line of one migration in a status report.
pub fn status_line(m: &Migration) -> (line: String)
    ensures
        line@ == status_text(m@),
{
    let mut line = String::new();
    line.append(" ");
    line.append(m.status.as_str());
    line.append("    ");
    line.append(m.version.as_str());
    line.append("  ");
    line.append(m.description.as_str());
    assert(line@ =~= status_text(m@));
    line
}

/// Writes the status report of the migrations in `report`.
pub fn status_lines(report: &VersionMap<Migration>) -> (lines: Vec<String>)
    ensures
        lines.deep_view() == status_report(report@),
{
    let mut lines: Vec<String> = Vec::new();
    let n: usize = report.len();
    proof {
        use_type_invariant(report);
    }
    let mut i: usize = 0;
    while i < n
        invariant
            i <= n,
            n == report.keys().len(),
            report.wf(),
            lines.deep_view() == Seq::new(i as nat, |k: int| status_text(report.values()[k])),
        decreases n - i,
    {
        let ghost before = lines.deep_view();
        let line = status_line(report.value_at(i));
        lines.push(line);
        assert(lines.deep_view() =~= before.push(status_text(report.values()[i as int])));
        i += 1;
        assert(lines.deep_view() =~= Seq::new(i as nat, |k: int| status_text(report.values()[k])));
    }
    proof {
        lemma_stored_in_order(*report);
        assert(lines.deep_view() =~= status_report(report@));
    }
    lines
}

/// The `status` command: the report of every migration that has a file among
/// `files` or is among the `applied` versions, in ascending order of version.
pub fn command_status(files: VersionMap<Migration>, applied: &Vec<String>) -> (lines: Vec<String>)
    ensures
        lines.deep_view() == status_report(status_of(files@, applied.deep_view().to_set())),
{
    let report = reconcile_status(files, applied);
    status_lines(&report)
}

/// The diff report of the versions `u`: nothing where `u` is empty; else the
/// count with `HEADING`, the rule, and for each version of `u` in turn the
/// version, a blank and its description in `added`.
pub open spec fn diff_report(u: Seq<Seq<char>>, added: Map<Seq<char>, Seq<char>>) -> Seq<Seq<char>> {
    if u.len() == 0 {
        Seq::empty()
    } else {
        seq![decimal(u.len()) + HEADING@, RULE@] + Seq::new(
            u.len(),
            |i: int| u[i] + " "@ + added[u[i]],
        )
    }
}

/// Writes the diff report of the versions `u`, which are versions of `added`.
pub fn dump(u: &Vec<String>, added: &VersionMap<String>) -> (lines: Vec<String>)
    requires
        forall|i: int| 0 <= i < u.len() ==> added@.contains_key(u.deep_view()[i]),
    ensures
        lines.deep_view() == diff_report(u.deep_view(), added@),
{
    let mut lines: Vec<String> = Vec::new();
    if u.len() == 0 {
        assert(lines.deep_view() =~= diff_report(u.deep_view(), added@));
        return lines;
    }
    let mut first = decimal_string(u.len());
    first.append(HEADING);
    lines.push(first);
    lines.push(RULE.to_owned());
    let ghost head = seq![decimal(u.len() as nat) + HEADING@, RULE@];
    assert(lines.deep_view() =~= head);
    let mut i: usize = 0;
    while i < u.len()
        invariant
            i <= u.len(),
            forall|k: int| 0 <= k < u.len() ==> added@.contains_key(u.deep_view()[k]),
            lines.deep_view() == head + Seq::new(
                i as nat,
                |k: int| u.deep_view()[k] + " "@ + added@[u.deep_view()[k]],
            ),
        decreases u.len() - i,
    {
        let ghost before = lines.deep_view();
        let version = &u[i];
        assert(version@ == u.deep_view()[i as int]);
        let mut line = version.clone();
        line.append(" ");
        match added.get(version.as_str()) {
            Some(description) => {
                line.append(description.as_str());
            },
            None => {},
        }
        lines.push(line);
        assert(lines.deep_view() =~= before.push(version@ + " "@ + added@[version@]));
        i += 1;
        assert(lines.deep_view() =~= head + Seq::new(
            i as nat,
            |k: int| u.deep_view()[k] + " "@ + added@[u.deep_view()[k]],
        ));
    }
    assert(lines.deep_view() =~= diff_report(u.deep_view(), added@));
    lines
}

/// The `diff` command: the report of the applied versions that the diff
/// reports as added, in ascending order; nothing where there is none.
pub fn command_diff(applied: &Vec<String>, added: &VersionMap<String>) -> (lines: Vec<String>)
    ensures
        lines.deep_view() == diff_report(rollback_of(applied.deep_view(), added@.dom()), added@),
{
    let u = reconcile_target(applied, added);
    assert forall|i: int| 0 <= i < u.len() implies added@.contains_key(u.deep_view()[i]) by {
        assert(u.deep_view().contains(u.deep_view()[i]));
    }
    dump(&u, added)
}

/// The arguments of the rollbacks that take back the versions `u` one by one:
/// for each version, from the last to the first, `SINGLE_PREFIX` and the
/// version.
pub open spec fn single_arguments(u: Seq<Seq<char>>) -> Seq<Seq<char>> {
    Seq::new(u.len(), |i: int| SINGLE_PREFIX@ + u[u.len() - 1 - i])
}

/// Writes the arguments of the rollbacks that take back the versions `u` one
/// at a time, the last version first.  The `down` command does not roll back
/// this way: it hands all versions to one run, see `migrate_down_multi`.
pub fn migrate_down(u: &Vec<String>) -> (arguments: Vec<String>)
    ensures
        arguments.deep_view() == single_arguments(u.deep_view()),
{
    let mut arguments: Vec<String> = Vec::new();
    let mut i: usize = u.len();
    while i > 0
        invariant
            i <= u.len(),
            arguments.deep_view() == single_arguments(u.deep_view()).take(u.len() - i),
        decreases i,
    {
        let ghost before = arguments.deep_view();
        i -= 1;
        let mut argument = SINGLE_PREFIX.to_owned();
        argument.append(u[i].as_str());
        arguments.push(argument);
        assert(arguments.deep_view() =~= before.push(SINGLE_PREFIX@ + u.deep_view()[i as int]));
        assert(arguments.deep_view() =~= single_arguments(u.deep_view()).take(u.len() - i));
    }
    assert(arguments.deep_view() =~= single_arguments(u.deep_view()));
    arguments
}

/// Joins the versions from the last to the first, with commas between them.
pub fn reverse_join(v: &Vec<String>) -> (r: String)
    ensures
        r@ == joined(v.deep_view().reverse(), SEPARATOR@),
{
    let mut reversed: Vec<String> = Vec::new();
    let mut i: usize = v.len();
    while i > 0
        invariant
            i <= v.len(),
            reversed.deep_view() == v.deep_view().reverse().take(v.len() - i),
        decreases i,
    {
        let ghost before = reversed.deep_view();
        i -= 1;
        reversed.push(v[i].clone());
        assert(reversed.deep_view() =~= before.push(v.deep_view()[i as int]));
        assert(reversed.deep_view() =~= v.deep_view().reverse().take(v.len() - i));
    }
    assert(reversed.deep_view() =~= v.deep_view().reverse());
    join(&reversed, SEPARATOR)
}

/// The argument of the one rollback that takes back the versions `u`: none
/// where `u` is empty; else `ROLLBACK_PREFIX` and the versions from the last
/// to the first, with commas between them.
pub open spec fn rollback_argument(u: Seq<Seq<char>>) -> Option<Seq<char>> {
    if u.len() == 0 {
        None
    } else {
        Some(ROLLBACK_PREFIX@ + joined(u.reverse(), SEPARATOR@))
    }
}

/// Decides the rollback of the versions `u`: `None` where there is nothing to
/// roll back, else the argument of the single rollback run.
pub fn migrate_down_multi(u: &Vec<String>) -> (r: Option<String>)
    ensures
        r.deep_view() == rollback_argument(u.deep_view()),
{
    if u.len() == 0 {
        return None;
    }
    let versions = reverse_join(u);
    let mut argument = ROLLBACK_PREFIX.to_owned();
    argument.append(versions.as_str());
    Some(argument)
}

/// The `down` command: the argument of the rollback of the applied versions
/// that the diff reports as added, the latest version first; `None` where
/// there is none.
pub fn command_down(applied: &Vec<String>, added: &VersionMap<String>) -> (r: Option<String>)
    ensures
        r.deep_view() == rollback_argument(rollback_of(applied.deep_view(), added@.dom())),
{
    let u = reconcile_target(applied, added);
    migrate_down_multi(&u)
}

} // verus!
