//! The migration runner's decisions: which schema changes of an ordered list are still to be
//! applied, given the ledger of those already applied and what the store's tables hold.
//!
//! A change is applied at most once and recorded in the ledger right after; a change whose
//! statements fail is not recorded and ends the run. A change that only adds a column is
//! recorded without being applied where the column is already there, as in a store that an
//! older version created before there was a ledger.

use vstd::prelude::*;

verus! {

/// A column of a table.
#[derive(Debug)]
pub struct ColumnRef {
    pub table: String,
    pub column: String,
}

/// What a `ColumnRef` holds, as plain values.
pub struct ColumnRefView {
    pub table: Seq<char>,
    pub column: Seq<char>,
}

impl DeepView for ColumnRef {
    type V = ColumnRefView;

    open spec fn deep_view(&self) -> ColumnRefView {
        ColumnRefView { table: self.table@, column: self.column@ }
    }
}

/// What the runner does with one schema change.
#[derive(Debug, Clone, Copy, PartialEq, Eq, Structural)]
pub enum MigrationAction {
    /// The change is recorded: nothing is done.
    Skip,
    /// The column that the change adds is there: the change is recorded without being
    /// applied.
    RecordOnly,
    /// The change is applied, then recorded.
    ApplyAndRecord,
}

/// The names of the schema changes, in the order in which they are applied.
pub open spec fn migration_names() -> Seq<Seq<char>> {
    seq!["001_initial"@, "002_add_avatar_path"@, "003_add_achievement_seen_at"@]
}

/// The column that a schema change adds, for the changes that do nothing else.
pub open spec fn guard_of(name: Seq<char>) -> Option<ColumnRefView> {
    if name == "002_add_avatar_path"@ {
        Some(ColumnRefView { table: "users"@, column: "avatar_path"@ })
    } else if name == "003_add_achievement_seen_at"@ {
        Some(ColumnRefView { table: "achievements"@, column: "seen_at"@ })
    } else {
        None
    }
}

/// What the runner does with a schema change, given whether the ledger records it and, for
/// a change that only adds a column, whether that column is there.
pub open spec fn action_for(recorded: bool, column_present: Option<bool>) -> MigrationAction {
    if recorded {
        MigrationAction::Skip
    } else if column_present == Some(true) {
        MigrationAction::RecordOnly
    } else {
        MigrationAction::ApplyAndRecord
    }
}

/// The ledger after a name was recorded: the name stands at its end, unless the ledger held
/// it already.
pub open spec fn recorded_in(ledger: Seq<Seq<char>>, name: Seq<char>) -> Seq<Seq<char>> {
    if ledger.contains(name) {
        ledger
    } else {
        ledger.push(name)
    }
}

/// Whether the run ends at a schema change: its statements were run and failed.
pub open spec fn halts(action: MigrationAction, applied: bool) -> bool {
    action == MigrationAction::ApplyAndRecord && !applied
}

/// The ledger after the runner is done with a schema change. `applied` tells whether the
/// statements of the change succeeded; it counts only where they were run. A change is
/// recorded only after it was applied, or where its column was there already.
pub open spec fn settled(
    ledger: Seq<Seq<char>>,
    name: Seq<char>,
    action: MigrationAction,
    applied: bool,
) -> Seq<Seq<char>> {
    match action {
        MigrationAction::Skip => ledger,
        MigrationAction::RecordOnly => recorded_in(ledger, name),
        MigrationAction::ApplyAndRecord => if applied {
            recorded_in(ledger, name)
        } else {
            ledger
        },
    }
}

/// How a run ended: the ledger after it, what was done with each change that the runner came
/// to, and whether the run ended at a change that failed.
pub struct RunView {
    pub ledger: Seq<Seq<char>>,
    pub actions: Seq<MigrationAction>,
    pub failed: bool,
}

/// A run over the names, in their order. `present` tells for each name whether the column
/// that the change adds is there at the time the runner comes to it; it is `None` for a
/// change without such a column. `applied` tells for each name whether the statements of the
/// change succeed when they are run. The run ends at the first change that fails.
pub open spec fn run_of(
    ledger: Seq<Seq<char>>,
    names: Seq<Seq<char>>,
    present: Seq<Option<bool>>,
    applied: Seq<bool>,
) -> RunView
    decreases names.len(),
{
    if names.len() == 0 || present.len() != names.len() || applied.len() != names.len() {
        RunView { ledger, actions: Seq::empty(), failed: false }
    } else {
        let before = run_of(ledger, names.drop_last(), present.drop_last(), applied.drop_last());
        if before.failed {
            before
        } else {
            let action = action_for(before.ledger.contains(names.last()), present.last());
            RunView {
                ledger: settled(before.ledger, names.last(), action, applied.last()),
                actions: before.actions.push(action),
                failed: halts(action, applied.last()),
            }
        }
    }
}

/// The names of the schema changes, in the order in which they are applied.
pub fn migration_list() -> (r: Vec<&'static str>)
    ensures
        r.deep_view() == migration_names(),
{
    let r = vec!["001_initial", "002_add_avatar_path", "003_add_achievement_seen_at"];
    assert(r.deep_view() =~= migration_names());
    r
}

/// The column that a schema change adds, for the changes that do nothing else.
pub fn column_guard(name: &str) -> (r: Option<ColumnRef>)
    ensures
        r.deep_view() == guard_of(name@),
{
    if *name == *"002_add_avatar_path" {
        Some(ColumnRef { table: String::from_str("users"), column: String::from_str("avatar_path") })
    } else if *name == *"003_add_achievement_seen_at" {
        Some(
            ColumnRef {
                table: String::from_str("achievements"),
                column: String::from_str("seen_at"),
            },
        )
    } else {
        None
    }
}

/// Decides what to do with a schema change.
pub fn decide(recorded: bool, column_present: Option<bool>) -> (r: MigrationAction)
    ensures
        r == action_for(recorded, column_present),
{
    if recorded {
        MigrationAction::Skip
    } else {
        match column_present {
            Some(true) => MigrationAction::RecordOnly,
            _ => MigrationAction::ApplyAndRecord,
        }
    }
}

/// Tells whether the ledger records a name.
pub fn is_recorded(ledger: &Vec<String>, name: &str) -> (r: bool)
    ensures
        r == ledger.deep_view().contains(name@),
{
    let mut i: usize = 0;
    while i < ledger.len()
        invariant
            i <= ledger.len(),
            forall|j: int| 0 <= j < i ==> ledger.deep_view()[j] != name@,
        decreases ledger.len() - i,
    {
        assert(ledger.deep_view()[i as int] == ledger[i as int]@);
        if *ledger[i].as_str() == *name {
            return true;
        }
        i = i + 1;
    }
    false
}

/// Decides what to do with the schema change `name`, given the ledger.
pub fn plan(ledger: &Vec<String>, name: &str, column_present: Option<bool>) -> (r: MigrationAction)
    ensures
        r == action_for(ledger.deep_view().contains(name@), column_present),
{
    decide(is_recorded(ledger, name), column_present)
}

/// Brings the ledger up to date once the runner is done with the schema change `name`:
/// records the change where it was applied, or where its column was there already. `applied`
/// tells whether the statements of the change succeeded. Hands back whether the run goes on: it
/// ends where the statements failed.
pub fn settle(ledger: &mut Vec<String>, name: &str, action: MigrationAction, applied: bool) -> (r:
    bool)
    ensures
        final(ledger).deep_view() == settled(old(ledger).deep_view(), name@, action, applied),
        r == !halts(action, applied),
{
    let records = match action {
        MigrationAction::Skip => false,
        MigrationAction::RecordOnly => true,
        MigrationAction::ApplyAndRecord => applied,
    };
    let ghost before = ledger.deep_view();
    if records && !is_recorded(ledger, name) {
        ledger.push(String::from_str(name));
        assert(ledger.deep_view() =~= before.push(name@));
    }
    match action {
        MigrationAction::ApplyAndRecord => applied,
        _ => true,
    }
}

/// Takes one step of a run: decides what to do with the schema change `name` and brings the
/// ledger up to date. Hands back what was done and whether the run goes on.
pub fn step(
    ledger: &mut Vec<String>,
    name: &str,
    column_present: Option<bool>,
    applied: bool,
) -> (r: (MigrationAction, bool))
    ensures
        r.0 == action_for(old(ledger).deep_view().contains(name@), column_present),
        r.1 == !halts(r.0, applied),
        final(ledger).deep_view() == settled(old(ledger).deep_view(), name@, r.0, applied),
{
    let action = plan(ledger, name, column_present);
    let goes_on = settle(ledger, name, action, applied);
    (action, goes_on)
}

/// Runs over the names in their order, up to the first change that fails. Hands back what
/// was done with each change that the runner came to, and whether the run ended at a change
/// that failed.
pub fn run(
    ledger: &mut Vec<String>,
    names: &Vec<String>,
    present: &Vec<Option<bool>>,
    applied: &Vec<bool>,
) -> (r: (Vec<MigrationAction>, bool))
    requires
        names.len() == present.len(),
        names.len() == applied.len(),
    ensures
        r.0@ == run_of(old(ledger).deep_view(), names.deep_view(), present@, applied@).actions,
        r.1 == run_of(old(ledger).deep_view(), names.deep_view(), present@, applied@).failed,
        final(ledger).deep_view() == run_of(
            old(ledger).deep_view(),
            names.deep_view(),
            present@,
            applied@,
        ).ledger,
{
    let mut out: Vec<MigrationAction> = Vec::new();
    let mut i: usize = 0;
    let ghost start = ledger.deep_view();
    assert(names.deep_view().take(0) =~= Seq::empty());
    while i < names.len()
        invariant
            i <= names.len(),
            names.len() == present.len(),
            names.len() == applied.len(),
            start == old(ledger).deep_view(),
            run_of(
                start,
                names.deep_view().take(i as int),
                present@.take(i as int),
                applied@.take(i as int),
            ) == (RunView { ledger: ledger.deep_view(), actions: out@, failed: false }),
        decreases names.len() - i,
    {
        let ghost next = names.deep_view().take(i + 1);
        let ghost next_present = present@.take(i + 1);
        let ghost next_applied = applied@.take(i + 1);
        assert(next.last() == names[i as int]@);
        assert(next.drop_last() =~= names.deep_view().take(i as int));
        assert(next_present.last() == present[i as int]);
        assert(next_present.drop_last() =~= present@.take(i as int));
        assert(next_applied.last() == applied[i as int]);
        assert(next_applied.drop_last() =~= applied@.take(i as int));
        let (action, goes_on) = step(ledger, names[i].as_str(), present[i], applied[i]);
        out.push(action);
        i = i + 1;
        assert(run_of(start, next, next_present, next_applied) == (RunView {
            ledger: ledger.deep_view(),
            actions: out@,
            failed: !goes_on,
        }));
        if !goes_on {
            proof {
                lemma_failed_run_stays(
                    start,
                    names.deep_view(),
                    present@,
                    applied@,
                    i as int,
                );
            }
            return (out, true);
        }
    }
    assert(names.deep_view().take(i as int) =~= names.deep_view());
    assert(present@.take(i as int) =~= present@);
    assert(applied@.take(i as int) =~= applied@);
    (out, false)
}

/// A text with every single quote doubled, as it stands inside a quoted literal.
pub open spec fn quoted(text: Seq<char>) -> Seq<char>
    decreases text.len(),
{
    if text.len() == 0 {
        Seq::empty()
    } else if text.last() == '\'' {
        quoted(text.drop_last()) + seq!['\'', '\'']
    } else {
        quoted(text.drop_last()).push(text.last())
    }
}

/// The text of the query that asks whether a table has a column; the column's name is bound
/// to its placeholder.
pub open spec fn column_probe_text(table: Seq<char>) -> Seq<char> {
    "SELECT 1 FROM pragma_table_info('"@ + quoted(table) + "') WHERE name = ?1 LIMIT 1"@
}

/// Doubles every single quote of a text.
pub fn quote(text: &str) -> (r: String)
    ensures
        r@ == quoted(text@),
{
    let n = text.unicode_len();
    let mut out = String::new();
    let mut i: usize = 0;
    assert(text@.take(0) =~= Seq::empty());
    while i < n
        invariant
            i <= n,
            n == text@.len(),
            out@ == quoted(text@.take(i as int)),
        decreases n - i,
    {
        let ghost next = text@.take(i + 1);
        assert(next.last() == text@[i as int]);
        assert(next.drop_last() =~= text@.take(i as int));
        let c = text.get_char(i);
        if c == '\'' {
            proof {
                reveal_strlit("''");
            }
            out.append("''");
            assert(out@ =~= quoted(text@.take(i as int)) + seq!['\'', '\'']);
        } else {
            let piece = text.substring_char(i, i + 1);
            assert(piece@ =~= seq![text@[i as int]]);
            out.append(piece);
            assert(out@ =~= quoted(text@.take(i as int)).push(text@[i as int]));
        }
        i = i + 1;
    }
    assert(text@.take(i as int) =~= text@);
    out
}

/// Writes the query that asks whether a table has a column.
pub fn column_probe_query(table: &str) -> (r: String)
    ensures
        r@ == column_probe_text(table@),
{
    let mut sql = String::from_str("SELECT 1 FROM pragma_table_info('");
    sql.append(quote(table).as_str());
    sql.append("') WHERE name = ?1 LIMIT 1");
    sql
}

/// A run that failed over the first `k` names is the run over all of them: the runner does
/// not go beyond the change that failed.
pub proof fn lemma_failed_run_stays(
    ledger: Seq<Seq<char>>,
    names: Seq<Seq<char>>,
    present: Seq<Option<bool>>,
    applied: Seq<bool>,
    k: int,
)
    requires
        names.len() == present.len(),
        names.len() == applied.len(),
        0 <= k <= names.len(),
        run_of(ledger, names.take(k), present.take(k), applied.take(k)).failed,
    ensures
        run_of(ledger, names, present, applied) == run_of(
            ledger,
            names.take(k),
            present.take(k),
            applied.take(k),
        ),
    decreases names.len() - k,
{
    if k < names.len() {
        assert(names.take(k + 1).drop_last() =~= names.take(k));
        assert(present.take(k + 1).drop_last() =~= present.take(k));
        assert(applied.take(k + 1).drop_last() =~= applied.take(k));
        lemma_failed_run_stays(ledger, names, present, applied, k + 1);
    } else {
        assert(names.take(k) =~= names);
        assert(present.take(k) =~= present);
        assert(applied.take(k) =~= applied);
    }
}

/// A change is recorded only after it was applied, or where its column was there already:
/// after the runner is done with a change that the ledger did not record, the ledger records
/// it exactly if its statements were not run and failed. Nothing else is recorded.
pub proof fn lemma_settled(
    ledger: Seq<Seq<char>>,
    name: Seq<char>,
    column_present: Option<bool>,
    applied: bool,
    other: Seq<char>,
)
    ensures
        ({
            let action = action_for(ledger.contains(name), column_present);
            let after = settled(ledger, name, action, applied);
            &&& after.contains(name) <==> ledger.contains(name) || !halts(action, applied)
            &&& other != name ==> (after.contains(other) <==> ledger.contains(other))
        }),
{
    let action = action_for(ledger.contains(name), column_present);
    let after = settled(ledger, name, action, applied);
    if after != ledger {
        assert(after == ledger.push(name));
        assert(after[ledger.len() as int] == name);
        if ledger.contains(other) {
            let j = choose|j: int| 0 <= j < ledger.len() && ledger[j] == other;
            assert(after[j] == other);
        }
        if after.contains(other) && other != name {
            let j = choose|j: int| 0 <= j < after.len() && after[j] == other;
            assert(ledger[j] == other);
        }
    }
}

/// The ledger only grows: a run leaves every name of the ledger where it is.
pub proof fn lemma_ledger_grows(
    ledger: Seq<Seq<char>>,
    names: Seq<Seq<char>>,
    present: Seq<Option<bool>>,
    applied: Seq<bool>,
)
    ensures
        ledger.len() <= run_of(ledger, names, present, applied).ledger.len(),
        forall|i: int|
            0 <= i < ledger.len() ==> #[trigger] run_of(ledger, names, present, applied).ledger[i]
                == ledger[i],
    decreases names.len(),
{
    if names.len() > 0 && present.len() == names.len() && applied.len() == names.len() {
        lemma_ledger_grows(ledger, names.drop_last(), present.drop_last(), applied.drop_last());
    }
}

/// A run comes to every change unless it fails, and a run that fails ends at a change whose
/// statements were run, and does not record that change.
pub proof fn lemma_run_ends(
    ledger: Seq<Seq<char>>,
    names: Seq<Seq<char>>,
    present: Seq<Option<bool>>,
    applied: Seq<bool>,
)
    requires
        names.len() == present.len(),
        names.len() == applied.len(),
    ensures
        ({
            let run = run_of(ledger, names, present, applied);
            &&& run.actions.len() <= names.len()
            &&& !run.failed ==> run.actions.len() == names.len()
            &&& run.failed ==> {
                &&& run.actions.len() >= 1
                &&& run.actions.last() == MigrationAction::ApplyAndRecord
                &&& !applied[run.actions.len() - 1]
                &&& !run.ledger.contains(names[run.actions.len() - 1])
            }
        }),
    decreases names.len(),
{
    if names.len() > 0 {
        let before = run_of(ledger, names.drop_last(), present.drop_last(), applied.drop_last());
        lemma_run_ends(ledger, names.drop_last(), present.drop_last(), applied.drop_last());
        if before.failed {
            assert(names.drop_last()[before.actions.len() - 1] == names[before.actions.len() - 1]);
            assert(applied.drop_last()[before.actions.len() - 1] == applied[before.actions.len()
                - 1]);
        }
    }
}

/// After a run that did not fail the ledger records every name of the run.
pub proof fn lemma_run_records_all(
    ledger: Seq<Seq<char>>,
    names: Seq<Seq<char>>,
    present: Seq<Option<bool>>,
    applied: Seq<bool>,
    i: int,
)
    requires
        names.len() == present.len(),
        names.len() == applied.len(),
        0 <= i < names.len(),
        !run_of(ledger, names, present, applied).failed,
    ensures
        run_of(ledger, names, present, applied).ledger.contains(names[i]),
    decreases names.len(),
{
    let before = run_of(ledger, names.drop_last(), present.drop_last(), applied.drop_last());
    lemma_settled(before.ledger, names.last(), present.last(), applied.last(), names[i]);
    if i < names.len() - 1 {
        lemma_run_records_all(
            ledger,
            names.drop_last(),
            present.drop_last(),
            applied.drop_last(),
            i,
        );
        assert(names.drop_last()[i] == names[i]);
    }
}

/// A run over names that the ledger records skips every one of them, does not fail and
/// leaves the ledger as it is.
pub proof fn lemma_run_skips_recorded(
    ledger: Seq<Seq<char>>,
    names: Seq<Seq<char>>,
    present: Seq<Option<bool>>,
    applied: Seq<bool>,
)
    requires
        names.len() == present.len(),
        names.len() == applied.len(),
        forall|i: int| 0 <= i < names.len() ==> ledger.contains(#[trigger] names[i]),
    ensures
        run_of(ledger, names, present, applied).ledger == ledger,
        !run_of(ledger, names, present, applied).failed,
        run_of(ledger, names, present, applied).actions.len() == names.len(),
        forall|i: int|
            0 <= i < names.len() ==> #[trigger] run_of(ledger, names, present, applied).actions[i]
                == MigrationAction::Skip,
    decreases names.len(),
{
    if names.len() > 0 {
        assert forall|i: int| 0 <= i < names.drop_last().len() implies ledger.contains(
            #[trigger] names.drop_last()[i],
        ) by {
            assert(names.drop_last()[i] == names[i]);
        }
        lemma_run_skips_recorded(
            ledger,
            names.drop_last(),
            present.drop_last(),
            applied.drop_last(),
        );
        assert(names.last() == names[names.len() - 1]);
    }
}

/// The runner is safe to call on every start: after a run that did not fail, a second run
/// over the same names, whatever columns it finds, applies nothing and leaves the ledger as
/// the first run left it.
pub proof fn lemma_second_run_does_nothing(
    ledger: Seq<Seq<char>>,
    names: Seq<Seq<char>>,
    present: Seq<Option<bool>>,
    applied: Seq<bool>,
    present_again: Seq<Option<bool>>,
    applied_again: Seq<bool>,
)
    requires
        names.len() == present.len(),
        names.len() == applied.len(),
        names.len() == present_again.len(),
        names.len() == applied_again.len(),
        !run_of(ledger, names, present, applied).failed,
    ensures
        ({
            let first = run_of(ledger, names, present, applied).ledger;
            let second = run_of(first, names, present_again, applied_again);
            &&& second.ledger == first
            &&& !second.failed
            &&& second.actions.len() == names.len()
            &&& forall|i: int|
                0 <= i < names.len() ==> #[trigger] second.actions[i] == MigrationAction::Skip
        }),
{
    let first = run_of(ledger, names, present, applied).ledger;
    assert forall|i: int| 0 <= i < names.len() implies first.contains(#[trigger] names[i]) by {
        lemma_run_records_all(ledger, names, present, applied, i);
    }
    lemma_run_skips_recorded(first, names, present_again, applied_again);
}

} // verus!
