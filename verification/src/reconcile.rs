//! Reconciliation: merging foreign rows into a table so that existing rows win, and
//! settings so that the last write wins.

use crate::achievement::{Achievement, AchievementView};
use crate::session::{FocusSession, FocusSessionView};
use crate::task::{Task, TaskView};
use vstd::prelude::*;

verus! {

/// A row of a table into which foreign rows can be merged.
pub trait Record: DeepView + Sized {
    /// Whether two rows cannot both stand in the table: they share what identifies a row.
    spec fn clash(a: Self::V, b: Self::V) -> bool;

    /// The row as it stands once it belongs to the user `owner`.
    spec fn owned_by(row: Self::V, owner: Seq<char>) -> Self::V;

    /// Every row clashes with itself.
    proof fn lemma_clash_reflexive(row: Self::V)
        ensures
            Self::clash(row, row),
    ;

    /// The user to whom a row belongs.
    spec fn owner(row: Self::V) -> Seq<char>;

    /// A row that was made a user's belongs to that user.
    proof fn lemma_owned_by_owner(row: Self::V, owner: Seq<char>)
        ensures
            Self::owner(Self::owned_by(row, owner)) == owner,
    ;

    /// Tells whether two rows cannot both stand in the table.
    fn clashes_with(&self, other: &Self) -> (r: bool)
        ensures
            r == Self::clash(self.deep_view(), other.deep_view()),
    ;

    /// A copy of the row that belongs to the user `owner`.
    fn adopted(&self, owner: &str) -> (r: Self)
        ensures
            r.deep_view() == Self::owned_by(self.deep_view(), owner@),
    ;

    /// The identifier of the user to whom the row belongs.
    fn owner_id(&self) -> (r: &str)
        ensures
            r@ == Self::owner(self.deep_view()),
    ;
}

impl Record for FocusSession {
    open spec fn clash(a: FocusSessionView, b: FocusSessionView) -> bool {
        a.id == b.id
    }

    open spec fn owned_by(row: FocusSessionView, owner: Seq<char>) -> FocusSessionView {
        FocusSessionView { user_id: owner, ..row }
    }

    proof fn lemma_clash_reflexive(row: FocusSessionView) {
    }

    open spec fn owner(row: FocusSessionView) -> Seq<char> {
        row.user_id
    }

    proof fn lemma_owned_by_owner(row: FocusSessionView, owner: Seq<char>) {
    }

    fn clashes_with(&self, other: &Self) -> (r: bool) {
        self.id == other.id
    }

    fn owner_id(&self) -> (r: &str) {
        self.user_id.as_str()
    }

    fn adopted(&self, owner: &str) -> (r: Self) {
        FocusSession {
            id: self.id.clone(),
            user_id: String::from_str(owner),
            duration_seconds: self.duration_seconds,
            started_at: self.started_at.clone(),
            ended_at: self.ended_at.clone(),
            category: self.category.clone(),
            notes: self.notes.clone(),
            created_at: self.created_at.clone(),
        }
    }
}

impl Record for Task {
    open spec fn clash(a: TaskView, b: TaskView) -> bool {
        a.id == b.id
    }

    open spec fn owned_by(row: TaskView, owner: Seq<char>) -> TaskView {
        TaskView { user_id: owner, ..row }
    }

    proof fn lemma_clash_reflexive(row: TaskView) {
    }

    open spec fn owner(row: TaskView) -> Seq<char> {
        row.user_id
    }

    proof fn lemma_owned_by_owner(row: TaskView, owner: Seq<char>) {
    }

    fn clashes_with(&self, other: &Self) -> (r: bool) {
        self.id == other.id
    }

    fn owner_id(&self) -> (r: &str) {
        self.user_id.as_str()
    }

    fn adopted(&self, owner: &str) -> (r: Self) {
        Task {
            id: self.id.clone(),
            user_id: String::from_str(owner),
            title: self.title.clone(),
            category: self.category,
            date: self.date.clone(),
            start_time: self.start_time.clone(),
            end_time: self.end_time.clone(),
            completed: self.completed,
            created_at: self.created_at.clone(),
        }
    }
}

impl Record for Achievement {
    /// An unlock record is identified by its identifier, and a user has at most one record
    /// of each type.
    open spec fn clash(a: AchievementView, b: AchievementView) -> bool {
        a.id == b.id || (a.user_id == b.user_id && a.achievement_type == b.achievement_type)
    }

    open spec fn owned_by(row: AchievementView, owner: Seq<char>) -> AchievementView {
        AchievementView { user_id: owner, ..row }
    }

    proof fn lemma_clash_reflexive(row: AchievementView) {
    }

    open spec fn owner(row: AchievementView) -> Seq<char> {
        row.user_id
    }

    proof fn lemma_owned_by_owner(row: AchievementView, owner: Seq<char>) {
    }

    fn clashes_with(&self, other: &Self) -> (r: bool) {
        self.id == other.id || (self.user_id == other.user_id && self.achievement_type
            == other.achievement_type)
    }

    fn owner_id(&self) -> (r: &str) {
        self.user_id.as_str()
    }

    fn adopted(&self, owner: &str) -> (r: Self) {
        Achievement {
            id: self.id.clone(),
            user_id: String::from_str(owner),
            achievement_type: self.achievement_type,
            unlocked_at: self.unlocked_at.clone(),
            metadata: self.metadata.clone(),
        }
    }
}

/// Whether some row of the table clashes with the given row.
pub open spec fn clashes_any<T: Record>(table: Seq<T::V>, row: T::V) -> bool {
    exists|i: int| 0 <= i < table.len() && T::clash(#[trigger] table[i], row)
}

/// The table after the incoming rows were merged into it for the user `owner`: each incoming
/// row, in turn, is appended as the owner's unless a row of the table clashes with it.
pub open spec fn merged<T: Record>(table: Seq<T::V>, incoming: Seq<T::V>, owner: Seq<char>) -> Seq<
    T::V,
>
    decreases incoming.len(),
{
    if incoming.len() == 0 {
        table
    } else {
        let before = merged::<T>(table, incoming.drop_last(), owner);
        let row = T::owned_by(incoming.last(), owner);
        if clashes_any::<T>(before, row) {
            before
        } else {
            before.push(row)
        }
    }
}

/// Tells whether some row of the table clashes with the given row.
pub fn find_clash<T: Record>(table: &Vec<T>, row: &T) -> (r: bool)
    ensures
        r == clashes_any::<T>(table.deep_view(), row.deep_view()),
{
    let mut i: usize = 0;
    while i < table.len()
        invariant
            i <= table.len(),
            forall|j: int|
                0 <= j < i ==> !T::clash(#[trigger] table.deep_view()[j], row.deep_view()),
        decreases table.len() - i,
    {
        assert(table.deep_view()[i as int] == table[i as int].deep_view());
        if table[i].clashes_with(row) {
            return true;
        }
        i = i + 1;
    }
    false
}

/// Merges the incoming rows into the table for the user `owner` and hands back how many
/// rows were inserted. Rows of the table are never changed.
pub fn merge<T: Record>(table: &mut Vec<T>, incoming: &Vec<T>, owner: &str) -> (inserted: usize)
    ensures
        final(table).deep_view() == merged::<T>(
            old(table).deep_view(),
            incoming.deep_view(),
            owner@,
        ),
        inserted == final(table).len() - old(table).len(),
        inserted <= incoming.len(),
{
    let mut inserted: usize = 0;
    let mut i: usize = 0;
    assert(incoming.deep_view().take(0) =~= Seq::empty());
    while i < incoming.len()
        invariant
            i <= incoming.len(),
            inserted <= i,
            table.len() == old(table).len() + inserted,
            table.deep_view() == merged::<T>(
                old(table).deep_view(),
                incoming.deep_view().take(i as int),
                owner@,
            ),
        decreases incoming.len() - i,
    {
        let ghost next = incoming.deep_view().take(i + 1);
        let ghost before = table.deep_view();
        assert(next.last() == incoming[i as int].deep_view());
        assert(next.drop_last() =~= incoming.deep_view().take(i as int));
        let row = incoming[i].adopted(owner);
        if !find_clash(table, &row) {
            table.push(row);
            inserted = inserted + 1;
            assert(table.deep_view() =~= before.push(row.deep_view()));
        }
        i = i + 1;
    }
    assert(incoming.deep_view().take(i as int) =~= incoming.deep_view());
    inserted
}

/// Whether no two rows of the table clash.
pub open spec fn clash_free<T: Record>(table: Seq<T::V>) -> bool {
    forall|i: int, j: int|
        0 <= i < j < table.len() ==> !T::clash(#[trigger] table[i], #[trigger] table[j])
}

/// Existing rows win: a merge leaves every row of the table as and where it is, and appends
/// at most as many rows as come in.
pub proof fn lemma_merged_extends<T: Record>(table: Seq<T::V>, incoming: Seq<T::V>, owner: Seq<char>)
    ensures
        table.len() <= merged::<T>(table, incoming, owner).len() <= table.len() + incoming.len(),
        forall|i: int|
            0 <= i < table.len() ==> #[trigger] merged::<T>(table, incoming, owner)[i] == table[i],
    decreases incoming.len(),
{
    if incoming.len() > 0 {
        lemma_merged_extends::<T>(table, incoming.drop_last(), owner);
    }
}

/// After a merge, every incoming row clashes with a row of the table: it is there itself, or
/// the row that kept it out is.
pub proof fn lemma_merged_covers<T: Record>(
    table: Seq<T::V>,
    incoming: Seq<T::V>,
    owner: Seq<char>,
    i: int,
)
    requires
        0 <= i < incoming.len(),
    ensures
        clashes_any::<T>(merged::<T>(table, incoming, owner), T::owned_by(incoming[i], owner)),
    decreases incoming.len(),
{
    let before = merged::<T>(table, incoming.drop_last(), owner);
    let after = merged::<T>(table, incoming, owner);
    let last = T::owned_by(incoming.last(), owner);
    if i == incoming.len() - 1 {
        if !clashes_any::<T>(before, last) {
            T::lemma_clash_reflexive(last);
            assert(after[before.len() as int] == last);
        }
    } else {
        lemma_merged_covers::<T>(table, incoming.drop_last(), owner, i);
        let row = T::owned_by(incoming[i], owner);
        assert(incoming.drop_last()[i] == incoming[i]);
        let j = choose|j: int| 0 <= j < before.len() && T::clash(#[trigger] before[j], row);
        assert(after[j] == before[j]);
    }
}

/// A merge appends nothing where every incoming row clashes with a row of the table.
pub proof fn lemma_merged_nothing_new<T: Record>(
    table: Seq<T::V>,
    incoming: Seq<T::V>,
    owner: Seq<char>,
)
    requires
        forall|i: int|
            0 <= i < incoming.len() ==> clashes_any::<T>(
                table,
                T::owned_by(#[trigger] incoming[i], owner),
            ),
    ensures
        merged::<T>(table, incoming, owner) == table,
    decreases incoming.len(),
{
    if incoming.len() > 0 {
        assert forall|i: int| 0 <= i < incoming.drop_last().len() implies clashes_any::<T>(
            table,
            T::owned_by(#[trigger] incoming.drop_last()[i], owner),
        ) by {
            assert(incoming.drop_last()[i] == incoming[i]);
        }
        lemma_merged_nothing_new::<T>(table, incoming.drop_last(), owner);
        assert(incoming.last() == incoming[incoming.len() - 1]);
    }
}

/// A merge is repeatable: merging the same rows a second time inserts nothing and leaves the
/// table as the first merge left it.
pub proof fn lemma_merge_repeatable<T: Record>(
    table: Seq<T::V>,
    incoming: Seq<T::V>,
    owner: Seq<char>,
)
    ensures
        merged::<T>(merged::<T>(table, incoming, owner), incoming, owner) == merged::<T>(
            table,
            incoming,
            owner,
        ),
{
    let first = merged::<T>(table, incoming, owner);
    assert forall|i: int| 0 <= i < incoming.len() implies clashes_any::<T>(
        first,
        T::owned_by(#[trigger] incoming[i], owner),
    ) by {
        lemma_merged_covers::<T>(table, incoming, owner, i);
    }
    lemma_merged_nothing_new::<T>(first, incoming, owner);
}

/// A merge into a table in which no two rows clash leaves no two rows that clash.
pub proof fn lemma_merged_clash_free<T: Record>(
    table: Seq<T::V>,
    incoming: Seq<T::V>,
    owner: Seq<char>,
)
    requires
        clash_free::<T>(table),
    ensures
        clash_free::<T>(merged::<T>(table, incoming, owner)),
    decreases incoming.len(),
{
    if incoming.len() > 0 {
        let before = merged::<T>(table, incoming.drop_last(), owner);
        let after = merged::<T>(table, incoming, owner);
        let last = T::owned_by(incoming.last(), owner);
        lemma_merged_clash_free::<T>(table, incoming.drop_last(), owner);
        if !clashes_any::<T>(before, last) {
            assert forall|i: int, j: int| 0 <= i < j < after.len() implies !T::clash(
                #[trigger] after[i],
                #[trigger] after[j],
            ) by {
                assert(after[i] == before[i]);
                if j < before.len() {
                    assert(after[j] == before[j]);
                } else {
                    assert(after[j] == last);
                }
            }
        }
    }
}

/// A merge for a user into a table of that user's rows leaves a table of that user's rows.
pub proof fn lemma_merged_owned<T: Record>(table: Seq<T::V>, incoming: Seq<T::V>, owner: Seq<char>)
    requires
        forall|i: int| 0 <= i < table.len() ==> T::owner(#[trigger] table[i]) == owner,
    ensures
        forall|i: int|
            0 <= i < merged::<T>(table, incoming, owner).len() ==> T::owner(
                #[trigger] merged::<T>(table, incoming, owner)[i],
            ) == owner,
    decreases incoming.len(),
{
    if incoming.len() > 0 {
        let before = merged::<T>(table, incoming.drop_last(), owner);
        let after = merged::<T>(table, incoming, owner);
        lemma_merged_owned::<T>(table, incoming.drop_last(), owner);
        T::lemma_owned_by_owner(incoming.last(), owner);
        assert forall|i: int| 0 <= i < after.len() implies T::owner(#[trigger] after[i])
            == owner by {
            if i < before.len() {
                assert(after[i] == before[i]);
            }
        }
    }
}

/// Whether no two unlock records are of the same type.
pub open spec fn types_distinct(table: Seq<AchievementView>) -> bool {
    forall|i: int, j: int|
        0 <= i < j < table.len() ==> (#[trigger] table[i]).achievement_type != (
        #[trigger] table[j]).achievement_type
}

/// Among unlock records of one user of which no two clash, no two are of the same type.
pub proof fn lemma_clash_free_types_distinct(table: Seq<AchievementView>, owner: Seq<char>)
    requires
        clash_free::<Achievement>(table),
        owned::<Achievement>(table, owner),
    ensures
        types_distinct(table),
{
    assert forall|i: int, j: int| 0 <= i < j < table.len() implies (
    #[trigger] table[i]).achievement_type != (#[trigger] table[j]).achievement_type by {
        assert(Achievement::owner(table[i]) == owner);
        assert(Achievement::owner(table[j]) == owner);
        assert(!Achievement::clash(table[i], table[j]));
    }
}

/// A row that clashes with no row of a table in which no two rows clash can be appended: no
/// two rows clash then either.
pub proof fn lemma_clash_free_push<T: Record>(table: Seq<T::V>, row: T::V)
    requires
        clash_free::<T>(table),
        !clashes_any::<T>(table, row),
    ensures
        clash_free::<T>(table.push(row)),
{
    let after = table.push(row);
    assert forall|i: int, j: int| 0 <= i < j < after.len() implies !T::clash(
        #[trigger] after[i],
        #[trigger] after[j],
    ) by {
        assert(after[i] == table[i]);
        if j < table.len() {
            assert(after[j] == table[j]);
        }
    }
}

/// Whether every row of the table belongs to the user `owner`.
pub open spec fn owned<T: Record>(table: Seq<T::V>, owner: Seq<char>) -> bool {
    forall|i: int| 0 <= i < table.len() ==> T::owner(#[trigger] table[i]) == owner
}

/// Tells whether every row of the table belongs to the user `owner`.
pub fn all_owned<T: Record>(table: &Vec<T>, owner: &str) -> (r: bool)
    ensures
        r == owned::<T>(table.deep_view(), owner@),
{
    let mut i: usize = 0;
    while i < table.len()
        invariant
            i <= table.len(),
            forall|j: int| 0 <= j < i ==> T::owner(#[trigger] table.deep_view()[j]) == owner@,
        decreases table.len() - i,
    {
        assert(table.deep_view()[i as int] == table[i as int].deep_view());
        if *table[i].owner_id() != *owner {
            return false;
        }
        i = i + 1;
    }
    true
}

/// Tells whether no two rows of the table clash.
pub fn is_clash_free<T: Record>(table: &Vec<T>) -> (r: bool)
    ensures
        r == clash_free::<T>(table.deep_view()),
{
    let mut j: usize = 0;
    while j < table.len()
        invariant
            j <= table.len(),
            forall|a: int, b: int|
                0 <= a < b < j ==> !T::clash(
                    #[trigger] table.deep_view()[a],
                    #[trigger] table.deep_view()[b],
                ),
        decreases table.len() - j,
    {
        let mut i: usize = 0;
        while i < j
            invariant
                i <= j < table.len(),
                forall|a: int|
                    0 <= a < i ==> !T::clash(
                        #[trigger] table.deep_view()[a],
                        table.deep_view()[j as int],
                    ),
            decreases j - i,
        {
            assert(table.deep_view()[i as int] == table[i as int].deep_view());
            assert(table.deep_view()[j as int] == table[j as int].deep_view());
            if table[i].clashes_with(&table[j]) {
                return false;
            }
            i = i + 1;
        }
        j = j + 1;
    }
    true
}

/// The incoming rows, as the user `owner`'s and in their order, without those that clash
/// with a row of `others`.
pub open spec fn clear_of<T: Record>(incoming: Seq<T::V>, others: Seq<T::V>, owner: Seq<char>) -> Seq<
    T::V,
>
    decreases incoming.len(),
{
    if incoming.len() == 0 {
        Seq::empty()
    } else if clashes_any::<T>(others, T::owned_by(incoming.last(), owner)) {
        clear_of::<T>(incoming.drop_last(), others, owner)
    } else {
        clear_of::<T>(incoming.drop_last(), others, owner).push(
            T::owned_by(incoming.last(), owner),
        )
    }
}

/// Leaves out the incoming rows that clash with a row of `others`, such as the rows that the
/// store holds of other users, and hands the rest back as the user `owner`'s.
pub fn keep_clear<T: Record>(incoming: &Vec<T>, others: &Vec<T>, owner: &str) -> (r: Vec<T>)
    ensures
        r.deep_view() == clear_of::<T>(incoming.deep_view(), others.deep_view(), owner@),
{
    let mut out: Vec<T> = Vec::new();
    let mut i: usize = 0;
    assert(incoming.deep_view().take(0) =~= Seq::empty());
    assert(out.deep_view() =~= Seq::empty());
    while i < incoming.len()
        invariant
            i <= incoming.len(),
            out.deep_view() == clear_of::<T>(
                incoming.deep_view().take(i as int),
                others.deep_view(),
                owner@,
            ),
        decreases incoming.len() - i,
    {
        let ghost next = incoming.deep_view().take(i + 1);
        let ghost before = out.deep_view();
        assert(next.last() == incoming[i as int].deep_view());
        assert(next.drop_last() =~= incoming.deep_view().take(i as int));
        let row = incoming[i].adopted(owner);
        if !find_clash(others, &row) {
            let ghost plain = row.deep_view();
            out.push(row);
            assert(out.deep_view() =~= before.push(plain));
        }
        i = i + 1;
    }
    assert(incoming.deep_view().take(i as int) =~= incoming.deep_view());
    out
}

/// None of the rows that are kept clashes with a row of `others`, and each is the user's.
pub proof fn lemma_clear_of<T: Record>(
    incoming: Seq<T::V>,
    others: Seq<T::V>,
    owner: Seq<char>,
    i: int,
)
    requires
        0 <= i < clear_of::<T>(incoming, others, owner).len(),
    ensures
        !clashes_any::<T>(others, clear_of::<T>(incoming, others, owner)[i]),
        T::owner(clear_of::<T>(incoming, others, owner)[i]) == owner,
    decreases incoming.len(),
{
    let rest = clear_of::<T>(incoming.drop_last(), others, owner);
    if i < rest.len() {
        lemma_clear_of::<T>(incoming.drop_last(), others, owner, i);
    } else {
        T::lemma_owned_by_owner(incoming.last(), owner);
    }
}

} // verus!
