//! Partial updates: the statement that writes exactly the fields a sparse change-set holds,
//! and the row as it stands after the change.
//!
//! The column names come from the fixed lists in this file, never from a caller. The values
//! are bound in the order of the columns in the statement's text, the row's identifier last.

use crate::task::{Task, TaskCategory, TaskView, UpdateTaskRequest, UpdateTaskRequestView};
use crate::text::{numeral, numeral_of};
use crate::user::{UpdateUserRequest, UpdateUserRequestView, User, UserView};
use vstd::prelude::*;

verus! {

/// A value bound to a placeholder of a statement.
#[derive(Debug)]
pub enum SqlValue {
    Text(String),
    Integer(i64),
}

/// What a `SqlValue` holds, as a plain value.
pub enum SqlValueView {
    Text(Seq<char>),
    Integer(int),
}

impl DeepView for SqlValue {
    type V = SqlValueView;

    open spec fn deep_view(&self) -> SqlValueView {
        match self {
            SqlValue::Text(text) => SqlValueView::Text(text@),
            SqlValue::Integer(number) => SqlValueView::Integer(*number as int),
        }
    }
}

impl Clone for SqlValue {
    fn clone(&self) -> (r: Self)
        ensures
            r == *self,
    {
        match self {
            SqlValue::Text(text) => SqlValue::Text(text.clone()),
            SqlValue::Integer(number) => SqlValue::Integer(*number),
        }
    }
}

/// An update statement: its text, with placeholders `?1`, `?2` and so on, and the values
/// bound to them, in that order.
#[derive(Debug)]
pub struct UpdateStatement {
    pub sql: String,
    pub params: Vec<SqlValue>,
}

/// What an `UpdateStatement` holds, as plain values.
pub struct UpdateStatementView {
    pub sql: Seq<char>,
    pub params: Seq<SqlValueView>,
}

impl DeepView for UpdateStatement {
    type V = UpdateStatementView;

    open spec fn deep_view(&self) -> UpdateStatementView {
        UpdateStatementView { sql: self.sql@, params: self.params.deep_view() }
    }
}

/// The assignments of a statement: `column = ?n` for each column, numbered from 1 and
/// separated by a comma and a blank.
pub open spec fn assignments(columns: Seq<Seq<char>>) -> Seq<char>
    decreases columns.len(),
{
    if columns.len() == 0 {
        Seq::empty()
    } else if columns.len() == 1 {
        columns[0] + " = ?"@ + numeral_of(1)
    } else {
        assignments(columns.drop_last()) + ", "@ + columns.last() + " = ?"@ + numeral_of(
            columns.len() as int,
        )
    }
}

/// The text of the statement that sets the columns of the row of `table` whose identifier
/// is bound to the last placeholder.
pub open spec fn update_text(table: Seq<char>, columns: Seq<Seq<char>>) -> Seq<char> {
    "UPDATE "@ + table + " SET "@ + assignments(columns) + " WHERE id = ?"@ + numeral_of(
        columns.len() as int + 1,
    )
}

/// The number that stands for a flag in a row.
pub open spec fn flag_number(flag: bool) -> int {
    if flag {
        1
    } else {
        0
    }
}

/// What a change-set says of each column of a fixed list: the new value, or nothing.
pub type Slots = Seq<Option<SqlValueView>>;

/// The columns, of a list of columns, for which the change-set holds a value, in the order
/// of the list.
pub open spec fn kept_columns(names: Seq<Seq<char>>, slots: Slots) -> Seq<Seq<char>>
    decreases slots.len(),
{
    if slots.len() == 0 || names.len() != slots.len() {
        Seq::empty()
    } else if slots.last() is Some {
        kept_columns(names.drop_last(), slots.drop_last()).push(names.last())
    } else {
        kept_columns(names.drop_last(), slots.drop_last())
    }
}

/// The values that the change-set holds, in the order of the list of columns.
pub open spec fn kept_values(slots: Slots) -> Seq<SqlValueView>
    decreases slots.len(),
{
    if slots.len() == 0 {
        Seq::empty()
    } else if slots.last() is Some {
        kept_values(slots.drop_last()).push(slots.last()->0)
    } else {
        kept_values(slots.drop_last())
    }
}

/// The columns of a task that a change-set can touch, in the order of the statement.
pub open spec fn task_column_names() -> Seq<Seq<char>> {
    seq!["title"@, "category"@, "date"@, "start_time"@, "end_time"@, "completed"@]
}

/// What a change-set for a task says of each of these columns. A category is written as its
/// token, a flag as 1 or 0.
pub open spec fn task_slots(request: UpdateTaskRequestView) -> Slots {
    seq![
        match request.title {
            Some(text) => Some(SqlValueView::Text(text)),
            None => None,
        },
        match request.category {
            Some(category) => Some(SqlValueView::Text(category.token())),
            None => None,
        },
        match request.date {
            Some(text) => Some(SqlValueView::Text(text)),
            None => None,
        },
        match request.start_time {
            Some(text) => Some(SqlValueView::Text(text)),
            None => None,
        },
        match request.end_time {
            Some(text) => Some(SqlValueView::Text(text)),
            None => None,
        },
        match request.completed {
            Some(flag) => Some(SqlValueView::Integer(flag_number(flag))),
            None => None,
        },
    ]
}

/// The columns that a change-set for a task touches, in the order of the statement.
pub open spec fn task_columns(request: UpdateTaskRequestView) -> Seq<Seq<char>> {
    kept_columns(task_column_names(), task_slots(request))
}

/// The values that a change-set for a task holds, in the order of its columns.
pub open spec fn task_values(request: UpdateTaskRequestView) -> Seq<SqlValueView> {
    kept_values(task_slots(request))
}

/// Whether a change-set for a task holds no change.
pub open spec fn task_request_is_empty(request: UpdateTaskRequestView) -> bool {
    request.title is None && request.category is None && request.date is None
        && request.start_time is None && request.end_time is None && request.completed is None
}

/// The statement for a change-set for the task with the given identifier: none where the
/// change-set touches no column.
pub open spec fn task_update_of(task_id: Seq<char>, request: UpdateTaskRequestView) -> Option<
    UpdateStatementView,
> {
    if task_columns(request).len() == 0 {
        None
    } else {
        Some(
            UpdateStatementView {
                sql: update_text("tasks"@, task_columns(request)),
                params: task_values(request).push(SqlValueView::Text(task_id)),
            },
        )
    }
}

/// The task as it stands after a change-set was applied to it.
pub open spec fn task_after(task: TaskView, request: UpdateTaskRequestView) -> TaskView {
    TaskView {
        id: task.id,
        user_id: task.user_id,
        title: if request.title is Some {
            request.title->0
        } else {
            task.title
        },
        category: if request.category is Some {
            request.category->0
        } else {
            task.category
        },
        date: if request.date is Some {
            request.date->0
        } else {
            task.date
        },
        start_time: if request.start_time is Some {
            request.start_time->0
        } else {
            task.start_time
        },
        end_time: if request.end_time is Some {
            request.end_time->0
        } else {
            task.end_time
        },
        completed: if request.completed is Some {
            request.completed->0
        } else {
            task.completed
        },
        created_at: task.created_at,
    }
}

/// The columns of a user that a statement can set, in the order of the statement. The time
/// of the change comes first: it is written with every change.
pub open spec fn user_column_names() -> Seq<Seq<char>> {
    seq!["updated_at"@, "name"@, "email"@, "avatar_path"@, "is_premium"@]
}

/// Whether a change-set for a user holds no change.
pub open spec fn user_request_is_empty(request: UpdateUserRequestView) -> bool {
    request.name is None && request.email is None && request.avatar_path is None
        && request.is_premium is None
}

/// What a change-set for a user that holds a change, made at the time `now`, says of each of
/// these columns.
pub open spec fn user_slots(request: UpdateUserRequestView, now: Seq<char>) -> Slots {
    seq![
        Some(SqlValueView::Text(now)),
        match request.name {
            Some(text) => Some(SqlValueView::Text(text)),
            None => None,
        },
        match request.email {
            Some(text) => Some(SqlValueView::Text(text)),
            None => None,
        },
        match request.avatar_path {
            Some(text) => Some(SqlValueView::Text(text)),
            None => None,
        },
        match request.is_premium {
            Some(flag) => Some(SqlValueView::Integer(flag_number(flag))),
            None => None,
        },
    ]
}

/// The columns that a change-set for a user touches, in the order of the statement.
pub open spec fn user_columns(request: UpdateUserRequestView, now: Seq<char>) -> Seq<Seq<char>> {
    kept_columns(user_column_names(), user_slots(request, now))
}

/// The values that a change-set for a user holds, in the order of its columns.
pub open spec fn user_values(request: UpdateUserRequestView, now: Seq<char>) -> Seq<SqlValueView> {
    kept_values(user_slots(request, now))
}

/// The statement for a change-set for the user with the given identifier, made at the time
/// `now`: none for an empty change-set.
pub open spec fn user_update_of(
    user_id: Seq<char>,
    request: UpdateUserRequestView,
    now: Seq<char>,
) -> Option<UpdateStatementView> {
    if user_request_is_empty(request) {
        None
    } else {
        Some(
            UpdateStatementView {
                sql: update_text("users"@, user_columns(request, now)),
                params: user_values(request, now).push(SqlValueView::Text(user_id)),
            },
        )
    }
}

/// The user as it stands after a change-set was applied to it at the time `now`: as it was
/// for an empty change-set, else with the fields of the change-set and updated at `now`.
pub open spec fn user_after(user: UserView, request: UpdateUserRequestView, now: Seq<char>) -> UserView {
    if user_request_is_empty(request) {
        user
    } else {
        user_changed(user, request, now)
    }
}

/// The user with the fields that a change-set holds, updated at the time `now`.
pub open spec fn user_changed(user: UserView, request: UpdateUserRequestView, now: Seq<char>) -> UserView {
    UserView {
        id: user.id,
        name: if request.name is Some {
            request.name->0
        } else {
            user.name
        },
        email: if request.email is Some {
            request.email
        } else {
            user.email
        },
        avatar_path: if request.avatar_path is Some {
            request.avatar_path
        } else {
            user.avatar_path
        },
        join_date: user.join_date,
        is_premium: if request.is_premium is Some {
            request.is_premium->0
        } else {
            user.is_premium
        },
        created_at: user.created_at,
        updated_at: now,
    }
}

/// Writes the text of the statement that sets the given columns.
fn render_update(table: &str, columns: &Vec<&'static str>) -> (sql: String)
    requires
        1 <= columns.len() < 1000,
    ensures
        sql@ == update_text(table@, columns.deep_view()),
{
    let mut sql = String::from_str("UPDATE ");
    sql.append(table);
    sql.append(" SET ");
    let ghost head = sql@;
    let mut i: usize = 0;
    assert(columns.deep_view().take(0) =~= Seq::empty());
    while i < columns.len()
        invariant
            i <= columns.len(),
            columns.len() < 1000,
            head == "UPDATE "@ + table@ + " SET "@,
            sql@ == head + assignments(columns.deep_view().take(i as int)),
        decreases columns.len() - i,
    {
        let ghost done = columns.deep_view().take(i as int);
        let ghost next = columns.deep_view().take(i + 1);
        assert(next.last() == columns[i as int]@);
        assert(next.drop_last() =~= done);
        if i > 0 {
            sql.append(", ");
        }
        sql.append(columns[i]);
        sql.append(" = ?");
        let number = numeral((i + 1) as i64);
        sql.append(number.as_str());
        assert(sql@ =~= head + assignments(next));
        i = i + 1;
    }
    assert(columns.deep_view().take(i as int) =~= columns.deep_view());
    sql.append(" WHERE id = ?");
    let number = numeral((columns.len() + 1) as i64);
    sql.append(number.as_str());
    assert(sql@ =~= update_text(table@, columns.deep_view()));
    sql
}

/// Picks the columns and values for which the change-set holds a value.
fn compact(names: &Vec<&'static str>, slots: &Vec<Option<SqlValue>>) -> (r: (
    Vec<&'static str>,
    Vec<SqlValue>,
))
    requires
        names.len() == slots.len(),
    ensures
        r.0.deep_view() == kept_columns(names.deep_view(), slots.deep_view()),
        r.1.deep_view() == kept_values(slots.deep_view()),
        r.0.len() <= names.len(),
{
    let mut columns: Vec<&'static str> = Vec::new();
    let mut params: Vec<SqlValue> = Vec::new();
    let mut i: usize = 0;
    assert(names.deep_view().take(0) =~= Seq::empty());
    assert(slots.deep_view().take(0) =~= Seq::empty());
    assert(columns.deep_view() =~= Seq::empty());
    assert(params.deep_view() =~= Seq::empty());
    while i < slots.len()
        invariant
            i <= slots.len(),
            names.len() == slots.len(),
            columns.len() <= i,
            columns.deep_view() == kept_columns(
                names.deep_view().take(i as int),
                slots.deep_view().take(i as int),
            ),
            params.deep_view() == kept_values(slots.deep_view().take(i as int)),
        decreases slots.len() - i,
    {
        let ghost next_names = names.deep_view().take(i + 1);
        let ghost next_slots = slots.deep_view().take(i + 1);
        let ghost columns_before = columns.deep_view();
        let ghost params_before = params.deep_view();
        assert(next_names.last() == names[i as int]@);
        assert(next_slots.last() == slots[i as int].deep_view());
        assert(next_names.drop_last() =~= names.deep_view().take(i as int));
        assert(next_slots.drop_last() =~= slots.deep_view().take(i as int));
        match &slots[i] {
            Some(value) => {
                columns.push(names[i]);
                params.push(value.clone());
                assert(columns.deep_view() =~= columns_before.push(names[i as int]@));
                assert(params.deep_view() =~= params_before.push(value.deep_view()));
            },
            None => {},
        }
        i = i + 1;
    }
    assert(names.deep_view().take(i as int) =~= names.deep_view());
    assert(slots.deep_view().take(i as int) =~= slots.deep_view());
    (columns, params)
}

fn text_slot(value: &Option<String>) -> (r: Option<SqlValue>)
    ensures
        r.deep_view() == (match value.deep_view() {
            Some(text) => Some(SqlValueView::Text(text)),
            None => None,
        }),
{
    match value {
        Some(text) => Some(SqlValue::Text(text.clone())),
        None => None,
    }
}

fn flag_slot(value: Option<bool>) -> (r: Option<SqlValue>)
    ensures
        r.deep_view() == (match value {
            Some(flag) => Some(SqlValueView::Integer(flag_number(flag))),
            None => None,
        }),
{
    match value {
        Some(flag) => Some(SqlValue::Integer(if flag {
            1
        } else {
            0
        })),
        None => None,
    }
}

fn category_slot(value: Option<TaskCategory>) -> (r: Option<SqlValue>)
    ensures
        r.deep_view() == (match value {
            Some(category) => Some(SqlValueView::Text(category.token())),
            None => None,
        }),
{
    match value {
        Some(category) => Some(SqlValue::Text(String::from_str(category.as_str()))),
        None => None,
    }
}

/// Builds the statement for a change-set for a task: it sets exactly the fields that the
/// change-set holds. An empty change-set needs no statement.
pub fn task_update_statement(task_id: &str, request: &UpdateTaskRequest) -> (r: Option<
    UpdateStatement,
>)
    ensures
        r.deep_view() == task_update_of(task_id@, request.deep_view()),
{
    let names: Vec<&'static str> = vec![
        "title",
        "category",
        "date",
        "start_time",
        "end_time",
        "completed",
    ];
    let slots: Vec<Option<SqlValue>> = vec![
        text_slot(&request.title),
        category_slot(request.category),
        text_slot(&request.date),
        text_slot(&request.start_time),
        text_slot(&request.end_time),
        flag_slot(request.completed),
    ];
    assert(names.deep_view() =~= task_column_names());
    assert(slots.deep_view() =~= task_slots(request.deep_view()));
    let (columns, mut params) = compact(&names, &slots);
    if columns.len() == 0 {
        return None;
    }
    let sql = render_update("tasks", &columns);
    let ghost values = params.deep_view();
    params.push(SqlValue::Text(String::from_str(task_id)));
    assert(params.deep_view() =~= values.push(SqlValueView::Text(task_id@)));
    Some(UpdateStatement { sql, params })
}

/// Tells whether a change-set for a user holds no change.
pub fn user_request_empty(request: &UpdateUserRequest) -> (r: bool)
    ensures
        r == user_request_is_empty(request.deep_view()),
{
    request.name.is_none() && request.email.is_none() && request.avatar_path.is_none()
        && request.is_premium.is_none()
}

/// Builds the statement for a change-set for a user, made at the time `now`: it sets the
/// time of the change and exactly the fields that the change-set holds. An empty change-set
/// needs no statement.
pub fn user_update_statement(user_id: &str, request: &UpdateUserRequest, now: &str) -> (r: Option<
    UpdateStatement,
>)
    ensures
        r.deep_view() == user_update_of(user_id@, request.deep_view(), now@),
{
    if user_request_empty(request) {
        return None;
    }
    let names: Vec<&'static str> = vec!["updated_at", "name", "email", "avatar_path", "is_premium"];
    let slots: Vec<Option<SqlValue>> = vec![
        Some(SqlValue::Text(String::from_str(now))),
        text_slot(&request.name),
        text_slot(&request.email),
        text_slot(&request.avatar_path),
        flag_slot(request.is_premium),
    ];
    assert(names.deep_view() =~= user_column_names());
    assert(slots.deep_view() =~= user_slots(request.deep_view(), now@));
    let (columns, mut params) = compact(&names, &slots);
    proof {
        lemma_user_columns_start(request.deep_view(), now@);
    }
    let sql = render_update("users", &columns);
    let ghost values = params.deep_view();
    params.push(SqlValue::Text(String::from_str(user_id)));
    assert(params.deep_view() =~= values.push(SqlValueView::Text(user_id@)));
    Some(UpdateStatement { sql, params })
}

/// An empty change-set for a user needs no statement and leaves the user as it is, the time
/// of the last update included; any other change-set needs a statement.
pub proof fn lemma_empty_user_update(
    user_id: Seq<char>,
    user: UserView,
    request: UpdateUserRequestView,
    now: Seq<char>,
)
    ensures
        user_request_is_empty(request) <==> user_update_of(user_id, request, now) is None,
        user_request_is_empty(request) ==> user_after(user, request, now) == user,
{
}

/// The statement for a user sets the time of the change first.
pub proof fn lemma_user_columns_start(request: UpdateUserRequestView, now: Seq<char>)
    ensures
        user_columns(request, now).len() >= 1,
        user_columns(request, now)[0] == "updated_at"@,
        user_values(request, now)[0] == SqlValueView::Text(now),
{
    lemma_kept_first(user_column_names(), user_slots(request, now));
}

/// Where the change-set holds a value for the first column, that column and value come
/// first.
pub proof fn lemma_kept_first(names: Seq<Seq<char>>, slots: Slots)
    requires
        names.len() == slots.len(),
        slots.len() >= 1,
        slots[0] is Some,
    ensures
        kept_columns(names, slots).len() >= 1,
        kept_columns(names, slots)[0] == names[0],
        kept_values(slots).len() >= 1,
        kept_values(slots)[0] == slots[0]->0,
    decreases slots.len(),
{
    if slots.len() > 1 {
        lemma_kept_first(names.drop_last(), slots.drop_last());
    } else {
        assert(kept_columns(names.drop_last(), slots.drop_last()).len() == 0);
        assert(kept_values(slots.drop_last()).len() == 0);
    }
}

/// As many values are kept as columns: the placeholders of a statement and the values bound
/// to them go in lockstep.
pub proof fn lemma_kept_in_lockstep(names: Seq<Seq<char>>, slots: Slots)
    requires
        names.len() == slots.len(),
    ensures
        kept_columns(names, slots).len() == kept_values(slots).len(),
        kept_columns(names, slots).len() <= slots.len(),
    decreases slots.len(),
{
    if slots.len() > 0 {
        lemma_kept_in_lockstep(names.drop_last(), slots.drop_last());
    }
}

/// No column is kept exactly where the change-set holds no value at all.
pub proof fn lemma_kept_none(names: Seq<Seq<char>>, slots: Slots)
    requires
        names.len() == slots.len(),
    ensures
        kept_columns(names, slots).len() == 0 <==> (forall|i: int|
            0 <= i < slots.len() ==> #[trigger] slots[i] is None),
    decreases slots.len(),
{
    if slots.len() > 0 {
        lemma_kept_none(names.drop_last(), slots.drop_last());
        if forall|i: int| 0 <= i < slots.len() ==> #[trigger] slots[i] is None {
            assert(slots.last() is None);
            assert forall|i: int| 0 <= i < slots.drop_last().len() implies #[trigger] slots.drop_last()[i] is None by {
                assert(slots[i] is None);
            }
        }
        if kept_columns(names, slots).len() == 0 {
            assert forall|i: int| 0 <= i < slots.len() implies #[trigger] slots[i] is None by {
                if i < slots.len() - 1 {
                    assert(slots.drop_last()[i] is None);
                }
            }
        }
    }
}

/// An empty change-set for a task needs no statement and leaves the task as it is; any other
/// change-set needs one.
pub proof fn lemma_empty_task_update(task_id: Seq<char>, task: TaskView, request: UpdateTaskRequestView)
    ensures
        task_request_is_empty(request) <==> task_update_of(task_id, request) is None,
        task_request_is_empty(request) ==> task_after(task, request) == task,
{
    let slots = task_slots(request);
    lemma_kept_none(task_column_names(), slots);
    if task_request_is_empty(request) {
        assert forall|i: int| 0 <= i < slots.len() implies #[trigger] slots[i] is None by {}
    } else {
        assert(slots[0] is Some || slots[1] is Some || slots[2] is Some || slots[3] is Some
            || slots[4] is Some || slots[5] is Some);
    }
}

impl Task {
    /// The task as it stands after a change-set was applied to it.
    pub fn patched(self, request: &UpdateTaskRequest) -> (r: Task)
        ensures
            r.deep_view() == task_after(self.deep_view(), request.deep_view()),
    {
        Task {
            id: self.id,
            user_id: self.user_id,
            title: match &request.title {
                Some(text) => text.clone(),
                None => self.title,
            },
            category: match request.category {
                Some(category) => category,
                None => self.category,
            },
            date: match &request.date {
                Some(text) => text.clone(),
                None => self.date,
            },
            start_time: match &request.start_time {
                Some(text) => text.clone(),
                None => self.start_time,
            },
            end_time: match &request.end_time {
                Some(text) => text.clone(),
                None => self.end_time,
            },
            completed: match request.completed {
                Some(flag) => flag,
                None => self.completed,
            },
            created_at: self.created_at,
        }
    }
}

impl User {
    /// The user as it stands after a change-set was applied to it at the time `now`. An
    /// empty change-set leaves the user as it is.
    pub fn patched(self, request: &UpdateUserRequest, now: String) -> (r: User)
        ensures
            r.deep_view() == user_after(self.deep_view(), request.deep_view(), now@),
    {
        if user_request_empty(request) {
            return self;
        }
        User {
            id: self.id,
            name: match &request.name {
                Some(text) => text.clone(),
                None => self.name,
            },
            email: match &request.email {
                Some(text) => Some(text.clone()),
                None => self.email,
            },
            avatar_path: match &request.avatar_path {
                Some(text) => Some(text.clone()),
                None => self.avatar_path,
            },
            join_date: self.join_date,
            is_premium: match request.is_premium {
                Some(flag) => flag,
                None => self.is_premium,
            },
            created_at: self.created_at,
            updated_at: now,
        }
    }
}

} // verus!
