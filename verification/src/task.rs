//! Tasks, their categories and the requests that create and change them.

use vstd::prelude::*;

verus! {

/// The closed set of task categories.
#[derive(Debug, Clone, Copy, PartialEq, Eq, Structural)]
pub enum TaskCategory {
    ToDo,
    Event,
    Reminder,
}

impl TaskCategory {
    /// The canonical token under which a category is stored.
    pub open spec fn token(self) -> Seq<char> {
        match self {
            TaskCategory::ToDo => "To Do"@,
            TaskCategory::Event => "Event"@,
            TaskCategory::Reminder => "Reminder"@,
        }
    }

    /// The category that a token stands for, if it is a canonical token.
    pub open spec fn parse(text: Seq<char>) -> Option<TaskCategory> {
        if text == "To Do"@ {
            Some(TaskCategory::ToDo)
        } else if text == "Event"@ {
            Some(TaskCategory::Event)
        } else if text == "Reminder"@ {
            Some(TaskCategory::Reminder)
        } else {
            None
        }
    }

    /// The category that a stored token is read as: an unknown token counts as `ToDo`.
    pub open spec fn parse_or_default(text: Seq<char>) -> TaskCategory {
        match Self::parse(text) {
            Some(category) => category,
            None => TaskCategory::ToDo,
        }
    }

    pub fn as_str(&self) -> (text: &'static str)
        ensures
            text@ == self.token(),
    {
        match self {
            TaskCategory::ToDo => "To Do",
            TaskCategory::Event => "Event",
            TaskCategory::Reminder => "Reminder",
        }
    }

    pub fn from_str(s: &str) -> (r: Option<TaskCategory>)
        ensures
            r == Self::parse(s@),
    {
        if *s == *"To Do" {
            Some(TaskCategory::ToDo)
        } else if *s == *"Event" {
            Some(TaskCategory::Event)
        } else if *s == *"Reminder" {
            Some(TaskCategory::Reminder)
        } else {
            None
        }
    }

    /// Reads a stored token, taking an unknown one for `ToDo`.
    pub fn from_stored(s: &str) -> (r: TaskCategory)
        ensures
            r == Self::parse_or_default(s@),
    {
        match Self::from_str(s) {
            Some(category) => category,
            None => TaskCategory::ToDo,
        }
    }

    /// Every category is read back from its own token.
    pub proof fn lemma_token_round_trip(category: TaskCategory)
        ensures
            Self::parse(category.token()) == Some(category),
    {
        reveal_strlit("To Do");
        reveal_strlit("Event");
        reveal_strlit("Reminder");
        assert("To Do"@.len() == 5);
        assert("Event"@[0] == 'E');
        assert("To Do"@[0] == 'T');
        assert("Reminder"@.len() == 8);
    }

    /// A token is read as a category only if it is that category's token.
    pub proof fn lemma_parse_is_token(text: Seq<char>, category: TaskCategory)
        requires
            Self::parse(text) == Some(category),
        ensures
            text == category.token(),
    {
    }
}

/// A task.
#[derive(Debug)]
pub struct Task {
    pub id: String,
    pub user_id: String,
    pub title: String,
    pub category: TaskCategory,
    pub date: String,
    pub start_time: String,
    pub end_time: String,
    pub completed: bool,
    pub created_at: String,
}

/// What a `Task` holds, as plain values.
pub struct TaskView {
    pub id: Seq<char>,
    pub user_id: Seq<char>,
    pub title: Seq<char>,
    pub category: TaskCategory,
    pub date: Seq<char>,
    pub start_time: Seq<char>,
    pub end_time: Seq<char>,
    pub completed: bool,
    pub created_at: Seq<char>,
}

impl DeepView for Task {
    type V = TaskView;

    open spec fn deep_view(&self) -> TaskView {
        TaskView {
            id: self.id@,
            user_id: self.user_id@,
            title: self.title@,
            category: self.category,
            date: self.date@,
            start_time: self.start_time@,
            end_time: self.end_time@,
            completed: self.completed,
            created_at: self.created_at@,
        }
    }
}

impl Clone for Task {
    fn clone(&self) -> (r: Self)
        ensures
            r == *self,
    {
        Task {
            id: self.id.clone(),
            user_id: self.user_id.clone(),
            title: self.title.clone(),
            category: self.category,
            date: self.date.clone(),
            start_time: self.start_time.clone(),
            end_time: self.end_time.clone(),
            completed: self.completed,
            created_at: self.created_at.clone(),
        }
    }
}

/// The request that creates a task.
#[derive(Debug)]
pub struct CreateTaskRequest {
    pub user_id: String,
    pub title: String,
    pub category: TaskCategory,
    pub date: String,
    pub start_time: String,
    pub end_time: String,
}

/// What a `CreateTaskRequest` holds, as plain values.
pub struct CreateTaskRequestView {
    pub user_id: Seq<char>,
    pub title: Seq<char>,
    pub category: TaskCategory,
    pub date: Seq<char>,
    pub start_time: Seq<char>,
    pub end_time: Seq<char>,
}

impl DeepView for CreateTaskRequest {
    type V = CreateTaskRequestView;

    open spec fn deep_view(&self) -> CreateTaskRequestView {
        CreateTaskRequestView {
            user_id: self.user_id@,
            title: self.title@,
            category: self.category,
            date: self.date@,
            start_time: self.start_time@,
            end_time: self.end_time@,
        }
    }
}

impl Clone for CreateTaskRequest {
    fn clone(&self) -> (r: Self)
        ensures
            r == *self,
    {
        CreateTaskRequest {
            user_id: self.user_id.clone(),
            title: self.title.clone(),
            category: self.category,
            date: self.date.clone(),
            start_time: self.start_time.clone(),
            end_time: self.end_time.clone(),
        }
    }
}

/// A sparse change-set for a task: a field that is `None` is left as it is.
#[derive(Debug)]
pub struct UpdateTaskRequest {
    pub title: Option<String>,
    pub category: Option<TaskCategory>,
    pub date: Option<String>,
    pub start_time: Option<String>,
    pub end_time: Option<String>,
    pub completed: Option<bool>,
}

/// What an `UpdateTaskRequest` holds, as plain values.
pub struct UpdateTaskRequestView {
    pub title: Option<Seq<char>>,
    pub category: Option<TaskCategory>,
    pub date: Option<Seq<char>>,
    pub start_time: Option<Seq<char>>,
    pub end_time: Option<Seq<char>>,
    pub completed: Option<bool>,
}

impl DeepView for UpdateTaskRequest {
    type V = UpdateTaskRequestView;

    open spec fn deep_view(&self) -> UpdateTaskRequestView {
        UpdateTaskRequestView {
            title: self.title.deep_view(),
            category: self.category,
            date: self.date.deep_view(),
            start_time: self.start_time.deep_view(),
            end_time: self.end_time.deep_view(),
            completed: self.completed,
        }
    }
}

impl Clone for UpdateTaskRequest {
    fn clone(&self) -> (r: Self)
        ensures
            r == *self,
    {
        UpdateTaskRequest {
            title: self.title.clone(),
            category: self.category,
            date: self.date.clone(),
            start_time: self.start_time.clone(),
            end_time: self.end_time.clone(),
            completed: self.completed,
        }
    }
}

impl Task {
    /// The task that a request describes, under the given identifier and creation time.
    /// A new task is not completed.
    pub fn from_request(id: String, request: CreateTaskRequest, created_at: String) -> (r: Task)
        ensures
            r.deep_view() == (TaskView {
                id: id@,
                user_id: request.user_id@,
                title: request.title@,
                category: request.category,
                date: request.date@,
                start_time: request.start_time@,
                end_time: request.end_time@,
                completed: false,
                created_at: created_at@,
            }),
    {
        Task {
            id,
            user_id: request.user_id,
            title: request.title,
            category: request.category,
            date: request.date,
            start_time: request.start_time,
            end_time: request.end_time,
            completed: false,
            created_at,
        }
    }
}

impl Task {
    /// The task that a stored row holds. A row holds the category as a token, where an unknown
    /// token counts as `ToDo`, and the completed flag as a number: 1 is set, any other number
    /// is not.
    pub fn from_row(
        id: String,
        user_id: String,
        title: String,
        category: &str,
        date: String,
        start_time: String,
        end_time: String,
        completed: i32,
        created_at: String,
    ) -> (r: Task)
        ensures
            r.deep_view() == (TaskView {
                id: id@,
                user_id: user_id@,
                title: title@,
                category: TaskCategory::parse_or_default(category@),
                date: date@,
                start_time: start_time@,
                end_time: end_time@,
                completed: completed == 1,
                created_at: created_at@,
            }),
    {
        Task {
            id,
            user_id,
            title,
            category: TaskCategory::from_stored(category),
            date,
            start_time,
            end_time,
            completed: completed == 1,
            created_at,
        }
    }

    /// The number that a row holds for the completed flag after a toggle of the number
    /// `stored`: 0 where the flag was set, 1 otherwise.
    pub fn toggled_flag(stored: i32) -> (r: i32)
        ensures
            r == (if stored == 1 {
                0int
            } else {
                1int
            }),
    {
        if stored == 1 {
            0
        } else {
            1
        }
    }
}

} // verus!
