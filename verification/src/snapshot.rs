//! Snapshots: the complete export of one user's data, and the account of an import.

use crate::achievement::{Achievement, AchievementView};
use crate::session::{FocusSession, FocusSessionView};
use crate::settings::{SettingEntry, SettingEntryView};
use crate::task::{Task, TaskView};
use crate::text::{numeral, numeral_of};
use crate::user::{User, UserView};
use vstd::prelude::*;

verus! {

/// A snapshot of one user's data, tagged with the version of its format and the time of the
/// export.
#[derive(Debug)]
pub struct ExportData {
    pub version: String,
    pub exported_at: String,
    pub user: User,
    pub focus_sessions: Vec<FocusSession>,
    pub tasks: Vec<Task>,
    pub achievements: Vec<Achievement>,
    pub settings: Vec<SettingEntry>,
}

/// What an `ExportData` holds, as plain values.
pub struct ExportDataView {
    pub version: Seq<char>,
    pub exported_at: Seq<char>,
    pub user: UserView,
    pub focus_sessions: Seq<FocusSessionView>,
    pub tasks: Seq<TaskView>,
    pub achievements: Seq<AchievementView>,
    pub settings: Seq<SettingEntryView>,
}

impl DeepView for ExportData {
    type V = ExportDataView;

    open spec fn deep_view(&self) -> ExportDataView {
        ExportDataView {
            version: self.version@,
            exported_at: self.exported_at@,
            user: self.user.deep_view(),
            focus_sessions: self.focus_sessions.deep_view(),
            tasks: self.tasks.deep_view(),
            achievements: self.achievements.deep_view(),
            settings: self.settings.deep_view(),
        }
    }
}

impl Clone for ExportData {
    fn clone(&self) -> (r: Self)
        ensures
            r.deep_view() == self.deep_view(),
    {
        ExportData {
            version: self.version.clone(),
            exported_at: self.exported_at.clone(),
            user: self.user.clone(),
            focus_sessions: self.focus_sessions.clone(),
            tasks: self.tasks.clone(),
            achievements: self.achievements.clone(),
            settings: self.settings.clone(),
        }
    }
}

impl ExportData {
    /// The version of the snapshot format.
    pub open spec fn format_version() -> Seq<char> {
        "1.0"@
    }

    /// Puts a user's data together as a snapshot of the current format version, exported at
    /// the time `exported_at`.
    pub fn assemble(
        exported_at: String,
        user: User,
        focus_sessions: Vec<FocusSession>,
        tasks: Vec<Task>,
        achievements: Vec<Achievement>,
        settings: Vec<SettingEntry>,
    ) -> (r: ExportData)
        ensures
            r.deep_view() == (ExportDataView {
                version: Self::format_version(),
                exported_at: exported_at@,
                user: user.deep_view(),
                focus_sessions: focus_sessions.deep_view(),
                tasks: tasks.deep_view(),
                achievements: achievements.deep_view(),
                settings: settings.deep_view(),
            }),
    {
        ExportData {
            version: String::from_str("1.0"),
            exported_at,
            user,
            focus_sessions,
            tasks,
            achievements,
            settings,
        }
    }
}

/// The account of an import: how many rows of each kind were inserted, how many settings
/// were written, and a summary in words.
#[derive(Debug)]
pub struct ImportResult {
    pub success: bool,
    pub sessions_imported: i64,
    pub tasks_imported: i64,
    pub achievements_imported: i64,
    pub settings_imported: i64,
    pub message: String,
}

/// What an `ImportResult` holds, as plain values.
pub struct ImportResultView {
    pub success: bool,
    pub sessions_imported: int,
    pub tasks_imported: int,
    pub achievements_imported: int,
    pub settings_imported: int,
    pub message: Seq<char>,
}

impl DeepView for ImportResult {
    type V = ImportResultView;

    open spec fn deep_view(&self) -> ImportResultView {
        ImportResultView {
            success: self.success,
            sessions_imported: self.sessions_imported as int,
            tasks_imported: self.tasks_imported as int,
            achievements_imported: self.achievements_imported as int,
            settings_imported: self.settings_imported as int,
            message: self.message@,
        }
    }
}

impl Clone for ImportResult {
    fn clone(&self) -> (r: Self)
        ensures
            r == *self,
    {
        ImportResult {
            success: self.success,
            sessions_imported: self.sessions_imported,
            tasks_imported: self.tasks_imported,
            achievements_imported: self.achievements_imported,
            settings_imported: self.settings_imported,
            message: self.message.clone(),
        }
    }
}

/// The summary of an import in words.
pub open spec fn import_message(sessions: int, tasks: int, achievements: int, settings: int) -> Seq<
    char,
> {
    "Imported "@ + numeral_of(sessions) + " sessions, "@ + numeral_of(tasks) + " tasks, "@
        + numeral_of(achievements) + " achievements, "@ + numeral_of(settings) + " settings"@
}

/// The account of a successful import with the given counts.
pub open spec fn import_account(sessions: int, tasks: int, achievements: int, settings: int) -> ImportResultView {
    ImportResultView {
        success: true,
        sessions_imported: sessions,
        tasks_imported: tasks,
        achievements_imported: achievements,
        settings_imported: settings,
        message: import_message(sessions, tasks, achievements, settings),
    }
}

impl ImportResult {
    /// The account of a successful import with the given counts.
    pub fn summarize(sessions: i64, tasks: i64, achievements: i64, settings: i64) -> (r:
        ImportResult)
        ensures
            r.deep_view() == import_account(
                sessions as int,
                tasks as int,
                achievements as int,
                settings as int,
            ),
    {
        let mut message = String::from_str("Imported ");
        message.append(numeral(sessions).as_str());
        message.append(" sessions, ");
        message.append(numeral(tasks).as_str());
        message.append(" tasks, ");
        message.append(numeral(achievements).as_str());
        message.append(" achievements, ");
        message.append(numeral(settings).as_str());
        message.append(" settings");
        ImportResult {
            success: true,
            sessions_imported: sessions,
            tasks_imported: tasks,
            achievements_imported: achievements,
            settings_imported: settings,
            message,
        }
    }
}

} // verus!
