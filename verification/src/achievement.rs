//! The achievement catalog: the ten achievement types, unlock records and the overview
//! that shows every type with its unlock state.

use vstd::prelude::*;

verus! {

/// The closed set of achievement types.
#[derive(Debug, Clone, Copy, PartialEq, Eq, Structural)]
pub enum AchievementType {
    FirstSession,
    HourMaster,
    StreakWeek,
    StreakMonth,
    TotalHours10,
    TotalHours50,
    TotalHours100,
    EarlyBird,
    NightOwl,
    TaskMaster,
}

impl AchievementType {
    /// The canonical token under which a type is stored.
    pub open spec fn token(self) -> Seq<char> {
        match self {
            AchievementType::FirstSession => "first_session"@,
            AchievementType::HourMaster => "hour_master"@,
            AchievementType::StreakWeek => "streak_week"@,
            AchievementType::StreakMonth => "streak_month"@,
            AchievementType::TotalHours10 => "total_hours_10"@,
            AchievementType::TotalHours50 => "total_hours_50"@,
            AchievementType::TotalHours100 => "total_hours_100"@,
            AchievementType::EarlyBird => "early_bird"@,
            AchievementType::NightOwl => "night_owl"@,
            AchievementType::TaskMaster => "task_master"@,
        }
    }

    /// The type that a token stands for, if it is a canonical token.
    pub open spec fn parse(text: Seq<char>) -> Option<AchievementType> {
        if text == "first_session"@ {
            Some(AchievementType::FirstSession)
        } else if text == "hour_master"@ {
            Some(AchievementType::HourMaster)
        } else if text == "streak_week"@ {
            Some(AchievementType::StreakWeek)
        } else if text == "streak_month"@ {
            Some(AchievementType::StreakMonth)
        } else if text == "total_hours_10"@ {
            Some(AchievementType::TotalHours10)
        } else if text == "total_hours_50"@ {
            Some(AchievementType::TotalHours50)
        } else if text == "total_hours_100"@ {
            Some(AchievementType::TotalHours100)
        } else if text == "early_bird"@ {
            Some(AchievementType::EarlyBird)
        } else if text == "night_owl"@ {
            Some(AchievementType::NightOwl)
        } else if text == "task_master"@ {
            Some(AchievementType::TaskMaster)
        } else {
            None
        }
    }

    /// The type that a stored token is read as: an unknown token counts as `FirstSession`.
    pub open spec fn parse_or_default(text: Seq<char>) -> AchievementType {
        match Self::parse(text) {
            Some(kind) => kind,
            None => AchievementType::FirstSession,
        }
    }

    /// The name shown for a type.
    pub open spec fn name_text(self) -> Seq<char> {
        match self {
            AchievementType::FirstSession => "First Focus"@,
            AchievementType::HourMaster => "Hour Master"@,
            AchievementType::StreakWeek => "Week Warrior"@,
            AchievementType::StreakMonth => "Monthly Champion"@,
            AchievementType::TotalHours10 => "10 Hours Club"@,
            AchievementType::TotalHours50 => "50 Hours Legend"@,
            AchievementType::TotalHours100 => "Century Master"@,
            AchievementType::EarlyBird => "Early Bird"@,
            AchievementType::NightOwl => "Night Owl"@,
            AchievementType::TaskMaster => "Task Master"@,
        }
    }

    /// The sentence that says how a type is earned.
    pub open spec fn description_text(self) -> Seq<char> {
        match self {
            AchievementType::FirstSession => "Complete your first focus session"@,
            AchievementType::HourMaster => "Complete a single session over 1 hour"@,
            AchievementType::StreakWeek => "Maintain a 7-day streak"@,
            AchievementType::StreakMonth => "Maintain a 30-day streak"@,
            AchievementType::TotalHours10 => "Accumulate 10 hours of focus time"@,
            AchievementType::TotalHours50 => "Accumulate 50 hours of focus time"@,
            AchievementType::TotalHours100 => "Accumulate 100 hours of focus time"@,
            AchievementType::EarlyBird => "Start a session before 6 AM"@,
            AchievementType::NightOwl => "Complete a session after 11 PM"@,
            AchievementType::TaskMaster => "Complete 50 tasks"@,
        }
    }

    /// The ten types, in the order of the catalog.
    pub open spec fn catalog() -> Seq<AchievementType> {
        seq![
            AchievementType::FirstSession,
            AchievementType::HourMaster,
            AchievementType::StreakWeek,
            AchievementType::StreakMonth,
            AchievementType::TotalHours10,
            AchievementType::TotalHours50,
            AchievementType::TotalHours100,
            AchievementType::EarlyBird,
            AchievementType::NightOwl,
            AchievementType::TaskMaster,
        ]
    }

    pub fn as_str(&self) -> (text: &'static str)
        ensures
            text@ == self.token(),
    {
        match self {
            AchievementType::FirstSession => "first_session",
            AchievementType::HourMaster => "hour_master",
            AchievementType::StreakWeek => "streak_week",
            AchievementType::StreakMonth => "streak_month",
            AchievementType::TotalHours10 => "total_hours_10",
            AchievementType::TotalHours50 => "total_hours_50",
            AchievementType::TotalHours100 => "total_hours_100",
            AchievementType::EarlyBird => "early_bird",
            AchievementType::NightOwl => "night_owl",
            AchievementType::TaskMaster => "task_master",
        }
    }

    pub fn from_str(s: &str) -> (r: Option<AchievementType>)
        ensures
            r == Self::parse(s@),
    {
        if *s == *"first_session" {
            Some(AchievementType::FirstSession)
        } else if *s == *"hour_master" {
            Some(AchievementType::HourMaster)
        } else if *s == *"streak_week" {
            Some(AchievementType::StreakWeek)
        } else if *s == *"streak_month" {
            Some(AchievementType::StreakMonth)
        } else if *s == *"total_hours_10" {
            Some(AchievementType::TotalHours10)
        } else if *s == *"total_hours_50" {
            Some(AchievementType::TotalHours50)
        } else if *s == *"total_hours_100" {
            Some(AchievementType::TotalHours100)
        } else if *s == *"early_bird" {
            Some(AchievementType::EarlyBird)
        } else if *s == *"night_owl" {
            Some(AchievementType::NightOwl)
        } else if *s == *"task_master" {
            Some(AchievementType::TaskMaster)
        } else {
            None
        }
    }

    /// Reads a stored token, taking an unknown one for `FirstSession`.
    pub fn from_stored(s: &str) -> (r: AchievementType)
        ensures
            r == Self::parse_or_default(s@),
    {
        match Self::from_str(s) {
            Some(kind) => kind,
            None => AchievementType::FirstSession,
        }
    }

    pub fn display_name(&self) -> (text: &'static str)
        ensures
            text@ == self.name_text(),
    {
        match self {
            AchievementType::FirstSession => "First Focus",
            AchievementType::HourMaster => "Hour Master",
            AchievementType::StreakWeek => "Week Warrior",
            AchievementType::StreakMonth => "Monthly Champion",
            AchievementType::TotalHours10 => "10 Hours Club",
            AchievementType::TotalHours50 => "50 Hours Legend",
            AchievementType::TotalHours100 => "Century Master",
            AchievementType::EarlyBird => "Early Bird",
            AchievementType::NightOwl => "Night Owl",
            AchievementType::TaskMaster => "Task Master",
        }
    }

    pub fn description(&self) -> (text: &'static str)
        ensures
            text@ == self.description_text(),
    {
        match self {
            AchievementType::FirstSession => "Complete your first focus session",
            AchievementType::HourMaster => "Complete a single session over 1 hour",
            AchievementType::StreakWeek => "Maintain a 7-day streak",
            AchievementType::StreakMonth => "Maintain a 30-day streak",
            AchievementType::TotalHours10 => "Accumulate 10 hours of focus time",
            AchievementType::TotalHours50 => "Accumulate 50 hours of focus time",
            AchievementType::TotalHours100 => "Accumulate 100 hours of focus time",
            AchievementType::EarlyBird => "Start a session before 6 AM",
            AchievementType::NightOwl => "Complete a session after 11 PM",
            AchievementType::TaskMaster => "Complete 50 tasks",
        }
    }

    /// The ten types, in the order of the catalog.
    pub fn all() -> (r: Vec<AchievementType>)
        ensures
            r@ == Self::catalog(),
    {
        let r = vec![
            AchievementType::FirstSession,
            AchievementType::HourMaster,
            AchievementType::StreakWeek,
            AchievementType::StreakMonth,
            AchievementType::TotalHours10,
            AchievementType::TotalHours50,
            AchievementType::TotalHours100,
            AchievementType::EarlyBird,
            AchievementType::NightOwl,
            AchievementType::TaskMaster,
        ];
        assert(r@ =~= Self::catalog());
        r
    }

    /// Every type is read back from its own token.
    pub proof fn lemma_token_round_trip(kind: AchievementType)
        ensures
            Self::parse(kind.token()) == Some(kind),
    {
        reveal_strlit("first_session");
        reveal_strlit("hour_master");
        reveal_strlit("streak_week");
        reveal_strlit("streak_month");
        reveal_strlit("total_hours_10");
        reveal_strlit("total_hours_50");
        reveal_strlit("total_hours_100");
        reveal_strlit("early_bird");
        reveal_strlit("night_owl");
        reveal_strlit("task_master");
        assert("first_session"@.len() == 13 && "first_session"@[0] == 'f');
        assert("hour_master"@.len() == 11 && "hour_master"@[0] == 'h');
        assert("streak_week"@.len() == 11 && "streak_week"@[0] == 's');
        assert("streak_month"@.len() == 12);
        assert("total_hours_10"@.len() == 14 && "total_hours_10"@[12] == '1');
        assert("total_hours_50"@.len() == 14 && "total_hours_50"@[12] == '5');
        assert("total_hours_100"@.len() == 15);
        assert("early_bird"@.len() == 10);
        assert("night_owl"@.len() == 9);
        assert("task_master"@.len() == 11 && "task_master"@[0] == 't');
    }

    /// A token is read as a type only if it is that type's token.
    pub proof fn lemma_parse_is_token(text: Seq<char>, kind: AchievementType)
        requires
            Self::parse(text) == Some(kind),
        ensures
            text == kind.token(),
    {
    }
}

/// The record that an achievement was unlocked for a user.
#[derive(Debug)]
pub struct Achievement {
    pub id: String,
    pub user_id: String,
    pub achievement_type: AchievementType,
    pub unlocked_at: String,
    pub metadata: Option<String>,
}

/// What an `Achievement` holds, as plain values.
pub struct AchievementView {
    pub id: Seq<char>,
    pub user_id: Seq<char>,
    pub achievement_type: AchievementType,
    pub unlocked_at: Seq<char>,
    pub metadata: Option<Seq<char>>,
}

impl DeepView for Achievement {
    type V = AchievementView;

    open spec fn deep_view(&self) -> AchievementView {
        AchievementView {
            id: self.id@,
            user_id: self.user_id@,
            achievement_type: self.achievement_type,
            unlocked_at: self.unlocked_at@,
            metadata: self.metadata.deep_view(),
        }
    }
}

impl Clone for Achievement {
    fn clone(&self) -> (r: Self)
        ensures
            r == *self,
    {
        Achievement {
            id: self.id.clone(),
            user_id: self.user_id.clone(),
            achievement_type: self.achievement_type,
            unlocked_at: self.unlocked_at.clone(),
            metadata: self.metadata.clone(),
        }
    }
}

impl Achievement {
    /// The record of an unlock that happens now: it carries no metadata.
    pub fn unlocked(id: String, user_id: String, kind: AchievementType, now: String) -> (r:
        Achievement)
        ensures
            r.deep_view() == (AchievementView {
                id: id@,
                user_id: user_id@,
                achievement_type: kind,
                unlocked_at: now@,
                metadata: None,
            }),
    {
        Achievement { id, user_id, achievement_type: kind, unlocked_at: now, metadata: None }
    }
}

/// One line of the overview: a type, its texts and whether and when the user unlocked it.
#[derive(Debug)]
pub struct AchievementInfo {
    pub achievement_type: AchievementType,
    pub name: String,
    pub description: String,
    pub unlocked: bool,
    pub unlocked_at: Option<String>,
}

/// What an `AchievementInfo` holds, as plain values.
pub struct AchievementInfoView {
    pub achievement_type: AchievementType,
    pub name: Seq<char>,
    pub description: Seq<char>,
    pub unlocked: bool,
    pub unlocked_at: Option<Seq<char>>,
}

impl DeepView for AchievementInfo {
    type V = AchievementInfoView;

    open spec fn deep_view(&self) -> AchievementInfoView {
        AchievementInfoView {
            achievement_type: self.achievement_type,
            name: self.name@,
            description: self.description@,
            unlocked: self.unlocked,
            unlocked_at: self.unlocked_at.deep_view(),
        }
    }
}

impl Clone for AchievementInfo {
    fn clone(&self) -> (r: Self)
        ensures
            r == *self,
    {
        AchievementInfo {
            achievement_type: self.achievement_type,
            name: self.name.clone(),
            description: self.description.clone(),
            unlocked: self.unlocked,
            unlocked_at: self.unlocked_at.clone(),
        }
    }
}

/// The unlock time that stored rows give for a token. A row is a token and an unlock time;
/// where several rows carry the token, the last one counts.
pub open spec fn unlock_time(rows: Seq<(Seq<char>, Seq<char>)>, token: Seq<char>) -> Option<
    Seq<char>,
>
    decreases rows.len(),
{
    if rows.len() == 0 {
        None
    } else if rows.last().0 == token {
        Some(rows.last().1)
    } else {
        unlock_time(rows.drop_last(), token)
    }
}

/// The overview line of one type, given the stored rows.
pub open spec fn info_of(kind: AchievementType, rows: Seq<(Seq<char>, Seq<char>)>) -> AchievementInfoView {
    AchievementInfoView {
        achievement_type: kind,
        name: kind.name_text(),
        description: kind.description_text(),
        unlocked: unlock_time(rows, kind.token()) is Some,
        unlocked_at: unlock_time(rows, kind.token()),
    }
}

/// The overview: one line for each type of the catalog, in catalog order.
pub open spec fn overview_of(rows: Seq<(Seq<char>, Seq<char>)>) -> Seq<AchievementInfoView> {
    Seq::new(10, |i: int| info_of(AchievementType::catalog()[i], rows))
}

/// Looks up the unlock time that the rows give for a token.
pub fn find_unlock_time(rows: &Vec<(String, String)>, token: &str) -> (r: Option<String>)
    ensures
        r.deep_view() == unlock_time(rows.deep_view(), token@),
{
    let mut i: usize = rows.len();
    assert(rows.deep_view().take(i as int) =~= rows.deep_view());
    while i > 0
        invariant
            i <= rows.len(),
            unlock_time(rows.deep_view(), token@) == unlock_time(
                rows.deep_view().take(i as int),
                token@,
            ),
        decreases i,
    {
        let ghost prefix = rows.deep_view().take(i as int);
        assert(prefix.last() == rows.deep_view()[i - 1]);
        assert(prefix.drop_last() =~= rows.deep_view().take(i - 1));
        i = i - 1;
        if *rows[i].0.as_str() == *token {
            return Some(rows[i].1.clone());
        }
    }
    assert(rows.deep_view().take(0).len() == 0);
    None
}

/// The overview of all ten types for a user, from the stored rows of the user's unlocks
/// (token and unlock time).
pub fn achievement_overview(rows: &Vec<(String, String)>) -> (r: Vec<AchievementInfo>)
    ensures
        r.deep_view() == overview_of(rows.deep_view()),
{
    let kinds = AchievementType::all();
    let mut out: Vec<AchievementInfo> = Vec::new();
    let mut i: usize = 0;
    while i < kinds.len()
        invariant
            i <= kinds.len(),
            kinds@ == AchievementType::catalog(),
            out.len() == i,
            forall|j: int|
                0 <= j < i ==> #[trigger] out[j].deep_view() == info_of(
                    AchievementType::catalog()[j],
                    rows.deep_view(),
                ),
        decreases kinds.len() - i,
    {
        let kind = kinds[i];
        let unlocked_at = find_unlock_time(rows, kind.as_str());
        let info = AchievementInfo {
            achievement_type: kind,
            name: String::from_str(kind.display_name()),
            description: String::from_str(kind.description()),
            unlocked: unlocked_at.is_some(),
            unlocked_at,
        };
        out.push(info);
        i = i + 1;
    }
    assert(out.deep_view() =~= overview_of(rows.deep_view()));
    out
}

impl Achievement {
    /// The unlock record that a stored row holds. A row holds the type as a token, where an
    /// unknown token counts as `FirstSession`.
    pub fn from_row(
        id: String,
        user_id: String,
        kind: &str,
        unlocked_at: String,
        metadata: Option<String>,
    ) -> (r: Achievement)
        ensures
            r.deep_view() == (AchievementView {
                id: id@,
                user_id: user_id@,
                achievement_type: AchievementType::parse_or_default(kind@),
                unlocked_at: unlocked_at@,
                metadata: metadata.deep_view(),
            }),
    {
        Achievement {
            id,
            user_id,
            achievement_type: AchievementType::from_stored(kind),
            unlocked_at,
            metadata,
        }
    }
}

} // verus!
