//! The achievement rules: which types a user's figures earn, and which of those are new.

use crate::achievement::AchievementType;
use vstd::prelude::*;

verus! {

/// The figures of one user that the rules look at. Times are in seconds, the streak in days.
#[derive(Debug, Clone, Copy, PartialEq, Eq, Structural)]
pub struct StatsSnapshot {
    pub total_focus_seconds: i64,
    pub total_sessions: i64,
    pub max_session_seconds: i64,
    pub current_streak: i64,
    pub tasks_completed: i64,
}

/// Whether the figures meet the condition of a type. `EarlyBird` and `NightOwl` have no
/// condition: no figures earn them.
pub open spec fn rule_holds(kind: AchievementType, stats: StatsSnapshot) -> bool {
    match kind {
        AchievementType::FirstSession => stats.total_sessions >= 1,
        AchievementType::HourMaster => stats.max_session_seconds >= 3600,
        AchievementType::StreakWeek => stats.current_streak >= 7,
        AchievementType::StreakMonth => stats.current_streak >= 30,
        AchievementType::TotalHours10 => stats.total_focus_seconds >= 36000,
        AchievementType::TotalHours50 => stats.total_focus_seconds >= 180000,
        AchievementType::TotalHours100 => stats.total_focus_seconds >= 360000,
        AchievementType::TaskMaster => stats.tasks_completed >= 50,
        AchievementType::EarlyBird => false,
        AchievementType::NightOwl => false,
    }
}

/// The types that have a rule, in the order in which the rules are evaluated.
pub open spec fn rule_table() -> Seq<AchievementType> {
    seq![
        AchievementType::FirstSession,
        AchievementType::HourMaster,
        AchievementType::StreakWeek,
        AchievementType::StreakMonth,
        AchievementType::TotalHours10,
        AchievementType::TotalHours50,
        AchievementType::TotalHours100,
        AchievementType::TaskMaster,
    ]
}

/// Those of `kinds`, in their order, whose rule holds and which are not unlocked yet.
pub open spec fn pending(
    kinds: Seq<AchievementType>,
    stats: StatsSnapshot,
    unlocked: Seq<AchievementType>,
) -> Seq<AchievementType>
    decreases kinds.len(),
{
    if kinds.len() == 0 {
        Seq::empty()
    } else {
        let rest = pending(kinds.drop_last(), stats, unlocked);
        if rule_holds(kinds.last(), stats) && !unlocked.contains(kinds.last()) {
            rest.push(kinds.last())
        } else {
            rest
        }
    }
}

/// The types that an evaluation unlocks: those of the rule table whose rule holds and which
/// the user has not unlocked yet.
pub open spec fn newly_earned_of(stats: StatsSnapshot, unlocked: Seq<AchievementType>) -> Seq<
    AchievementType,
> {
    pending(rule_table(), stats, unlocked)
}

/// Tells whether the figures meet the condition of a type.
pub fn rule_is_met(kind: AchievementType, stats: &StatsSnapshot) -> (r: bool)
    ensures
        r == rule_holds(kind, *stats),
{
    match kind {
        AchievementType::FirstSession => stats.total_sessions >= 1,
        AchievementType::HourMaster => stats.max_session_seconds >= 3600,
        AchievementType::StreakWeek => stats.current_streak >= 7,
        AchievementType::StreakMonth => stats.current_streak >= 30,
        AchievementType::TotalHours10 => stats.total_focus_seconds >= 36000,
        AchievementType::TotalHours50 => stats.total_focus_seconds >= 180000,
        AchievementType::TotalHours100 => stats.total_focus_seconds >= 360000,
        AchievementType::TaskMaster => stats.tasks_completed >= 50,
        AchievementType::EarlyBird => false,
        AchievementType::NightOwl => false,
    }
}

/// The types that have a rule, in the order in which the rules are evaluated.
pub fn ruled_types() -> (r: Vec<AchievementType>)
    ensures
        r@ == rule_table(),
{
    let r = vec![
        AchievementType::FirstSession,
        AchievementType::HourMaster,
        AchievementType::StreakWeek,
        AchievementType::StreakMonth,
        AchievementType::TotalHours10,
        AchievementType::TotalHours50,
        AchievementType::TotalHours100,
        AchievementType::TaskMaster,
    ];
    assert(r@ =~= rule_table());
    r
}

/// Tells whether a type is among the unlocked ones.
pub fn is_unlocked(unlocked: &Vec<AchievementType>, kind: AchievementType) -> (r: bool)
    ensures
        r == unlocked@.contains(kind),
{
    let mut i: usize = 0;
    while i < unlocked.len()
        invariant
            i <= unlocked.len(),
            forall|j: int| 0 <= j < i ==> unlocked@[j] != kind,
        decreases unlocked.len() - i,
    {
        if unlocked[i] == kind {
            return true;
        }
        i = i + 1;
    }
    false
}

/// Evaluates the rule table against a user's figures and hands back the types to unlock:
/// those whose rule holds and which the user has not unlocked yet, in table order.
pub fn newly_earned(stats: &StatsSnapshot, unlocked: &Vec<AchievementType>) -> (r: Vec<
    AchievementType,
>)
    ensures
        r@ == newly_earned_of(*stats, unlocked@),
{
    let kinds = ruled_types();
    let mut out: Vec<AchievementType> = Vec::new();
    let mut i: usize = 0;
    while i < kinds.len()
        invariant
            i <= kinds.len(),
            kinds@ == rule_table(),
            out@ == pending(kinds@.take(i as int), *stats, unlocked@),
        decreases kinds.len() - i,
    {
        let kind = kinds[i];
        proof {
            let next = kinds@.take(i + 1);
            assert(next.last() == kind);
            assert(next.drop_last() =~= kinds@.take(i as int));
        }
        if rule_is_met(kind, stats) && !is_unlocked(unlocked, kind) {
            out.push(kind);
        }
        i = i + 1;
    }
    assert(kinds@.take(i as int) =~= kinds@);
    out
}

/// A type is pending exactly if it is one of `kinds`, its rule holds and it is not unlocked.
pub proof fn lemma_pending_members(
    kinds: Seq<AchievementType>,
    stats: StatsSnapshot,
    unlocked: Seq<AchievementType>,
    kind: AchievementType,
)
    ensures
        pending(kinds, stats, unlocked).contains(kind) <==> (kinds.contains(kind) && rule_holds(
            kind,
            stats,
        ) && !unlocked.contains(kind)),
    decreases kinds.len(),
{
    if kinds.len() > 0 {
        let rest = pending(kinds.drop_last(), stats, unlocked);
        lemma_pending_members(kinds.drop_last(), stats, unlocked, kind);
        let all = pending(kinds, stats, unlocked);
        if kinds.contains(kind) {
            let i = choose|i: int| 0 <= i < kinds.len() && kinds[i] == kind;
            if i < kinds.len() - 1 {
                assert(kinds.drop_last()[i] == kind);
            }
        }
        if kinds.drop_last().contains(kind) {
            let i = choose|i: int| 0 <= i < kinds.drop_last().len() && kinds.drop_last()[i] == kind;
            assert(kinds[i] == kind);
        }
        if rule_holds(kinds.last(), stats) && !unlocked.contains(kinds.last()) {
            assert(all == rest.push(kinds.last()));
            assert(all[rest.len() as int] == kinds.last());
            if rest.contains(kind) {
                let i = choose|i: int| 0 <= i < rest.len() && rest[i] == kind;
                assert(all[i] == kind);
            }
            if all.contains(kind) {
                let i = choose|i: int| 0 <= i < all.len() && all[i] == kind;
                if i < rest.len() {
                    assert(rest[i] == kind);
                }
            }
        }
    }
}

/// Nothing is pending where every type whose rule holds is unlocked.
pub proof fn lemma_pending_none(
    kinds: Seq<AchievementType>,
    stats: StatsSnapshot,
    unlocked: Seq<AchievementType>,
)
    requires
        forall|i: int|
            0 <= i < kinds.len() && rule_holds(#[trigger] kinds[i], stats) ==> unlocked.contains(
                kinds[i],
            ),
    ensures
        pending(kinds, stats, unlocked) == Seq::<AchievementType>::empty(),
    decreases kinds.len(),
{
    if kinds.len() > 0 {
        assert forall|i: int|
            0 <= i < kinds.drop_last().len() && rule_holds(
                #[trigger] kinds.drop_last()[i],
                stats,
            ) implies unlocked.contains(kinds.drop_last()[i]) by {
            assert(kinds.drop_last()[i] == kinds[i]);
        }
        lemma_pending_members(kinds.drop_last(), stats, unlocked, kinds.last());
        lemma_pending_none(kinds.drop_last(), stats, unlocked);
        assert(kinds.last() == kinds[kinds.len() - 1]);
    }
}

/// Evaluation is idempotent: once the types that an evaluation hands back are unlocked, a
/// second evaluation against the same figures hands back nothing.
pub proof fn lemma_evaluation_idempotent(stats: StatsSnapshot, unlocked: Seq<AchievementType>)
    ensures
        newly_earned_of(stats, unlocked + newly_earned_of(stats, unlocked)) == Seq::<
            AchievementType,
        >::empty(),
{
    let first = newly_earned_of(stats, unlocked);
    let after = unlocked + first;
    assert forall|i: int|
        0 <= i < rule_table().len() && rule_holds(
            #[trigger] rule_table()[i],
            stats,
        ) implies after.contains(rule_table()[i]) by {
        let kind = rule_table()[i];
        lemma_pending_members(rule_table(), stats, unlocked, kind);
        if unlocked.contains(kind) {
            let j = choose|j: int| 0 <= j < unlocked.len() && unlocked[j] == kind;
            assert(after[j] == kind);
        } else {
            assert(rule_table().contains(kind));
            assert(first.contains(kind));
            let j = choose|j: int| 0 <= j < first.len() && first[j] == kind;
            assert(after[unlocked.len() + j] == kind);
        }
    }
    lemma_pending_none(rule_table(), stats, after);
}

/// An evaluation never hands back a type that is already unlocked, nor one without a rule.
pub proof fn lemma_newly_earned_are_new(
    stats: StatsSnapshot,
    unlocked: Seq<AchievementType>,
    kind: AchievementType,
)
    requires
        newly_earned_of(stats, unlocked).contains(kind),
    ensures
        !unlocked.contains(kind),
        rule_holds(kind, stats),
        kind != AchievementType::EarlyBird,
        kind != AchievementType::NightOwl,
{
    lemma_pending_members(rule_table(), stats, unlocked, kind);
}

/// No type stands twice among the pending ones where none stands twice among `kinds`.
pub proof fn lemma_pending_distinct(
    kinds: Seq<AchievementType>,
    stats: StatsSnapshot,
    unlocked: Seq<AchievementType>,
)
    requires
        kinds.no_duplicates(),
    ensures
        pending(kinds, stats, unlocked).no_duplicates(),
    decreases kinds.len(),
{
    if kinds.len() > 0 {
        let rest = pending(kinds.drop_last(), stats, unlocked);
        lemma_pending_distinct(kinds.drop_last(), stats, unlocked);
        lemma_pending_members(kinds.drop_last(), stats, unlocked, kinds.last());
        if kinds.drop_last().contains(kinds.last()) {
            let i = choose|i: int| 0 <= i < kinds.len() - 1 && kinds.drop_last()[i] == kinds.last();
            assert(kinds[i] == kinds[kinds.len() - 1]);
        }
    }
}

/// An evaluation hands back no type twice.
pub proof fn lemma_newly_earned_distinct(stats: StatsSnapshot, unlocked: Seq<AchievementType>)
    ensures
        newly_earned_of(stats, unlocked).no_duplicates(),
{
    lemma_pending_distinct(rule_table(), stats, unlocked);
}

} // verus!
