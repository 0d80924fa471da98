//! The Magic: The Gathering Arena achievement table: how its rows are read
//! as achievements and what saving writes.

use vstd::prelude::*;

verus! {

/// The state of an Arena achievement.
#[derive(Clone, Copy, Debug, PartialEq, Eq, Structural)]
pub enum Status {
    Achieved,
    Unachieved,
    Target,
    Excluded,
}

/// An Arena achievement with its state.
#[derive(Debug)]
pub struct Achievement {
    pub name: String,
    pub status: Status,
}

/// A row of the Arena achievement table: `achieved` is 1 for an unlocked
/// achievement, `target` is 1 for a goal, -1 for an exclusion, and absent
/// otherwise.
#[derive(Debug)]
pub struct AchievementShim {
    pub name: String,
    pub achieved: u8,
    pub target: Option<i8>,
}

/// A row can be read: it is unlocked, or its target is absent, 1 or -1.
pub open spec fn readable(s: AchievementShim) -> bool {
    s.achieved == 1 || s.target is None || s.target == Some(1i8) || s.target == Some(-1i8)
}

/// The state a readable row stands for: unlocked wins over the target; a
/// target of 1 is a goal, -1 an exclusion, and no target a locked
/// achievement.
pub open spec fn status_of_row(achieved: u8, target: Option<i8>) -> Status {
    if achieved == 1 {
        Status::Achieved
    } else {
        match target {
            Some(t) => if t == 1i8 {
                Status::Target
            } else {
                Status::Excluded
            },
            None => Status::Unachieved,
        }
    }
}

impl AchievementShim {
    /// Reads a row as an achievement.
    pub fn to_pub(self) -> (r: Achievement)
        requires
            readable(self),
        ensures
            r.name == self.name,
            r.status == status_of_row(self.achieved, self.target),
    {
        let status = if self.achieved == 1 {
            Status::Achieved
        } else if let Some(tar) = self.target {
            if tar == 1 {
                Status::Target
            } else {
                Status::Excluded
            }
        } else {
            Status::Unachieved
        };
        Achievement { name: self.name, status }
    }
}

/// Every row can be read.
pub open spec fn all_readable(rows: Seq<AchievementShim>) -> bool {
    forall|i: int| 0 <= i < rows.len() ==> readable(#[trigger] rows[i])
}

/// The achievement a row stands for.
pub open spec fn achievement_of(s: AchievementShim) -> Achievement {
    Achievement { name: s.name, status: status_of_row(s.achieved, s.target) }
}

/// All achievements of the table, in the order of its rows.
pub fn get_achievements(rows: Vec<AchievementShim>) -> (r: Vec<Achievement>)
    requires
        all_readable(rows@),
    ensures
        r@ == rows@.map_values(|s: AchievementShim| achievement_of(s)),
{
    let ghost all = rows@;
    let mut rows = rows;
    let mut r: Vec<Achievement> = Vec::new();
    let mut taken: usize = 0;
    let n = rows.len();
    assert(all.len() == n);
    while rows.len() > 0
        invariant
            taken + rows@.len() == all.len(),
            all.len() <= usize::MAX,
            rows@ == all.skip(taken as int),
            all_readable(all),
            r@ == all.take(taken as int).map_values(|s: AchievementShim| achievement_of(s)),
        decreases rows@.len(),
    {
        let row = rows.remove(0);
        proof {
            assert(row == all[taken as int]);
            assert(all.take(taken + 1) == all.take(taken as int).push(all[taken as int]));
            assert(rows@ =~= all.skip(taken + 1));
        }
        r.push(row.to_pub());
        proof {
            assert(all.take(taken + 1).map_values(|s: AchievementShim| achievement_of(s)) =~= all.take(
                taken as int,
            ).map_values(|s: AchievementShim| achievement_of(s)).push(achievement_of(all[taken as int])));
        }
        taken += 1;
    }
    proof {
        assert(all.take(all.len() as int) == all);
    }
    r
}

/// Which targeted achievements to select.
#[derive(Clone, Copy, Debug, PartialEq, Eq)]
pub enum TargetFilter {
    Goal,
    Excluded,
}

/// The stored target value of a kind of targeted achievement.
pub open spec fn target_value_of(filter: TargetFilter) -> i8 {
    match filter {
        TargetFilter::Excluded => -1i8,
        TargetFilter::Goal => 1i8,
    }
}

/// The stored target value of a kind of targeted achievement: 1 for goals,
/// -1 for exclusions.
pub fn target_value(filter: TargetFilter) -> (r: i8)
    ensures
        r == target_value_of(filter),
{
    match filter {
        TargetFilter::Excluded => -1,
        TargetFilter::Goal => 1,
    }
}

/// The rows whose target is that of the selected kind, read as
/// achievements, in the order of the rows.
pub fn filter_by_target(rows: Vec<AchievementShim>, filter: TargetFilter) -> (r: Vec<Achievement>)
    ensures
        r@ == rows@.filter(|s: AchievementShim| s.target == Some(target_value_of(filter))).map_values(
            |s: AchievementShim| achievement_of(s),
        ),
{
    let ghost all = rows@;
    let ghost keep = |s: AchievementShim| s.target == Some(target_value_of(filter));
    let ghost read = |s: AchievementShim| achievement_of(s);
    let target = target_value(filter);
    let mut rows = rows;
    let mut r: Vec<Achievement> = Vec::new();
    let mut taken: usize = 0;
    let n = rows.len();
    assert(all.len() == n);
    while rows.len() > 0
        invariant
            taken + rows@.len() == all.len(),
            all.len() <= usize::MAX,
            rows@ == all.skip(taken as int),
            target == target_value_of(filter),
            keep == (|s: AchievementShim| s.target == Some(target_value_of(filter))),
            read == (|s: AchievementShim| achievement_of(s)),
            r@ == all.take(taken as int).filter(keep).map_values(read),
        decreases rows@.len(),
    {
        let row = rows.remove(0);
        proof {
            assert(row == all[taken as int]);
            assert(all.take(taken + 1).drop_last() == all.take(taken as int));
            assert(rows@ =~= all.skip(taken + 1));
            reveal(Seq::filter);
        }
        if row.target == Some(target) {
            r.push(row.to_pub());
            proof {
                assert(all.take(taken + 1).filter(keep).map_values(read) =~= all.take(taken as int).filter(
                    keep,
                ).map_values(read).push(achievement_of(all[taken as int])));
            }
        }
        taken += 1;
    }
    proof {
        assert(all.take(all.len() as int) == all);
    }
    r
}

/// The achievements set as goals.
pub fn get_goals(rows: Vec<AchievementShim>) -> (r: Vec<Achievement>)
    ensures
        r@ == rows@.filter(|s: AchievementShim| s.target == Some(1i8)).map_values(
            |s: AchievementShim| achievement_of(s),
        ),
{
    let r = filter_by_target(rows, TargetFilter::Goal);
    proof {
        assert((|s: AchievementShim| s.target == Some(target_value_of(TargetFilter::Goal))) == (|s: AchievementShim| s.target == Some(1i8)));
    }
    r
}

/// The achievements excluded from goals.
pub fn get_excluded(rows: Vec<AchievementShim>) -> (r: Vec<Achievement>)
    ensures
        r@ == rows@.filter(|s: AchievementShim| s.target == Some(-1i8)).map_values(
            |s: AchievementShim| achievement_of(s),
        ),
{
    let r = filter_by_target(rows, TargetFilter::Excluded);
    proof {
        assert((|s: AchievementShim| s.target == Some(target_value_of(TargetFilter::Excluded))) == (|s: AchievementShim| s.target == Some(-1i8)));
    }
    r
}

/// The stored flag of an unlocked achievement.
pub open spec fn achieved_flag(achieved: bool) -> u8 {
    if achieved {
        1
    } else {
        0
    }
}

/// What saving an achievement writes: its name and the unlocked flag, 1 or
/// 0; an existing row of that name keeps its target and takes the new flag.
#[derive(Debug)]
pub struct AchievementWrite {
    pub name: String,
    pub achieved: u8,
}

/// What saving an achievement writes.
pub fn save_achievement(name: &str, achieved: bool) -> (r: AchievementWrite)
    ensures
        r.name@ == name@,
        r.achieved == achieved_flag(achieved),
{
    let achieved_int: u8 = if achieved {
        1
    } else {
        0
    };
    AchievementWrite { name: String::from_str(name), achieved: achieved_int }
}

/// What marking an achievement writes: the target value for the row of
/// that name.
#[derive(Debug)]
pub struct TargetWrite {
    pub name: String,
    pub target: i8,
}

/// Marks an achievement as a goal.
pub fn save_goal(name: &str) -> (r: TargetWrite)
    ensures
        r.name@ == name@,
        r.target == target_value_of(TargetFilter::Goal),
{
    TargetWrite { name: String::from_str(name), target: target_value(TargetFilter::Goal) }
}

/// Marks an achievement as excluded.
pub fn save_excluded(name: &str) -> (r: TargetWrite)
    ensures
        r.name@ == name@,
        r.target == target_value_of(TargetFilter::Excluded),
{
    TargetWrite { name: String::from_str(name), target: target_value(TargetFilter::Excluded) }
}

/// The table a write leaves: the row of that name takes the new flag and
/// keeps its target; without such a row, a new row with no target is added.
pub open spec fn row_after_write(existing: Option<AchievementShim>, w: AchievementWrite) -> AchievementShim {
    match existing {
        Some(s) => AchievementShim { name: w.name, achieved: w.achieved, target: s.target },
        None => AchievementShim { name: w.name, achieved: w.achieved, target: None },
    }
}

/// Law: a marked achievement reads back as what it was marked. A row
/// that a goal or exclusion write leaves, when it is not unlocked, reads
/// as a goal or as excluded.
pub proof fn lemma_target_write_reads_back(w: TargetWrite, filter: TargetFilter)
    requires
        w.target == target_value_of(filter),
    ensures
        status_of_row(0, Some(w.target)) == (match filter {
            TargetFilter::Goal => Status::Target,
            TargetFilter::Excluded => Status::Excluded,
        }),
{
}

} // verus!
