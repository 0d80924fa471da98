//! Magic: The Gathering Arena as a module: its achievements, goals and
//! exclusions, kept in step with the player log.

use vstd::prelude::*;
use crate::mtga_db::{
    achieved_flag, achievement_of, all_readable, readable, row_after_write, save_achievement,
    status_of_row, Achievement, AchievementShim, AchievementWrite, Status, TargetWrite,
};
use crate::mtga_db;
use crate::mtga_log;

verus! {

/// The name of the game.
pub const GAME_NAME: &'static str = "Magic the Gathering Arena";

/// The id of the game.
pub const ID: i32 = 0;

/// An Arena achievement and whether it is unlocked.
#[derive(Debug, PartialEq, Eq, PartialOrd, Ord)]
pub struct MTGAAchievement {
    pub name: String,
    pub achieved: bool,
}

impl Clone for MTGAAchievement {
    fn clone(&self) -> (r: Self)
        ensures
            r == *self,
    {
        MTGAAchievement { name: self.name.clone(), achieved: self.achieved }
    }
}

/// The module's view of a stored achievement: unlocked exactly when its
/// state is `Achieved`.
pub open spec fn mtga_of(a: Achievement) -> MTGAAchievement {
    MTGAAchievement { name: a.name, achieved: a.status == Status::Achieved }
}

fn from_db_format(a: &Achievement) -> (r: MTGAAchievement)
    ensures
        r == mtga_of(*a),
{
    MTGAAchievement { name: a.name.clone(), achieved: a.status == Status::Achieved }
}

fn from_db_list(v: &Vec<Achievement>) -> (r: Vec<MTGAAchievement>)
    ensures
        r@ == v@.map_values(|a: Achievement| mtga_of(a)),
{
    let mut r: Vec<MTGAAchievement> = Vec::new();
    for i in 0..v.len()
        invariant
            r@ == v@.take(i as int).map_values(|a: Achievement| mtga_of(a)),
    {
        r.push(from_db_format(&v[i]));
        proof {
            assert(v@.take(i + 1).map_values(|a: Achievement| mtga_of(a)) =~= v@.take(i as int).map_values(
                |a: Achievement| mtga_of(a),
            ).push(mtga_of(v@[i as int])));
        }
    }
    proof {
        assert(v@.take(v@.len() as int) == v@);
    }
    r
}

/// The writes that bring the achievement table in step with the player
/// log: one per achievement read, in order, storing its unlocked flag.
pub fn sync_achievements(achievements: &Vec<mtga_log::Achievement>) -> (r: Vec<AchievementWrite>)
    ensures
        r@.len() == achievements@.len(),
        forall|i: int| 0 <= i < r@.len() ==> (#[trigger] r@[i]).name@ == achievements@[i].name@
            && r@[i].achieved == achieved_flag(achievements@[i].achieved),
{
    let mut r: Vec<AchievementWrite> = Vec::new();
    for i in 0..achievements.len()
        invariant
            r@.len() == i,
            forall|j: int| 0 <= j < i ==> (#[trigger] r@[j]).name@ == achievements@[j].name@
                && r@[j].achieved == achieved_flag(achievements@[j].achieved),
    {
        let a = &achievements[i];
        r.push(save_achievement(a.name.as_str(), a.achieved));
    }
    r
}

/// All Arena achievements, from the rows of the table, in order.
pub fn get_achievements(rows: Vec<AchievementShim>) -> (r: Vec<MTGAAchievement>)
    requires
        all_readable(rows@),
    ensures
        r@ == rows@.map_values(|s: AchievementShim| mtga_of(achievement_of(s))),
{
    let ghost all = rows@;
    let stored = mtga_db::get_achievements(rows);
    let r = from_db_list(&stored);
    proof {
        assert(r@ =~= all.map_values(|s: AchievementShim| mtga_of(achievement_of(s))));
    }
    r
}

/// The Arena achievements set as goals, from the rows of the table.
pub fn get_goals(rows: Vec<AchievementShim>) -> (r: Vec<MTGAAchievement>)
    ensures
        r@ == rows@.filter(|s: AchievementShim| s.target == Some(1i8)).map_values(
            |s: AchievementShim| mtga_of(achievement_of(s)),
        ),
{
    let ghost all = rows@;
    let stored = mtga_db::get_goals(rows);
    let r = from_db_list(&stored);
    proof {
        assert(r@ =~= all.filter(|s: AchievementShim| s.target == Some(1i8)).map_values(
            |s: AchievementShim| mtga_of(achievement_of(s)),
        ));
    }
    r
}

/// Sets an Arena achievement as a goal.
pub fn save_goal(name: String) -> (r: TargetWrite)
    ensures
        r.name@ == name@,
        r.target == 1,
{
    mtga_db::save_goal(name.as_str())
}

/// The Arena achievements excluded from goals, from the rows of the table.
pub fn get_excluded_achievements(rows: Vec<AchievementShim>) -> (r: Vec<MTGAAchievement>)
    ensures
        r@ == rows@.filter(|s: AchievementShim| s.target == Some(-1i8)).map_values(
            |s: AchievementShim| mtga_of(achievement_of(s)),
        ),
{
    let ghost all = rows@;
    let stored = mtga_db::get_excluded(rows);
    let r = from_db_list(&stored);
    proof {
        assert(r@ =~= all.filter(|s: AchievementShim| s.target == Some(-1i8)).map_values(
            |s: AchievementShim| mtga_of(achievement_of(s)),
        ));
    }
    r
}

/// Law: what synchronising writes reads back. The row that an achievement's
/// write leaves, whether or not the table held a row of that name (with no
/// target, or a target of 1 or -1), is readable and reads as that achievement with the unlocked state read
/// from the log.
pub proof fn lemma_sync_round_trip(
    a: mtga_log::Achievement,
    w: AchievementWrite,
    existing: Option<AchievementShim>,
)
    requires
        w.name@ == a.name@,
        w.achieved == achieved_flag(a.achieved),
        existing matches Some(s) ==> (s.target is None || s.target == Some(1i8) || s.target == Some(-1i8)),
    ensures
        readable(row_after_write(existing, w)),
        mtga_of(achievement_of(row_after_write(existing, w))).name@ == a.name@,
        mtga_of(achievement_of(row_after_write(existing, w))).achieved == a.achieved,
{
}

} // verus!
