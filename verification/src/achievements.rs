//! Achievements and goals across modules: a game's achievements with the
//! player's progress, goals stored for later, and excluded achievements.

use vstd::prelude::*;
use crate::module::{GameIdentifier, Module};
use crate::steam_api::{clone_opt_string, GameAchievement as SchemaAchievement, PlayerAchievement};
use crate::steam_db::{AchievementRecord, ExcludedAchievementRecord};

verus! {

/// An achievement of a Steam game that the player has set as a goal;
/// `last_played` is the game's last played time, in seconds since the Unix
/// epoch, when the goal was last checked.
#[derive(Debug, PartialEq, Eq, PartialOrd, Ord)]
pub struct SteamAchievement {
    pub game_id: i32,
    pub display_name: String,
    pub achievement_name: String,
    pub description: Option<String>,
    pub last_played: i64,
}

/// A goal in one of the modules.
#[derive(Debug, PartialEq, Eq, PartialOrd, Ord)]
pub enum ModuleGoal {
    STEAM(SteamAchievement),
}

/// Generic interface for achievements in games.
#[derive(Debug)]
pub struct GameAchievement {
    pub id: String,
    pub display_name: String,
    pub description: Option<String>,
    pub achieved: bool,
    pub achieved_icon_id: Option<String>,
    pub unachieved_icon_id: Option<String>,
}

impl Clone for GameAchievement {
    fn clone(&self) -> (r: Self)
        ensures
            r == *self,
    {
        GameAchievement {
            id: self.id.clone(),
            display_name: self.display_name.clone(),
            description: clone_opt_string(&self.description),
            achieved: self.achieved,
            achieved_icon_id: clone_opt_string(&self.achieved_icon_id),
            unachieved_icon_id: clone_opt_string(&self.unachieved_icon_id),
        }
    }
}

/// The player has unlocked the achievement named `name`.
pub open spec fn unlocked(player: Seq<PlayerAchievement>, name: Seq<char>) -> bool {
    exists|i: int| 0 <= i < player.len() && #[trigger] player[i].name@ == name && player[i].achieved
}

/// Whether the player has unlocked the achievement named `name`.
pub fn is_unlocked(player: &Vec<PlayerAchievement>, name: &String) -> (r: bool)
    ensures
        r == unlocked(player@, name@),
{
    let mut i: usize = 0;
    while i < player.len()
        invariant
            i <= player@.len(),
            forall|j: int| 0 <= j < i ==> !(#[trigger] player@[j].name@ == name@ && player@[j].achieved),
        decreases player@.len() - i,
    {
        if player[i].achieved && player[i].name == *name {
            return true;
        }
        i += 1;
    }
    false
}

/// The achievement of a game's schema, with whether the player unlocked it.
pub open spec fn game_achievement_of(a: SchemaAchievement, player: Seq<PlayerAchievement>) -> GameAchievement {
    GameAchievement {
        id: a.name,
        display_name: a.display_name,
        description: a.description,
        achieved: unlocked(player, a.name@),
        achieved_icon_id: Some(a.icon),
        unachieved_icon_id: Some(a.icongray),
    }
}

/// The achievements of a game in the order of its schema, each marked
/// achieved when the player has unlocked it.
pub fn get_game_achievements(player: &Vec<PlayerAchievement>, schema: &Vec<SchemaAchievement>) -> (r: Vec<GameAchievement>)
    ensures
        r@.len() == schema@.len(),
        forall|i: int| 0 <= i < schema@.len() ==> #[trigger] r@[i] == game_achievement_of(schema@[i], player@),
{
    let mut r: Vec<GameAchievement> = Vec::new();
    for i in 0..schema.len()
        invariant
            r@.len() == i,
            forall|j: int| 0 <= j < i ==> #[trigger] r@[j] == game_achievement_of(schema@[j], player@),
    {
        let g = &schema[i];
        let achieved = is_unlocked(player, &g.name);
        r.push(GameAchievement {
            id: g.name.clone(),
            display_name: g.display_name.clone(),
            description: clone_opt_string(&g.description),
            achieved,
            achieved_icon_id: Some(g.icon.clone()),
            unachieved_icon_id: Some(g.icongray.clone()),
        });
    }
    r
}

/// A goal as the achievement table stores it.
#[derive(Debug)]
pub struct AchievementGoalRow {
    pub achievement_name: String,
    pub display_name: String,
    pub description: Option<String>,
    pub app_id: i32,
    pub last_played: i64,
}

/// The row that stores a goal.
pub open spec fn goal_row(achievement: ModuleGoal) -> AchievementGoalRow {
    match achievement {
        ModuleGoal::STEAM(a) => AchievementGoalRow {
            achievement_name: a.achievement_name,
            display_name: a.display_name,
            description: a.description,
            app_id: a.game_id,
            last_played: a.last_played,
        },
    }
}

/// The record the goal table holds for a stored goal row, under the id the
/// table gives it.
pub open spec fn stored_goal(row: AchievementGoalRow, id: i64) -> AchievementRecord {
    AchievementRecord {
        id,
        achievement_name: row.achievement_name,
        display_name: row.display_name,
        description: row.description,
        app_id: row.app_id,
        last_played: row.last_played,
    }
}

/// The row that saving a goal stores.
pub fn save_achievement_goal(achievement: ModuleGoal) -> (r: AchievementGoalRow)
    ensures
        r == goal_row(achievement),
{
    match achievement {
        ModuleGoal::STEAM(a) => AchievementGoalRow {
            achievement_name: a.achievement_name,
            display_name: a.display_name,
            description: a.description,
            app_id: a.game_id,
            last_played: a.last_played,
        },
    }
}

/// The goal that a stored goal row holds.
pub open spec fn goal_of(row: AchievementRecord) -> ModuleGoal {
    ModuleGoal::STEAM(
        SteamAchievement {
            achievement_name: row.achievement_name,
            display_name: row.display_name,
            description: row.description,
            game_id: row.app_id,
            last_played: row.last_played,
        },
    )
}

fn goal_from_row(row: &AchievementRecord) -> (r: ModuleGoal)
    ensures
        r == goal_of(*row),
{
    ModuleGoal::STEAM(
        SteamAchievement {
            achievement_name: row.achievement_name.clone(),
            display_name: row.display_name.clone(),
            description: clone_opt_string(&row.description),
            game_id: row.app_id,
            last_played: row.last_played,
        },
    )
}

/// The goals of a module, from the stored goal rows, in their order.
pub fn get_goals(module: &Module, rows: &Vec<AchievementRecord>) -> (r: Vec<ModuleGoal>)
    ensures
        r@ == rows@.map_values(|row: AchievementRecord| goal_of(row)),
{
    let mut r: Vec<ModuleGoal> = Vec::new();
    match module {
        Module::STEAM(_) => {
            for i in 0..rows.len()
                invariant
                    r@ == rows@.take(i as int).map_values(|row: AchievementRecord| goal_of(row)),
            {
                r.push(goal_from_row(&rows[i]));
                proof {
                    assert(rows@.take(i + 1).map_values(|row: AchievementRecord| goal_of(row)) =~= rows@.take(
                        i as int,
                    ).map_values(|row: AchievementRecord| goal_of(row)).push(goal_of(rows@[i as int])));
                }
            }
        },
    }
    proof {
        assert(rows@.take(rows@.len() as int) == rows@);
    }
    r
}

/// The goals of one game, from the stored goal rows, in their order.
pub fn get_game_goals(game_identifier: &GameIdentifier, rows: &Vec<AchievementRecord>) -> (r: Vec<ModuleGoal>)
    ensures
        r@ == rows@.filter(|row: AchievementRecord| row.app_id == game_identifier.id).map_values(
            |row: AchievementRecord| goal_of(row),
        ),
{
    let ghost keep = |row: AchievementRecord| row.app_id == game_identifier.id;
    let ghost to_goal = |row: AchievementRecord| goal_of(row);
    let mut r: Vec<ModuleGoal> = Vec::new();
    match game_identifier.module {
        Module::STEAM(_) => {
            for i in 0..rows.len()
                invariant
                    keep == (|row: AchievementRecord| row.app_id == game_identifier.id),
                    to_goal == (|row: AchievementRecord| goal_of(row)),
                    r@ == rows@.take(i as int).filter(keep).map_values(to_goal),
            {
                proof {
                    assert(rows@.take(i + 1).drop_last() == rows@.take(i as int));
                    reveal(Seq::filter);
                }
                if rows[i].app_id == game_identifier.id {
                    r.push(goal_from_row(&rows[i]));
                    proof {
                        assert(rows@.take(i + 1).filter(keep) == rows@.take(i as int).filter(keep).push(rows@[i as int]));
                        assert(rows@.take(i + 1).filter(keep).map_values(to_goal) =~= rows@.take(i as int).filter(
                            keep,
                        ).map_values(to_goal).push(goal_of(rows@[i as int])));
                    }
                } else {
                    proof {
                        assert(rows@.take(i + 1).filter(keep) == rows@.take(i as int).filter(keep));
                    }
                }
            }
        },
    }
    proof {
        assert(rows@.take(rows@.len() as int) == rows@);
    }
    r
}

/// The names of the achievements excluded for game `app_id`.
pub open spec fn excluded_name(rows: Seq<ExcludedAchievementRecord>, app_id: i32, name: Seq<char>) -> bool {
    exists|i: int| 0 <= i < rows.len() && #[trigger] rows[i].app_id == app_id && rows[i].achievement_name@ == name
}

/// The views of a list of strings.
pub open spec fn string_views(v: Seq<String>) -> Seq<Seq<char>> {
    v.map_values(|s: String| s@)
}

/// Whether a list of strings holds one equal to `s`.
pub fn contains_string(v: &Vec<String>, s: &String) -> (r: bool)
    ensures
        r == string_views(v@).contains(s@),
{
    let mut i: usize = 0;
    while i < v.len()
        invariant
            i <= v@.len(),
            forall|j: int| 0 <= j < i ==> (#[trigger] v@[j])@ != s@,
        decreases v@.len() - i,
    {
        if v[i] == *s {
            assert(string_views(v@)[i as int] == s@);
            return true;
        }
        i += 1;
    }
    proof {
        if string_views(v@).contains(s@) {
            let k = choose|k: int| 0 <= k < string_views(v@).len() && string_views(v@)[k] == s@;
            assert(v@[k]@ == s@);
        }
    }
    false
}

proof fn lemma_excluded_name_step(rows: Seq<ExcludedAchievementRecord>, i: int, id: i32, name: Seq<char>)
    requires
        0 <= i < rows.len(),
    ensures
        excluded_name(rows.take(i + 1), id, name) <==> excluded_name(rows.take(i), id, name) || (
        rows[i].app_id == id && rows[i].achievement_name@ == name),
{
    let s1 = rows.take(i + 1);
    let s0 = rows.take(i);
    if excluded_name(s1, id, name) {
        let k = choose|k: int| 0 <= k < s1.len() && #[trigger] s1[k].app_id == id && s1[k].achievement_name@ == name;
        if k < i {
            assert(s0[k].app_id == id);
        }
    }
    if excluded_name(s0, id, name) {
        let k = choose|k: int| 0 <= k < s0.len() && #[trigger] s0[k].app_id == id && s0[k].achievement_name@ == name;
        assert(s1[k].app_id == id);
    }
    if rows[i].app_id == id && rows[i].achievement_name@ == name {
        assert(s1[i].app_id == id);
    }
}

/// The achievements excluded for a game, each name once.
pub fn get_excluded_achievements(game_identifier: &GameIdentifier, rows: &Vec<ExcludedAchievementRecord>) -> (r: Vec<String>)
    ensures
        string_views(r@).no_duplicates(),
        forall|name: Seq<char>| #[trigger] string_views(r@).contains(name) <==> excluded_name(
            rows@,
            game_identifier.id,
            name,
        ),
{
    let mut r: Vec<String> = Vec::new();
    let id = game_identifier.id;
    match game_identifier.module {
        Module::STEAM(_) => {
            for i in 0..rows.len()
                invariant
                    id == game_identifier.id,
                    string_views(r@).no_duplicates(),
                    forall|name: Seq<char>| #[trigger] string_views(r@).contains(name) <==> excluded_name(
                        rows@.take(i as int),
                        id,
                        name,
                    ),
            {
                let ghost before = r@;
                let e = &rows[i];
                if e.app_id == id && !contains_string(&r, &e.achievement_name) {
                    r.push(e.achievement_name.clone());
                    proof {
                        assert(string_views(r@) =~= string_views(before).push(e.achievement_name@));
                        assert forall|name: Seq<char>| #![auto] true implies
                            (string_views(r@).contains(name) <==> string_views(before).contains(name) || name == e.achievement_name@) by {
                            if string_views(r@).contains(name) {
                                let k = choose|k: int| 0 <= k < string_views(r@).len() && string_views(r@)[k] == name;
                                if k < before.len() {
                                    assert(string_views(before)[k] == name);
                                }
                            }
                            if string_views(before).contains(name) {
                                let k = choose|k: int| 0 <= k < string_views(before).len() && string_views(before)[k] == name;
                                assert(string_views(r@)[k] == name);
                            }
                            if name == e.achievement_name@ {
                                assert(string_views(r@)[before.len() as int] == name);
                            }
                        }
                    }
                }
                proof {
                    assert forall|name: Seq<char>| #[trigger] string_views(r@).contains(name) <==> excluded_name(
                        rows@.take(i + 1),
                        id,
                        name,
                    ) by {
                        lemma_excluded_name_step(rows@, i as int, id, name);
                        if rows@[i as int].app_id == id && rows@[i as int].achievement_name@ == name {
                            assert(string_views(r@).contains(name));
                        }
                        if string_views(r@).contains(name) && r@ != before {
                            if name != rows@[i as int].achievement_name@ {
                                assert(string_views(before).contains(name));
                            }
                        }
                        if string_views(before).contains(name) {
                            let k = choose|k: int| 0 <= k < string_views(before).len() && string_views(before)[k] == name;
                            assert(string_views(r@)[k] == name);
                        }
                    }
                }
            }
        },
    }
    proof {
        assert(rows@.take(rows@.len() as int) == rows@);
    }
    r
}

/// Law: a saved goal reads back. Once the row that `save_achievement_goal`
/// stores for a goal is in the goal table, under whatever id, the goals of
/// its game (as `get_game_goals` reads them) are those read before, then
/// the saved goal.
pub proof fn lemma_goal_round_trip(rows: Seq<AchievementRecord>, goal: ModuleGoal, id: i64)
    ensures
        ({
            let keep = |row: AchievementRecord| row.app_id == goal_row(goal).app_id;
            let to_goal = |row: AchievementRecord| goal_of(row);
            rows.push(stored_goal(goal_row(goal), id)).filter(keep).map_values(to_goal)
                == rows.filter(keep).map_values(to_goal).push(goal)
        }),
{
    let keep = |row: AchievementRecord| row.app_id == goal_row(goal).app_id;
    let to_goal = |row: AchievementRecord| goal_of(row);
    let stored = stored_goal(goal_row(goal), id);
    reveal(Seq::filter);
    assert(rows.push(stored).drop_last() == rows);
    assert(rows.push(stored).filter(keep) == rows.filter(keep).push(stored));
    assert(goal_of(stored) == goal);
    assert(rows.filter(keep).push(stored).map_values(to_goal) =~= rows.filter(keep).map_values(to_goal).push(
        goal,
    ));
}

/// The record the exclusion table holds for a stored exclusion, under the
/// id the table gives it.
pub open spec fn stored_exclusion(row: ExclusionRow, id: i64) -> ExcludedAchievementRecord {
    ExcludedAchievementRecord { id, achievement_name: row.achievement_name, app_id: row.app_id }
}

/// Law: a saved exclusion reads back. Once the row that
/// `save_excluded_achievement` stores is in the exclusion table, under
/// whatever id, the names excluded for its game (those that
/// `get_excluded_achievements` gives) are the ones excluded before and the
/// saved name.
pub proof fn lemma_exclusion_round_trip(rows: Seq<ExcludedAchievementRecord>, saved: ExclusionRow, id: i64, name: Seq<char>)
    ensures
        excluded_name(rows.push(stored_exclusion(saved, id)), saved.app_id, name) <==> (excluded_name(
            rows,
            saved.app_id,
            name,
        ) || name == saved.achievement_name@),
{
    let all = rows.push(stored_exclusion(saved, id));
    if excluded_name(all, saved.app_id, name) {
        let k = choose|k: int| 0 <= k < all.len() && #[trigger] all[k].app_id == saved.app_id && all[k].achievement_name@ == name;
        if k < rows.len() {
            assert(rows[k].app_id == saved.app_id);
        }
    }
    if excluded_name(rows, saved.app_id, name) {
        let k = choose|k: int| 0 <= k < rows.len() && #[trigger] rows[k].app_id == saved.app_id && rows[k].achievement_name@ == name;
        assert(all[k].app_id == saved.app_id);
    }
    if name == saved.achievement_name@ {
        assert(all[rows.len() as int].app_id == saved.app_id);
    }
}

/// An exclusion to store: the achievement's name and its game.
#[derive(Debug)]
pub struct ExclusionRow {
    pub achievement_name: String,
    pub app_id: i32,
}

/// The row that excluding an achievement of a game stores.
pub fn save_excluded_achievement(game_identifier: &GameIdentifier, achievement_name: &str) -> (r: ExclusionRow)
    ensures
        r.achievement_name@ == achievement_name@,
        r.app_id == game_identifier.id,
{
    match game_identifier.module {
        Module::STEAM(_) => ExclusionRow { achievement_name: String::from_str(achievement_name), app_id: game_identifier.id },
    }
}

/// A randomly drawn goal from a game's schema as a generic achievement: not
/// yet achieved, with both of its icons.
pub fn get_random_achievement_for_game(drawn: Option<SchemaAchievement>) -> (r: Option<GameAchievement>)
    ensures
        match drawn {
            None => r is None,
            Some(g) => r == Some(GameAchievement {
                id: g.name,
                display_name: g.display_name,
                description: g.description,
                achieved: false,
                achieved_icon_id: Some(g.icon),
                unachieved_icon_id: Some(g.icongray),
            }),
        },
{
    match drawn {
        None => None,
        Some(g) => Some(GameAchievement {
            id: g.name,
            display_name: g.display_name,
            description: g.description,
            achieved: false,
            achieved_icon_id: Some(g.icon),
            unachieved_icon_id: Some(g.icongray),
        }),
    }
}

} // verus!
