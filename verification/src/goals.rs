//! The goal rules: which games count as complete or perfected, how far the
//! player is through each game's achievements, which achievement becomes
//! the next goal, and what a cache synchronisation changes.

use rand::Rng;
use std::collections::HashMap;
use std::collections::HashSet;
use vstd::std_specs::hash::spec_hash_map_iter;
use vstd::std_specs::iter::IteratorSpec;
use vstd::prelude::*;
use crate::achievements::{is_unlocked, unlocked};
use crate::sort::{stable_order, stable_sort_positions};
use crate::steam_api::{GameAchievement, OwnedGame, PlayerAchievement};
use crate::steam_db::{
    AchievementRecord,
    completion_of, first_index_of_app, get_game_completion as stored_completion, get_perfect_games, is_perfect, perfect_games,
    ExcludedAchievementRecord, GameCompletion, GameTargetRecord,
};

verus! {

broadcast use vstd::std_specs::hash::group_hash_axioms;

/// Number of exclusions stored for a game.
pub open spec fn excluded_count(rows: Seq<ExcludedAchievementRecord>, app_id: i32) -> nat
    decreases rows.len(),
{
    if rows.len() == 0 {
        0
    } else {
        excluded_count(rows.drop_last(), app_id) + if rows.last().app_id == app_id {
            1nat
        } else {
            0nat
        }
    }
}

/// A game never has more exclusions than there are rows.
pub proof fn lemma_excluded_count_bounded(rows: Seq<ExcludedAchievementRecord>, app_id: i32)
    ensures
        excluded_count(rows, app_id) <= rows.len(),
    decreases rows.len(),
{
    if rows.len() > 0 {
        lemma_excluded_count_bounded(rows.drop_last(), app_id);
    }
}

/// A game has exclusions exactly when some row names it.
pub proof fn lemma_excluded_count_positive(rows: Seq<ExcludedAchievementRecord>, app_id: i32)
    ensures
        excluded_count(rows, app_id) > 0 <==> exists|i: int|
            0 <= i < rows.len() && #[trigger] rows[i].app_id == app_id,
    decreases rows.len(),
{
    if rows.len() > 0 {
        lemma_excluded_count_positive(rows.drop_last(), app_id);
        if excluded_count(rows.drop_last(), app_id) > 0 {
            let i = choose|i: int|
                0 <= i < rows.drop_last().len() && #[trigger] rows.drop_last()[i].app_id == app_id;
            assert(rows[i].app_id == app_id);
        }
        if exists|i: int| 0 <= i < rows.len() && #[trigger] rows[i].app_id == app_id {
            let i = choose|i: int| 0 <= i < rows.len() && #[trigger] rows[i].app_id == app_id;
            if i < rows.len() - 1 {
                assert(rows.drop_last()[i].app_id == app_id);
            }
        }
    }
}

/// Counts the exclusions of each game: a game is a key exactly when it has
/// at least one exclusion, and maps to their number.
pub fn get_excluded_count(rows: &Vec<ExcludedAchievementRecord>) -> (r: HashMap<i32, u32>)
    requires
        rows@.len() <= u32::MAX,
    ensures
        forall|a: i32| #[trigger] r@.contains_key(a) <==> excluded_count(rows@, a) > 0,
        forall|a: i32| #[trigger] r@.contains_key(a) ==> r@[a] == excluded_count(rows@, a),
{
    let mut m: HashMap<i32, u32> = HashMap::new();
    for i in 0..rows.len()
        invariant
            rows@.len() <= u32::MAX,
            forall|a: i32| #[trigger] m@.contains_key(a) <==> excluded_count(rows@.take(i as int), a) > 0,
            forall|a: i32| #[trigger] m@.contains_key(a) ==> m@[a] == excluded_count(rows@.take(i as int), a),
    {
        let app = rows[i].app_id;
        proof {
            assert(rows@.take(i + 1).drop_last() == rows@.take(i as int));
            lemma_excluded_count_bounded(rows@.take(i as int), app);
        }
        let current: u32 = match m.get(&app) {
            Some(c) => *c,
            None => 0,
        };
        m.insert(app, current + 1);
    }
    proof {
        assert(rows@.take(rows@.len() as int) == rows@);
    }
    m
}

/// Where a game stands: complete (finished as far as the player is
/// concerned) and perfected (every achievement unlocked).
#[derive(Clone, Copy, Debug, PartialEq, Eq)]
pub struct GameCompletionStatus {
    pub complete: bool,
    pub perfect: bool,
}

/// A target of the game that the player marked complete.
pub open spec fn complete_target(targets: Seq<GameTargetRecord>, a: i32) -> bool {
    exists|i: int| 0 <= i < targets.len() && #[trigger] targets[i].app_id == a && targets[i].complete
}

/// A target of the game that is still open.
pub open spec fn active_target(targets: Seq<GameTargetRecord>, a: i32) -> bool {
    exists|i: int| 0 <= i < targets.len() && #[trigger] targets[i].app_id == a && !targets[i].complete
}

/// A perfected completion row of the game.
pub open spec fn perfect_in(rows: Seq<GameCompletion>, a: i32) -> bool {
    exists|i: int| 0 <= i < rows.len() && #[trigger] rows[i].app_id == a && is_perfect(rows[i])
}

/// The game has exclusions, and its unlocked achievements together with
/// its exclusions make up all of its achievements.
pub open spec fn completed_by_exclusions(
    completions: Seq<GameCompletion>,
    excluded: Seq<ExcludedAchievementRecord>,
    a: i32,
) -> bool {
    &&& excluded_count(excluded, a) > 0
    &&& completion_of(completions, a) matches Some(c)
    &&& c.achievements_completed + excluded_count(excluded, a) == c.achievement_count
}

/// The games that have a completion status.
pub open spec fn has_completion_status(
    targets: Seq<GameTargetRecord>,
    completions: Seq<GameCompletion>,
    excluded: Seq<ExcludedAchievementRecord>,
    a: i32,
) -> bool {
    complete_target(targets, a) || perfect_in(completions, a) || completed_by_exclusions(
        completions,
        excluded,
        a,
    )
}

/// The completion status of a game that has one: it is complete when its
/// target is marked complete, when it is perfected and not an open target,
/// or when its exclusions cover all the achievements still locked; it is
/// perfected when a perfected completion row names it.
pub open spec fn completion_status(
    targets: Seq<GameTargetRecord>,
    completions: Seq<GameCompletion>,
    excluded: Seq<ExcludedAchievementRecord>,
    a: i32,
) -> GameCompletionStatus {
    GameCompletionStatus {
        complete: complete_target(targets, a) || (perfect_in(completions, a) && !active_target(
            targets,
            a,
        )) || completed_by_exclusions(completions, excluded, a),
        perfect: perfect_in(completions, a),
    }
}

/// No sum of unlocked achievements and exclusions overflows.
pub open spec fn completion_sums_fit(
    completions: Seq<GameCompletion>,
    excluded: Seq<ExcludedAchievementRecord>,
) -> bool {
    forall|a: i32|
        #![trigger completion_of(completions, a)]
        completion_of(completions, a) matches Some(c) ==> c.achievements_completed
            + excluded_count(excluded, a) <= u32::MAX
}

proof fn lemma_perfect_games_members(rows: Seq<GameCompletion>, a: i32)
    ensures
        perfect_in(rows, a) <==> exists|j: int|
            0 <= j < perfect_games(rows).len() && #[trigger] perfect_games(rows)[j].app_id == a,
{
    let p = perfect_games(rows);
    if perfect_in(rows, a) {
        let i = choose|i: int| 0 <= i < rows.len() && #[trigger] rows[i].app_id == a && is_perfect(rows[i]);
        rows.lemma_filter_contains(|c: GameCompletion| is_perfect(c), i);
        assert(p.contains(rows[i]));
        let j = choose|j: int| 0 <= j < p.len() && p[j] == rows[i];
        assert(p[j].app_id == a);
    }
    if exists|j: int| 0 <= j < p.len() && #[trigger] p[j].app_id == a {
        let j = choose|j: int| 0 <= j < p.len() && #[trigger] p[j].app_id == a;
        assert(p.contains(p[j]));
        rows.lemma_filter_contains_rev(|c: GameCompletion| is_perfect(c), p[j]);
        let i = choose|i: int| 0 <= i < rows.len() && rows[i] == p[j];
        assert(rows[i].app_id == a && is_perfect(rows[i]));
    }
}

/// Game `a` is among the first `n` keys of an iteration over a map.
pub open spec fn processed(s: Seq<(&i32, &u32)>, n: int, a: i32) -> bool {
    exists|k: int| 0 <= k < n && #[trigger] s[k].0 == a
}

/// Some row of `rows` is for game `a`.
pub open spec fn app_in(rows: Seq<GameCompletion>, a: i32) -> bool {
    exists|i: int| 0 <= i < rows.len() && #[trigger] rows[i].app_id == a
}

proof fn lemma_targets_step(t: Seq<GameTargetRecord>, i: int, a: i32)
    requires
        0 <= i < t.len(),
    ensures
        complete_target(t.take(i + 1), a) <==> complete_target(t.take(i), a) || (t[i].app_id == a
            && t[i].complete),
        active_target(t.take(i + 1), a) <==> active_target(t.take(i), a) || (t[i].app_id == a
            && !t[i].complete),
{
    let s1 = t.take(i + 1);
    let s0 = t.take(i);
    if complete_target(s1, a) {
        let k = choose|k: int| 0 <= k < s1.len() && #[trigger] s1[k].app_id == a && s1[k].complete;
        if k < i {
            assert(s0[k].app_id == a);
        }
    }
    if complete_target(s0, a) {
        let k = choose|k: int| 0 <= k < s0.len() && #[trigger] s0[k].app_id == a && s0[k].complete;
        assert(s1[k].app_id == a);
    }
    if t[i].app_id == a && t[i].complete {
        assert(s1[i].app_id == a);
    }
    if active_target(s1, a) {
        let k = choose|k: int| 0 <= k < s1.len() && #[trigger] s1[k].app_id == a && !s1[k].complete;
        if k < i {
            assert(s0[k].app_id == a);
        }
    }
    if active_target(s0, a) {
        let k = choose|k: int| 0 <= k < s0.len() && #[trigger] s0[k].app_id == a && !s0[k].complete;
        assert(s1[k].app_id == a);
    }
    if t[i].app_id == a && !t[i].complete {
        assert(s1[i].app_id == a);
    }
}

proof fn lemma_app_in_step(rows: Seq<GameCompletion>, j: int, a: i32)
    requires
        0 <= j < rows.len(),
    ensures
        app_in(rows.take(j + 1), a) <==> app_in(rows.take(j), a) || rows[j].app_id == a,
{
    let s1 = rows.take(j + 1);
    let s0 = rows.take(j);
    if app_in(s1, a) {
        let k = choose|k: int| 0 <= k < s1.len() && #[trigger] s1[k].app_id == a;
        if k < j {
            assert(s0[k].app_id == a);
        }
    }
    if app_in(s0, a) {
        let k = choose|k: int| 0 <= k < s0.len() && #[trigger] s0[k].app_id == a;
        assert(s1[k].app_id == a);
    }
    if rows[j].app_id == a {
        assert(s1[j].app_id == a);
    }
}

/// Decides which games are complete and which are perfected.
///
/// A game has a status when its target is marked complete, when it is
/// perfected, or when its exclusions cover every achievement that is still
/// locked; games without a status are not complete. `perfect` follows the
/// perfected completions; a perfected game that is still an open target is
/// not complete unless its exclusions or a completed target make it so.
pub fn get_game_completion(
    targets: &Vec<GameTargetRecord>,
    completions: &Vec<GameCompletion>,
    excluded: &Vec<ExcludedAchievementRecord>,
) -> (r: HashMap<i32, GameCompletionStatus>)
    requires
        excluded@.len() <= u32::MAX,
        completion_sums_fit(completions@, excluded@),
    ensures
        forall|a: i32| #[trigger] r@.contains_key(a) <==> has_completion_status(
            targets@,
            completions@,
            excluded@,
            a,
        ),
        forall|a: i32| #[trigger] r@.contains_key(a) ==> r@[a] == completion_status(
            targets@,
            completions@,
            excluded@,
            a,
        ),
{
    let ghost t = targets@;
    let ghost c = completions@;
    let ghost e = excluded@;
    let mut completion_map: HashMap<i32, GameCompletionStatus> = HashMap::new();
    let mut active_targets: HashSet<i32> = HashSet::new();
    // Targets: completed ones count as complete, open ones are remembered.
    for i in 0..targets.len()
        invariant
            t == targets@,
            forall|a: i32| #[trigger] completion_map@.contains_key(a) <==> complete_target(t.take(i as int), a),
            forall|a: i32| #[trigger] completion_map@.contains_key(a) ==> completion_map@[a]
                == (GameCompletionStatus { complete: true, perfect: false }),
            forall|a: i32| #[trigger] active_targets@.contains(a) <==> active_target(t.take(i as int), a),
    {
        let target = targets[i];
        proof {
            assert forall|a: i32| #![auto] true implies
                (complete_target(t.take(i + 1), a) <==> complete_target(t.take(i as int), a) || (t[i as int].app_id == a && t[i as int].complete))
                && (active_target(t.take(i + 1), a) <==> active_target(t.take(i as int), a) || (t[i as int].app_id == a && !t[i as int].complete)) by {
                lemma_targets_step(t, i as int, a);
            }
        }
        if target.complete {
            completion_map.insert(target.app_id, GameCompletionStatus { complete: true, perfect: false });
        } else {
            active_targets.insert(target.app_id);
        }
    }
    proof {
        assert(t.take(t.len() as int) == t);
    }
    // Perfected games.
    let perfect = get_perfect_games(completions);
    let ghost p = perfect@;
    for j in 0..perfect.len()
        invariant
            t == targets@,
            p == perfect@,
            forall|a: i32| #[trigger] completion_map@.contains_key(a) <==> complete_target(t, a) || app_in(p.take(j as int), a),
            forall|a: i32| #[trigger] completion_map@.contains_key(a) ==> completion_map@[a]
                == (GameCompletionStatus {
                    complete: complete_target(t, a) || (app_in(p.take(j as int), a) && !active_target(t, a)),
                    perfect: app_in(p.take(j as int), a),
                }),
            forall|a: i32| #[trigger] active_targets@.contains(a) <==> active_target(t, a),
    {
        let app = perfect[j].app_id;
        proof {
            assert forall|a: i32| #![auto] true implies
                (app_in(p.take(j + 1), a) <==> app_in(p.take(j as int), a) || p[j as int].app_id == a) by {
                lemma_app_in_step(p, j as int, a);
            }
        }
        match completion_map.get(&app) {
            Some(present) => {
                let updated = GameCompletionStatus { complete: present.complete, perfect: true };
                completion_map.insert(app, updated);
            },
            None => {
                let is_active = active_targets.contains(&app);
                completion_map.insert(app, GameCompletionStatus { complete: !is_active, perfect: true });
            },
        }
    }
    proof {
        assert(p.take(p.len() as int) == p);
        assert forall|a: i32| #![auto] true implies (app_in(p, a) <==> perfect_in(c, a)) by {
            lemma_perfect_games_members(c, a);
        }
    }
    // Games whose exclusions cover every locked achievement.
    let excluded_counts = get_excluded_count(excluded);
    let ghost v = spec_hash_map_iter(&excluded_counts).remaining();
    let ghost mut n: int = 0;
    for entry in it: excluded_counts.iter()
        invariant
            t == targets@,
            c == completions@,
            e == excluded@,
            completion_sums_fit(c, e),
            forall|a: i32| #[trigger] excluded_counts@.contains_key(a) <==> excluded_count(e, a) > 0,
            forall|a: i32| #[trigger] excluded_counts@.contains_key(a) ==> excluded_counts@[a] == excluded_count(e, a),
            v == spec_hash_map_iter(&excluded_counts).remaining(),
            it.seq() == v,
            n == it.index(),
            forall|a: i32| #[trigger] completion_map@.contains_key(a) <==> complete_target(t, a) || perfect_in(c, a)
                || (processed(v, n, a) && completed_by_exclusions(c, e, a)),
            forall|a: i32| #[trigger] completion_map@.contains_key(a) ==> completion_map@[a]
                == (GameCompletionStatus {
                    complete: complete_target(t, a) || (perfect_in(c, a) && !active_target(t, a))
                        || (processed(v, n, a) && completed_by_exclusions(c, e, a)),
                    perfect: perfect_in(c, a),
                }),
    {
        let app: i32 = *entry.0;
        let count: u32 = *entry.1;
        proof {
            assert(entry == v[n]);
            assert(excluded_counts@.contains_key(app) && excluded_counts@[app] == count);
            assert forall|a: i32| #![auto] true implies
                (processed(v, n + 1, a) <==> processed(v, n, a) || a == app) by {
                if processed(v, n + 1, a) {
                    let k = choose|k: int| 0 <= k < n + 1 && #[trigger] v[k].0 == a;
                }
                if a == app {
                    assert(v[n].0 == a);
                }
            }
        }
        let game_status = stored_completion(completions, app);
        proof {
            assert(excluded_count(e, app) > 0);
            if let Some(p) = game_status {
                let i = first_index_of_app(c, app)->0;
                assert(c[i].app_id == app);
                assert(p.app_id == app);
                assert(p.achievements_completed + excluded_count(e, app) <= u32::MAX);
            }
        }
        if let Some(progress) = game_status {
            if progress.achievements_completed + count == progress.achievement_count {
                match completion_map.get(&progress.app_id) {
                    Some(present) => {
                        let updated = GameCompletionStatus { complete: true, perfect: present.perfect };
                        completion_map.insert(progress.app_id, updated);
                    },
                    None => {
                        completion_map.insert(progress.app_id, GameCompletionStatus { complete: true, perfect: false });
                    },
                }
            }
        }
        proof {
            n = n + 1;
        }
    }
    proof {
        assert(n == v.len());
        assert forall|a: i32| #![auto] true implies
            (processed(v, n, a) <==> excluded_counts@.contains_key(a)) by {
            if processed(v, n, a) {
                let k = choose|k: int| 0 <= k < n && #[trigger] v[k].0 == a;
                assert(excluded_counts@.contains_key(*v[k].0));
            }
            if excluded_counts@.contains_key(a) {
                assert(v.contains((&a, &excluded_counts@[a])));
                let k = choose|k: int| 0 <= k < v.len() && v[k] == (&a, &excluded_counts@[a]);
                assert(v[k].0 == a);
            }
        }
    }
    completion_map
}

/// How far the player is through a game's achievements: all of them, those
/// unlocked and those excluded.
#[derive(Clone, Copy, Debug, Default, PartialEq, Eq)]
pub struct AchievementProgress {
    pub total: u32,
    pub unlocked: u32,
    pub excluded: u32,
}

/// A completion row is shown as progress when the player has unlocked some
/// achievement, has excluded some, or the game has achievements at all.
pub open spec fn shows_progress(r: GameCompletion, excluded: Seq<ExcludedAchievementRecord>) -> bool {
    r.achievements_completed != 0 || excluded_count(excluded, r.app_id) > 0 || r.achievement_count > 0
}

/// The completion row that gives a game's progress: the last row of the
/// game that shows progress.
pub open spec fn progress_row(
    rows: Seq<GameCompletion>,
    excluded: Seq<ExcludedAchievementRecord>,
    a: i32,
) -> Option<GameCompletion>
    decreases rows.len(),
{
    if rows.len() == 0 {
        None
    } else if rows.last().app_id == a && shows_progress(rows.last(), excluded) {
        Some(rows.last())
    } else {
        progress_row(rows.drop_last(), excluded, a)
    }
}

/// The progress shown for a completion row.
pub open spec fn progress_of(r: GameCompletion, excluded: Seq<ExcludedAchievementRecord>) -> AchievementProgress {
    AchievementProgress {
        total: r.achievement_count,
        unlocked: r.achievements_completed,
        excluded: excluded_count(excluded, r.app_id) as u32,
    }
}

/// Progress through the games that have achievements: a game is a key when
/// it has a completion row that shows progress, and maps to the total,
/// unlocked and excluded counts of its last such row.
pub fn get_game_progress(
    completions: &Vec<GameCompletion>,
    excluded: &Vec<ExcludedAchievementRecord>,
) -> (r: HashMap<i32, AchievementProgress>)
    requires
        excluded@.len() <= u32::MAX,
    ensures
        forall|a: i32| #[trigger] r@.contains_key(a) <==> progress_row(completions@, excluded@, a) is Some,
        forall|a: i32| #[trigger] r@.contains_key(a) ==> r@[a] == progress_of(
            progress_row(completions@, excluded@, a)->0,
            excluded@,
        ),
{
    let ghost c = completions@;
    let ghost e = excluded@;
    let mut progress_map: HashMap<i32, AchievementProgress> = HashMap::new();
    let excluded_counts = get_excluded_count(excluded);
    for i in 0..completions.len()
        invariant
            c == completions@,
            e == excluded@,
            forall|a: i32| #[trigger] excluded_counts@.contains_key(a) <==> excluded_count(e, a) > 0,
            forall|a: i32| #[trigger] excluded_counts@.contains_key(a) ==> excluded_counts@[a] == excluded_count(e, a),
            forall|a: i32| #[trigger] progress_map@.contains_key(a) <==> progress_row(c.take(i as int), e, a) is Some,
            forall|a: i32| #[trigger] progress_map@.contains_key(a) ==> progress_map@[a] == progress_of(
                progress_row(c.take(i as int), e, a)->0,
                e,
            ),
    {
        let p = completions[i];
        proof {
            assert(c.take(i + 1).drop_last() == c.take(i as int));
            assert(c.take(i + 1).last() == p);
        }
        if p.achievements_completed != 0 || excluded_counts.contains_key(&p.app_id) {
            let excluded_here: u32 = match excluded_counts.get(&p.app_id) {
                Some(n) => *n,
                None => 0,
            };
            progress_map.insert(
                p.app_id,
                AchievementProgress { total: p.achievement_count, unlocked: p.achievements_completed, excluded: excluded_here },
            );
        } else if p.achievement_count > 0 {
            progress_map.insert(p.app_id, AchievementProgress { total: p.achievement_count, unlocked: 0, excluded: 0 });
        }
    }
    proof {
        assert(c.take(c.len() as int) == c);
    }
    progress_map
}

/// A goal row of game `app` names the achievement `name`.
pub open spec fn is_goal(goals: Seq<AchievementRecord>, app: i32, name: Seq<char>) -> bool {
    exists|i: int| 0 <= i < goals.len() && #[trigger] goals[i].app_id == app && goals[i].achievement_name@ == name
}

/// An exclusion row of game `app` names the achievement `name`.
pub open spec fn is_excluded(excluded: Seq<ExcludedAchievementRecord>, app: i32, name: Seq<char>) -> bool {
    exists|i: int| 0 <= i < excluded.len() && #[trigger] excluded[i].app_id == app && excluded[i].achievement_name@ == name
}

/// An achievement can become a goal when it is locked, not already a goal
/// and not excluded.
pub open spec fn is_candidate(
    a: PlayerAchievement,
    app: i32,
    goals: Seq<AchievementRecord>,
    excluded: Seq<ExcludedAchievementRecord>,
) -> bool {
    !a.achieved && !is_goal(goals, app, a.name@) && !is_excluded(excluded, app, a.name@)
}

/// The achievements of game `app` that can become goals, in their order.
pub open spec fn candidates(
    player: Seq<PlayerAchievement>,
    app: i32,
    goals: Seq<AchievementRecord>,
    excluded: Seq<ExcludedAchievementRecord>,
) -> Seq<PlayerAchievement> {
    player.filter(|a: PlayerAchievement| is_candidate(a, app, goals, excluded))
}

/// The index of the first schema entry named `name`, if any.
pub open spec fn schema_index(schema: Seq<GameAchievement>, name: Seq<char>) -> Option<int> {
    if exists|i: int|
        0 <= i < schema.len() && schema[i].name@ == name && forall|j: int| 0 <= j < i ==> schema[j].name@ != name {
        Some(
            choose|i: int|
                0 <= i < schema.len() && schema[i].name@ == name && forall|j: int|
                    0 <= j < i ==> schema[j].name@ != name,
        )
    } else {
        None
    }
}

fn goal_named(goals: &Vec<AchievementRecord>, app: i32, name: &String) -> (r: bool)
    ensures
        r == is_goal(goals@, app, name@),
{
    let mut i: usize = 0;
    while i < goals.len()
        invariant
            i <= goals@.len(),
            forall|j: int| 0 <= j < i ==> !(#[trigger] goals@[j].app_id == app && goals@[j].achievement_name@ == name@),
        decreases goals@.len() - i,
    {
        if goals[i].app_id == app && goals[i].achievement_name == *name {
            return true;
        }
        i += 1;
    }
    false
}

fn excluded_named(excluded: &Vec<ExcludedAchievementRecord>, app: i32, name: &String) -> (r: bool)
    ensures
        r == is_excluded(excluded@, app, name@),
{
    let mut i: usize = 0;
    while i < excluded.len()
        invariant
            i <= excluded@.len(),
            forall|j: int| 0 <= j < i ==> !(#[trigger] excluded@[j].app_id == app && excluded@[j].achievement_name@ == name@),
        decreases excluded@.len() - i,
    {
        if excluded[i].app_id == app && excluded[i].achievement_name == *name {
            return true;
        }
        i += 1;
    }
    false
}

/// The achievements of a game that can become goals: those the player has
/// not unlocked, that are not already goals and that are not excluded.
pub fn goal_candidates(
    player: &Vec<PlayerAchievement>,
    app: i32,
    goals: &Vec<AchievementRecord>,
    excluded: &Vec<ExcludedAchievementRecord>,
) -> (r: Vec<PlayerAchievement>)
    ensures
        r@ == candidates(player@, app, goals@, excluded@),
{
    let ghost keep = |a: PlayerAchievement| is_candidate(a, app, goals@, excluded@);
    let mut r: Vec<PlayerAchievement> = Vec::new();
    for i in 0..player.len()
        invariant
            keep == (|a: PlayerAchievement| is_candidate(a, app, goals@, excluded@)),
            r@ == player@.take(i as int).filter(keep),
    {
        proof {
            assert(player@.take(i + 1).drop_last() == player@.take(i as int));
            reveal(Seq::filter);
        }
        let a = &player[i];
        if !a.achieved && !goal_named(goals, app, &a.name) && !excluded_named(excluded, app, &a.name) {
            r.push(a.clone());
        }
    }
    proof {
        assert(player@.take(player@.len() as int) == player@);
    }
    r
}

/// The first schema entry named `name`, if any.
pub fn find_in_schema(schema: &Vec<GameAchievement>, name: &String) -> (r: Option<GameAchievement>)
    ensures
        match schema_index(schema@, name@) {
            Some(i) => r == Some(schema@[i]),
            None => r is None,
        },
{
    for i in 0..schema.len()
        invariant
            forall|j: int| 0 <= j < i ==> schema@[j].name@ != name@,
    {
        if schema[i].name == *name {
            proof {
                let k = choose|k: int|
                    0 <= k < schema@.len() && schema@[k].name@ == name@ && forall|j: int|
                        0 <= j < k ==> schema@[j].name@ != name@;
                assert(!(k < i)) by {
                    if k < i {
                        assert(schema@[k].name@ != name@);
                    }
                }
                assert(!(i < k));
            }
            return Some(schema[i].clone());
        }
    }
    None
}

/// Draws a position uniformly at random below `len`, with the `rand`
/// crate's thread-local generator (`rand::rng()` and `Rng::random_range`,
/// as `IndexedRandom::choose` and `rand::random_range` do). Only the bound
/// is stated: the drawn position depends on chance.
#[verifier::external_body]
pub(crate) fn random_index(len: usize) -> (r: usize)
    requires
        len > 0,
    ensures
        r < len,
{
    rand::rng().random_range(..len)
}

/// Why a drawn goal can not be given.
#[derive(Debug, PartialEq, Eq)]
pub enum DrawError {
    /// The drawn achievement, named here, is not in the game's schema.
    NotInSchema(String),
}

/// What drawing a candidate gives: its schema entry, or the error that the
/// schema has none.
pub open spec fn drawn_result(schema: Seq<GameAchievement>, candidate: PlayerAchievement) -> Result<GameAchievement, DrawError> {
    match schema_index(schema, candidate.name@) {
        Some(i) => Ok(schema[i]),
        None => Err(DrawError::NotInSchema(candidate.name)),
    }
}

/// The schema entry of the drawn candidate, or the error that the schema
/// has none.
pub fn pick_candidate(candidates: &Vec<PlayerAchievement>, k: usize, schema: &Vec<GameAchievement>) -> (r: Result<
    GameAchievement,
    DrawError,
>)
    requires
        k < candidates@.len(),
    ensures
        r == drawn_result(schema@, candidates@[k as int]),
{
    match find_in_schema(schema, &candidates[k].name) {
        Some(g) => Ok(g),
        None => Err(DrawError::NotInSchema(candidates[k].name.clone())),
    }
}

/// Draws the next goal of a game: an achievement the player has not
/// unlocked, that is not yet a goal and not excluded, picked at random, as
/// the game's schema describes it. There is none when the player has no
/// achievement list for the game or no achievement is left to pick; an
/// error when the drawn achievement is not in the schema.
pub fn get_random_achievement_for_game(
    player: &Option<Vec<PlayerAchievement>>,
    app: i32,
    schema: &Vec<GameAchievement>,
    goals: &Vec<AchievementRecord>,
    excluded: &Vec<ExcludedAchievementRecord>,
) -> (r: Result<Option<GameAchievement>, DrawError>)
    ensures
        match player {
            None => r == Ok::<Option<GameAchievement>, DrawError>(None),
            Some(p) => {
                let c = candidates(p@, app, goals@, excluded@);
                &&& c.len() == 0 ==> r == Ok::<Option<GameAchievement>, DrawError>(None)
                &&& c.len() > 0 ==> exists|k: int|
                    0 <= k < c.len() && r == match drawn_result(schema@, #[trigger] c[k]) {
                        Ok(g) => Ok::<Option<GameAchievement>, DrawError>(Some(g)),
                        Err(e) => Err(e),
                    }
            },
        },
{
    match player {
        None => Ok(None),
        Some(p) => {
            let filtered = goal_candidates(p, app, goals, excluded);
            if filtered.len() == 0 {
                Ok(None)
            } else {
                let k = random_index(filtered.len());
                let chosen = pick_candidate(&filtered, k, schema);
                proof {
                    let c = candidates(p@, app, goals@, excluded@);
                    assert(c[k as int] == filtered@[k as int]);
                }
                match chosen {
                    Ok(g) => Ok(Some(g)),
                    Err(e) => Err(e),
                }
            }
        },
    }
}

/// The player's achievements for a game, from the lists fetched per game:
/// the first list fetched for it.
pub open spec fn fetched_for(fetched: Seq<(i32, Vec<PlayerAchievement>)>, app: i32) -> Option<Seq<PlayerAchievement>> {
    if exists|i: int| 0 <= i < fetched.len() && fetched[i].0 == app && forall|j: int| 0 <= j < i ==> fetched[j].0 != app {
        let i = choose|i: int|
            0 <= i < fetched.len() && fetched[i].0 == app && forall|j: int| 0 <= j < i ==> fetched[j].0 != app;
        Some(fetched[i].1@)
    } else {
        None
    }
}

fn fetched_index(fetched: &Vec<(i32, Vec<PlayerAchievement>)>, app: i32) -> (r: Option<usize>)
    ensures
        match r {
            Some(i) => i < fetched@.len() && fetched_for(fetched@, app) == Some(fetched@[i as int].1@),
            None => fetched_for(fetched@, app) is None,
        },
{
    for i in 0..fetched.len()
        invariant
            forall|j: int| 0 <= j < i ==> fetched@[j].0 != app,
    {
        if fetched[i].0 == app {
            proof {
                let k = choose|k: int|
                    0 <= k < fetched@.len() && fetched@[k].0 == app && forall|j: int|
                        0 <= j < k ==> fetched@[j].0 != app;
                assert(!(k < i)) by {
                    if k < i {
                        assert(fetched@[k].0 != app);
                    }
                }
                assert(!(i < k));
            }
            return Some(i);
        }
    }
    None
}

/// Removes the exclusions whose achievement the player has since unlocked:
/// the ids of those exclusions, in the order of the rows.
pub fn sync_excluded_achievements(
    excluded: &Vec<ExcludedAchievementRecord>,
    fetched: &Vec<(i32, Vec<PlayerAchievement>)>,
) -> (r: Vec<i64>)
    requires
        forall|i: int| 0 <= i < excluded@.len() ==> fetched_for(fetched@, #[trigger] excluded@[i].app_id) is Some,
    ensures
        r@ == excluded@.filter(
            |e: ExcludedAchievementRecord| unlocked(fetched_for(fetched@, e.app_id)->0, e.achievement_name@),
        ).map_values(|e: ExcludedAchievementRecord| e.id),
{
    let ghost keep = |e: ExcludedAchievementRecord| unlocked(fetched_for(fetched@, e.app_id)->0, e.achievement_name@);
    let ghost to_id = |e: ExcludedAchievementRecord| e.id;
    let mut r: Vec<i64> = Vec::new();
    for i in 0..excluded.len()
        invariant
            keep == (|e: ExcludedAchievementRecord| unlocked(fetched_for(fetched@, e.app_id)->0, e.achievement_name@)),
            to_id == (|e: ExcludedAchievementRecord| e.id),
            forall|i: int| 0 <= i < excluded@.len() ==> fetched_for(fetched@, #[trigger] excluded@[i].app_id) is Some,
            r@ == excluded@.take(i as int).filter(keep).map_values(to_id),
    {
        proof {
            assert(excluded@.take(i + 1).drop_last() == excluded@.take(i as int));
            reveal(Seq::filter);
        }
        let e = &excluded[i];
        let found = fetched_index(fetched, e.app_id);
        match found {
            Some(k) => {
                if is_unlocked(&fetched[k].1, &e.achievement_name) {
                    r.push(e.id);
                    proof {
                        assert(excluded@.take(i + 1).filter(keep).map_values(to_id) =~= excluded@.take(i as int).filter(
                            keep,
                        ).map_values(to_id).push(e.id));
                    }
                }
            },
            None => {
                assert(fetched_for(fetched@, excluded@[i as int].app_id) is Some);
            },
        }
    }
    proof {
        assert(excluded@.take(excluded@.len() as int) == excluded@);
    }
    r
}

/// The owned game with id `app`: the last one listed with that id, as
/// collecting the owned games into a map by id keeps it.
pub open spec fn owned_for(owned: Seq<OwnedGame>, app: i32) -> Option<OwnedGame> {
    if exists|i: int| 0 <= i < owned.len() && owned[i].appid == app && forall|j: int| i < j < owned.len() ==> owned[j].appid != app {
        let i = choose|i: int|
            0 <= i < owned.len() && owned[i].appid == app && forall|j: int| i < j < owned.len() ==> owned[j].appid != app;
        Some(owned[i])
    } else {
        None
    }
}

fn owned_index(owned: &Vec<OwnedGame>, app: i32) -> (r: Option<usize>)
    ensures
        match r {
            Some(i) => i < owned@.len() && owned_for(owned@, app) == Some(owned@[i as int]),
            None => owned_for(owned@, app) is None,
        },
{
    let mut i: usize = owned.len();
    while i > 0
        invariant
            i <= owned@.len(),
            forall|j: int| i <= j < owned@.len() ==> owned@[j].appid != app,
        decreases i,
    {
        i -= 1;
        if owned[i].appid == app {
            proof {
                let k = choose|k: int|
                    0 <= k < owned@.len() && owned@[k].appid == app && forall|j: int|
                        k < j < owned@.len() ==> owned@[j].appid != app;
                assert(!(k > i)) by {
                    if k > i {
                        assert(owned@[k].appid != app);
                    }
                }
                assert(!(i > k));
            }
            return Some(i);
        }
    }
    None
}

/// The first entry of the player's list for the achievement named `name`.
pub open spec fn player_entry(player: Seq<PlayerAchievement>, name: Seq<char>) -> Option<PlayerAchievement> {
    if exists|i: int| 0 <= i < player.len() && player[i].name@ == name && forall|j: int| 0 <= j < i ==> player[j].name@ != name {
        let i = choose|i: int|
            0 <= i < player.len() && player[i].name@ == name && forall|j: int| 0 <= j < i ==> player[j].name@ != name;
        Some(player[i])
    } else {
        None
    }
}

fn find_player_entry(player: &Vec<PlayerAchievement>, name: &String) -> (r: Option<usize>)
    ensures
        match r {
            Some(i) => i < player@.len() && player_entry(player@, name@) == Some(player@[i as int]),
            None => player_entry(player@, name@) is None,
        },
{
    for i in 0..player.len()
        invariant
            forall|j: int| 0 <= j < i ==> player@[j].name@ != name@,
    {
        if player[i].name == *name {
            proof {
                let k = choose|k: int|
                    0 <= k < player@.len() && player@[k].name@ == name@ && forall|j: int|
                        0 <= j < k ==> player@[j].name@ != name@;
                assert(!(k < i)) by {
                    if k < i {
                        assert(player@[k].name@ != name@);
                    }
                }
                assert(!(i < k));
            }
            return Some(i);
        }
    }
    None
}

/// What synchronising a goal changes in the goal table.
#[derive(Clone, Copy, Debug, PartialEq, Eq)]
pub enum GoalSync {
    /// The goal's achievement is unlocked: the goal row with this id goes.
    Delete(i64),
    /// The goal is still open: the goal row with this id records the game's
    /// new last played time.
    UpdateLastPlayed(i64, i64),
}

/// The inputs that synchronising a goal needs are there: its game is
/// owned, and when the game has been played since the goal was checked,
/// the player's list for the game has an entry for the goal's achievement.
pub open spec fn goal_sync_inputs(
    g: AchievementRecord,
    owned: Seq<OwnedGame>,
    fetched: Seq<(i32, Vec<PlayerAchievement>)>,
) -> bool {
    &&& owned_for(owned, g.app_id) is Some
    &&& owned_for(owned, g.app_id)->0.last_played != g.last_played ==> {
        &&& fetched_for(fetched, g.app_id) is Some
        &&& player_entry(fetched_for(fetched, g.app_id)->0, g.achievement_name@) is Some
    }
}

/// What synchronising a goal changes: nothing when its game has not been
/// played since the goal was checked; else the goal goes when its
/// achievement is unlocked, and records the new last played time when not.
pub open spec fn goal_sync_of(
    g: AchievementRecord,
    owned: Seq<OwnedGame>,
    fetched: Seq<(i32, Vec<PlayerAchievement>)>,
) -> Option<GoalSync> {
    let game = owned_for(owned, g.app_id)->0;
    if game.last_played == g.last_played {
        None
    } else if player_entry(fetched_for(fetched, g.app_id)->0, g.achievement_name@)->0.achieved {
        Some(GoalSync::Delete(g.id))
    } else {
        Some(GoalSync::UpdateLastPlayed(g.id, game.last_played))
    }
}

/// The changes of synchronising a sequence of goals, in its order.
pub open spec fn goal_syncs(
    goals: Seq<AchievementRecord>,
    owned: Seq<OwnedGame>,
    fetched: Seq<(i32, Vec<PlayerAchievement>)>,
) -> Seq<GoalSync>
    decreases goals.len(),
{
    if goals.len() == 0 {
        seq![]
    } else {
        let before = goal_syncs(goals.drop_last(), owned, fetched);
        match goal_sync_of(goals.last(), owned, fetched) {
            Some(a) => before.push(a),
            None => before,
        }
    }
}

/// The game ids of goal rows, as sort keys.
pub open spec fn goal_keys(goals: Seq<AchievementRecord>) -> Seq<i64> {
    goals.map_values(|g: AchievementRecord| g.app_id as i64)
}

/// Synchronises the goals with the player's progress: goals are visited by
/// game id (in stored order within a game); a goal whose game has been
/// played since it was checked goes when its achievement is now unlocked,
/// and records the new last played time otherwise.
pub fn sync_completed_achievements(
    goals: &Vec<AchievementRecord>,
    owned: &Vec<OwnedGame>,
    fetched: &Vec<(i32, Vec<PlayerAchievement>)>,
) -> (r: Vec<GoalSync>)
    requires
        forall|i: int| 0 <= i < goals@.len() ==> goal_sync_inputs(#[trigger] goals@[i], owned@, fetched@),
    ensures
        exists|order: Seq<usize>|
            stable_order(goal_keys(goals@), order) && r@ == goal_syncs(
                order.map_values(|k: usize| goals@[k as int]),
                owned@,
                fetched@,
            ),
{
    let mut keys: Vec<i64> = Vec::new();
    for i in 0..goals.len()
        invariant
            keys@ == goal_keys(goals@.take(i as int)),
    {
        keys.push(goals[i].app_id as i64);
        proof {
            assert(goal_keys(goals@.take(i + 1)) =~= goal_keys(goals@.take(i as int)).push(goals@[i as int].app_id as i64));
        }
    }
    proof {
        assert(goals@.take(goals@.len() as int) == goals@);
    }
    let order = stable_sort_positions(&keys);
    let ghost visited = order@.map_values(|k: usize| goals@[k as int]);
    let mut r: Vec<GoalSync> = Vec::new();
    for n in 0..order.len()
        invariant
            stable_order(goal_keys(goals@), order@),
            visited == order@.map_values(|k: usize| goals@[k as int]),
            forall|i: int| 0 <= i < goals@.len() ==> goal_sync_inputs(#[trigger] goals@[i], owned@, fetched@),
            r@ == goal_syncs(visited.take(n as int), owned@, fetched@),
    {
        let k = order[n];
        let a = &goals[k];
        proof {
            assert(visited.take(n + 1).drop_last() == visited.take(n as int));
            assert(visited.take(n + 1).last() == goals@[k as int]);
            assert(goal_sync_inputs(goals@[k as int], owned@, fetched@));
        }
        let gi = owned_index(owned, a.app_id);
        let gi = match gi {
            Some(x) => x,
            None => {
                return r;
            },
        };
        let game_last_played = owned[gi].last_played;
        if game_last_played != a.last_played {
            let pi = fetched_index(fetched, a.app_id);
            let pi = match pi {
                Some(x) => x,
                None => {
                    return r;
                },
            };
            let ei = find_player_entry(&fetched[pi].1, &a.achievement_name);
            let ei = match ei {
                Some(x) => x,
                None => {
                    return r;
                },
            };
            if fetched[pi].1[ei].achieved {
                r.push(GoalSync::Delete(a.id));
            } else {
                r.push(GoalSync::UpdateLastPlayed(a.id, game_last_played));
            }
        }
    }
    proof {
        assert(visited.take(visited.len() as int) == visited);
    }
    r
}

/// The cached completion of a game: the last cached row with its id, as
/// collecting the cache into a map by id keeps it.
pub open spec fn cached_for(cache: Seq<GameCompletion>, app: i32) -> Option<GameCompletion> {
    if exists|i: int| 0 <= i < cache.len() && cache[i].app_id == app && forall|j: int| i < j < cache.len() ==> cache[j].app_id != app {
        let i = choose|i: int|
            0 <= i < cache.len() && cache[i].app_id == app && forall|j: int| i < j < cache.len() ==> cache[j].app_id != app;
        Some(cache[i])
    } else {
        None
    }
}

/// A game's completion must be fetched again unless it is cached and has
/// not been played since.
pub open spec fn refresh_needed(cache: Seq<GameCompletion>, game: OwnedGame) -> bool {
    !(cached_for(cache, game.appid) matches Some(c) && c.last_played == game.last_played)
}

/// Whether a game's completion must be fetched again.
pub fn needs_refresh(cache: &Vec<GameCompletion>, game: &OwnedGame) -> (r: bool)
    ensures
        r == refresh_needed(cache@, *game),
{
    let mut i: usize = cache.len();
    while i > 0
        invariant
            i <= cache@.len(),
            forall|j: int| i <= j < cache@.len() ==> cache@[j].app_id != game.appid,
        decreases i,
    {
        i -= 1;
        if cache[i].app_id == game.appid {
            proof {
                let k = choose|k: int|
                    0 <= k < cache@.len() && cache@[k].app_id == game.appid && forall|j: int|
                        k < j < cache@.len() ==> cache@[j].app_id != game.appid;
                assert(!(k > i)) by {
                    if k > i {
                        assert(cache@[k].app_id != game.appid);
                    }
                }
                assert(!(i > k));
            }
            return cache[i].last_played != game.last_played;
        }
    }
    true
}

/// The games whose completion must be fetched again, in their order.
pub fn games_to_refresh(games: &Vec<OwnedGame>, cache: &Vec<GameCompletion>) -> (r: Vec<usize>)
    ensures
        forall|k: int| 0 <= k < r@.len() ==> #[trigger] r@[k] < games@.len(),
        forall|k: int, l: int| 0 <= k < l < r@.len() ==> #[trigger] r@[k] < #[trigger] r@[l],
        forall|i: int| 0 <= i < games@.len() ==> (refresh_needed(cache@, #[trigger] games@[i]) <==> r@.contains(i as usize)),
{
    let mut r: Vec<usize> = Vec::new();
    for i in 0..games.len()
        invariant
            forall|k: int| 0 <= k < r@.len() ==> #[trigger] r@[k] < i,
            forall|k: int, l: int| 0 <= k < l < r@.len() ==> #[trigger] r@[k] < #[trigger] r@[l],
            forall|j: int| 0 <= j < i ==> (refresh_needed(cache@, #[trigger] games@[j]) <==> r@.contains(j as usize)),
    {
        let ghost before = r@;
        if needs_refresh(cache, &games[i]) {
            r.push(i);
            proof {
                assert forall|j: int| 0 <= j < i implies (refresh_needed(cache@, #[trigger] games@[j]) <==> r@.contains(j as usize)) by {
                    if before.contains(j as usize) {
                        let k = choose|k: int| 0 <= k < before.len() && before[k] == j as usize;
                        assert(r@[k] == j as usize);
                    }
                    if r@.contains(j as usize) {
                        let k = choose|k: int| 0 <= k < r@.len() && r@[k] == j as usize;
                        assert(k < before.len());
                        assert(before[k] == j as usize);
                    }
                }
                assert(r@[before.len() as int] == i);
            }
        } else {
            proof {
                assert(!r@.contains(i as usize)) by {
                    if r@.contains(i as usize) {
                        let k = choose|k: int| 0 <= k < r@.len() && r@[k] == i as usize;
                    }
                }
            }
        }
    }
    r
}

/// Number of achievements the player has unlocked.
pub open spec fn achieved_count(player: Seq<PlayerAchievement>) -> nat
    decreases player.len(),
{
    if player.len() == 0 {
        0
    } else {
        achieved_count(player.drop_last()) + if player.last().achieved {
            1nat
        } else {
            0nat
        }
    }
}

proof fn lemma_achieved_count_bounded(player: Seq<PlayerAchievement>)
    ensures
        achieved_count(player) <= player.len(),
    decreases player.len(),
{
    if player.len() > 0 {
        lemma_achieved_count_bounded(player.drop_last());
    }
}

/// The completion to cache for a game: the number of achievements the
/// player unlocked and the number of achievements, as `u32` (both 0 when
/// the game lists no achievements), with the game's last played time.
pub fn completion_record(game: &OwnedGame, achievements: &Option<Vec<PlayerAchievement>>) -> (r: GameCompletion)
    ensures
        r.app_id == game.appid,
        r.last_played == game.last_played,
        match achievements {
            Some(a) => r.achievements_completed == achieved_count(a@) as u32 && r.achievement_count == a@.len() as u32,
            None => r.achievements_completed == 0 && r.achievement_count == 0,
        },
{
    match achievements {
        Some(a) => {
            let mut count: usize = 0;
            for i in 0..a.len()
                invariant
                    count == achieved_count(a@.take(i as int)),
                    count <= i,
            {
                proof {
                    assert(a@.take(i + 1).drop_last() == a@.take(i as int));
                }
                if a[i].achieved {
                    count += 1;
                }
            }
            proof {
                assert(a@.take(a@.len() as int) == a@);
            }
            GameCompletion {
                app_id: game.appid,
                achievements_completed: count as u32,
                last_played: game.last_played,
                achievement_count: a.len() as u32,
            }
        },
        None => GameCompletion { app_id: game.appid, achievements_completed: 0, last_played: game.last_played, achievement_count: 0 },
    }
}

} // verus!

verus! {

/// Adds a game to a list of games unless it is there already.
fn push_new(apps: &mut Vec<i32>, a: i32)
    requires
        old(apps)@.no_duplicates(),
    ensures
        final(apps)@.no_duplicates(),
        forall|b: i32| #[trigger] final(apps)@.contains(b) <==> old(apps)@.contains(b) || b == a,
{
    let mut i: usize = 0;
    while i < apps.len()
        invariant
            apps@ == old(apps)@,
            apps@.no_duplicates(),
            i <= apps@.len(),
            forall|j: int| 0 <= j < i ==> apps@[j] != a,
        decreases apps@.len() - i,
    {
        if apps[i] == a {
            return;
        }
        i += 1;
    }
    let ghost before = apps@;
    apps.push(a);
    proof {
        assert forall|b: i32| #[trigger] apps@.contains(b) <==> before.contains(b) || b == a by {
            if apps@.contains(b) {
                let k = choose|k: int| 0 <= k < apps@.len() && apps@[k] == b;
                if k < before.len() {
                    assert(before[k] == b);
                }
            }
            if before.contains(b) {
                let k = choose|k: int| 0 <= k < before.len() && before[k] == b;
                assert(apps@[k] == b);
            }
            if b == a {
                assert(apps@[before.len() as int] == b);
            }
        }
    }
}

/// The games whose player lists synchronising the exclusions fetches:
/// each game that has an exclusion, once.
pub fn apps_to_fetch_for_exclusions(excluded: &Vec<ExcludedAchievementRecord>) -> (r: Vec<i32>)
    ensures
        r@.no_duplicates(),
        forall|a: i32| #[trigger] r@.contains(a) <==> exists|i: int| 0 <= i < excluded@.len() && #[trigger] excluded@[i].app_id == a,
{
    let mut r: Vec<i32> = Vec::new();
    for i in 0..excluded.len()
        invariant
            r@.no_duplicates(),
            forall|a: i32| #[trigger] r@.contains(a) <==> exists|j: int| 0 <= j < i && #[trigger] excluded@[j].app_id == a,
    {
        push_new(&mut r, excluded[i].app_id);
        proof {
            assert forall|a: i32| #[trigger] r@.contains(a) <==> exists|j: int| 0 <= j < i + 1 && #[trigger] excluded@[j].app_id == a by {
                if a == excluded@[i as int].app_id {
                    assert(excluded@[i as int].app_id == a);
                }
            }
        }
    }
    r
}

/// The goal's game has been played since the goal was last checked.
pub open spec fn played_since(g: AchievementRecord, owned: Seq<OwnedGame>) -> bool {
    owned_for(owned, g.app_id)->0.last_played != g.last_played
}

/// Whether every goal's game is owned.
pub fn goal_games_owned(goals: &Vec<AchievementRecord>, owned: &Vec<OwnedGame>) -> (r: bool)
    ensures
        r == forall|i: int| 0 <= i < goals@.len() ==> owned_for(owned@, #[trigger] goals@[i].app_id) is Some,
{
    for i in 0..goals.len()
        invariant
            forall|j: int| 0 <= j < i ==> owned_for(owned@, #[trigger] goals@[j].app_id) is Some,
    {
        if owned_index(owned, goals[i].app_id).is_none() {
            return false;
        }
    }
    true
}

/// The games whose player lists synchronising the goals fetches: each game
/// of a goal that has been played since the goal was checked, once.
pub fn apps_to_fetch_for_goals(goals: &Vec<AchievementRecord>, owned: &Vec<OwnedGame>) -> (r: Vec<i32>)
    requires
        forall|i: int| 0 <= i < goals@.len() ==> owned_for(owned@, #[trigger] goals@[i].app_id) is Some,
    ensures
        r@.no_duplicates(),
        forall|a: i32| #[trigger] r@.contains(a) <==> exists|i: int|
            0 <= i < goals@.len() && #[trigger] goals@[i].app_id == a && played_since(goals@[i], owned@),
{
    let mut r: Vec<i32> = Vec::new();
    for i in 0..goals.len()
        invariant
            forall|i: int| 0 <= i < goals@.len() ==> owned_for(owned@, #[trigger] goals@[i].app_id) is Some,
            r@.no_duplicates(),
            forall|a: i32| #[trigger] r@.contains(a) <==> exists|j: int|
                0 <= j < i && #[trigger] goals@[j].app_id == a && played_since(goals@[j], owned@),
    {
        let g = &goals[i];
        let k = owned_index(owned, g.app_id).unwrap();
        if owned[k].last_played != g.last_played {
            push_new(&mut r, g.app_id);
        }
        proof {
            assert forall|a: i32| #[trigger] r@.contains(a) <==> exists|j: int|
                0 <= j < i + 1 && #[trigger] goals@[j].app_id == a && played_since(goals@[j], owned@) by {
                if a == goals@[i as int].app_id && played_since(goals@[i as int], owned@) {
                    assert(goals@[i as int].app_id == a);
                }
            }
        }
    }
    r
}

/// Whether the inputs that synchronising the goals needs are there: every
/// goal's game is owned, and each goal whose game has been played since
/// has an entry in the player's fetched list for its game.
pub fn goal_sync_ready(
    goals: &Vec<AchievementRecord>,
    owned: &Vec<OwnedGame>,
    fetched: &Vec<(i32, Vec<PlayerAchievement>)>,
) -> (r: bool)
    ensures
        r == forall|i: int| 0 <= i < goals@.len() ==> goal_sync_inputs(#[trigger] goals@[i], owned@, fetched@),
{
    for i in 0..goals.len()
        invariant
            forall|j: int| 0 <= j < i ==> goal_sync_inputs(#[trigger] goals@[j], owned@, fetched@),
    {
        let g = &goals[i];
        let k = match owned_index(owned, g.app_id) {
            Some(k) => k,
            None => {
                assert(!goal_sync_inputs(goals@[i as int], owned@, fetched@));
                return false;
            },
        };
        if owned[k].last_played != g.last_played {
            match fetched_index(fetched, g.app_id) {
                Some(f) => {
                    if find_player_entry(&fetched[f].1, &g.achievement_name).is_none() {
                        assert(!goal_sync_inputs(goals@[i as int], owned@, fetched@));
                        return false;
                    }
                },
                None => {
                    assert(!goal_sync_inputs(goals@[i as int], owned@, fetched@));
                    return false;
                },
            }
        }
    }
    true
}

/// Whether the player's list of each game with an exclusion was fetched.
pub fn exclusions_fetched(excluded: &Vec<ExcludedAchievementRecord>, fetched: &Vec<(i32, Vec<PlayerAchievement>)>) -> (r: bool)
    ensures
        r == forall|i: int| 0 <= i < excluded@.len() ==> fetched_for(fetched@, #[trigger] excluded@[i].app_id) is Some,
{
    for i in 0..excluded.len()
        invariant
            forall|j: int| 0 <= j < i ==> fetched_for(fetched@, #[trigger] excluded@[j].app_id) is Some,
    {
        if fetched_index(fetched, excluded[i].app_id).is_none() {
            return false;
        }
    }
    true
}

} // verus!

verus! {

/// Law: which achievements can be drawn. The candidates of game `app` are
/// achievements of the player's list, in its order, and an achievement of
/// the list is among them exactly when the player has not unlocked it, no
/// goal of game `app` names it and no exclusion of game `app` names it;
/// goals and exclusions of other games do not count.
pub proof fn lemma_candidates_law(
    player: Seq<PlayerAchievement>,
    app: i32,
    goals: Seq<AchievementRecord>,
    excluded: Seq<ExcludedAchievementRecord>,
    c: Seq<PlayerAchievement>,
)
    requires
        c == candidates(player, app, goals, excluded),
    ensures
        c.len() <= player.len(),
        forall|k: int| 0 <= k < c.len() ==> player.contains(#[trigger] c[k]),
        forall|k: int|
            0 <= k < c.len() ==> {
                &&& !(#[trigger] c[k]).achieved
                &&& forall|j: int| 0 <= j < goals.len() ==> !(#[trigger] goals[j].app_id == app && goals[j].achievement_name@ == c[k].name@)
                &&& forall|j: int| 0 <= j < excluded.len() ==> !(#[trigger] excluded[j].app_id == app && excluded[j].achievement_name@ == c[k].name@)
            },
        forall|i: int|
            0 <= i < player.len() && !player[i].achieved && (forall|j: int|
                0 <= j < goals.len() ==> !(#[trigger] goals[j].app_id == app && goals[j].achievement_name@ == player[i].name@))
                && (forall|j: int|
                0 <= j < excluded.len() ==> !(#[trigger] excluded[j].app_id == app && excluded[j].achievement_name@ == player[i].name@))
                ==> c.contains(#[trigger] player[i]),
{
    let pred = |a: PlayerAchievement| is_candidate(a, app, goals, excluded);
    player.lemma_filter_len(pred);
    assert forall|k: int| 0 <= k < c.len() implies player.contains(#[trigger] c[k]) by {
        assert(c.contains(c[k]));
        player.lemma_filter_contains_rev(pred, c[k]);
    }
    assert forall|k: int| 0 <= k < c.len() implies {
        &&& !(#[trigger] c[k]).achieved
        &&& forall|j: int| 0 <= j < goals.len() ==> !(#[trigger] goals[j].app_id == app && goals[j].achievement_name@ == c[k].name@)
        &&& forall|j: int| 0 <= j < excluded.len() ==> !(#[trigger] excluded[j].app_id == app && excluded[j].achievement_name@ == c[k].name@)
    } by {
        player.lemma_filter_pred(pred, k);
        assert(is_candidate(c[k], app, goals, excluded));
    }
    assert forall|i: int|
        0 <= i < player.len() && !player[i].achieved && (forall|j: int|
            0 <= j < goals.len() ==> !(#[trigger] goals[j].app_id == app && goals[j].achievement_name@ == player[i].name@))
            && (forall|j: int|
            0 <= j < excluded.len() ==> !(#[trigger] excluded[j].app_id == app && excluded[j].achievement_name@ == player[i].name@))
        implies c.contains(#[trigger] player[i]) by {
        assert(!is_goal(goals, app, player[i].name@));
        assert(!is_excluded(excluded, app, player[i].name@));
        player.lemma_filter_contains(pred, i);
    }
}

/// Law: what a draw gives. Without a player list nothing is drawn. With
/// one, nothing is drawn exactly when no achievement of the list is
/// locked and named by no goal and no exclusion of the same game; a drawn
/// goal is the schema entry of such an achievement.
pub proof fn lemma_draw_law(
    player: Option<Vec<PlayerAchievement>>,
    app: i32,
    schema: Seq<GameAchievement>,
    goals: Seq<AchievementRecord>,
    excluded: Seq<ExcludedAchievementRecord>,
    r: Result<Option<GameAchievement>, DrawError>,
)
    requires
        match player {
            None => r == Ok::<Option<GameAchievement>, DrawError>(None),
            Some(p) => {
                let c = candidates(p@, app, goals, excluded);
                &&& c.len() == 0 ==> r == Ok::<Option<GameAchievement>, DrawError>(None)
                &&& c.len() > 0 ==> exists|k: int|
                    0 <= k < c.len() && r == match drawn_result(schema, #[trigger] c[k]) {
                        Ok(g) => Ok::<Option<GameAchievement>, DrawError>(Some(g)),
                        Err(e) => Err(e),
                    }
            },
        },
    ensures
        player is None ==> r == Ok::<Option<GameAchievement>, DrawError>(None),
        player matches Some(p) ==> (r == Ok::<Option<GameAchievement>, DrawError>(None) <==> forall|i: int|
            0 <= i < p@.len() ==> !{
                &&& !(#[trigger] p@[i]).achieved
                &&& forall|j: int| 0 <= j < goals.len() ==> !(#[trigger] goals[j].app_id == app && goals[j].achievement_name@ == p@[i].name@)
                &&& forall|j: int| 0 <= j < excluded.len() ==> !(#[trigger] excluded[j].app_id == app && excluded[j].achievement_name@ == p@[i].name@)
            }),
        player matches Some(p) ==> (r matches Ok(Some(g)) ==> exists|i: int|
            0 <= i < p@.len() && !(#[trigger] p@[i]).achieved && g.name@ == p@[i].name@
                && (forall|j: int| 0 <= j < goals.len() ==> !(#[trigger] goals[j].app_id == app && goals[j].achievement_name@ == p@[i].name@))
                && (forall|j: int| 0 <= j < excluded.len() ==> !(#[trigger] excluded[j].app_id == app && excluded[j].achievement_name@ == p@[i].name@))),
{
    if let Some(p) = player {
        let c = candidates(p@, app, goals, excluded);
        lemma_candidates_law(p@, app, goals, excluded, c);
        if c.len() > 0 {
            let k = choose|k: int|
                0 <= k < c.len() && r == match drawn_result(schema, #[trigger] c[k]) {
                    Ok(g) => Ok::<Option<GameAchievement>, DrawError>(Some(g)),
                    Err(e) => Err(e),
                };
            assert(p@.contains(c[k]));
            let i = choose|i: int| 0 <= i < p@.len() && p@[i] == c[k];
            assert(p@[i] == c[k]);
            if let Ok(Some(g)) = r {
                assert(schema_index(schema, c[k].name@) is Some);
                let s = schema_index(schema, c[k].name@)->0;
                assert(g == schema[s]);
                assert(schema[s].name@ == c[k].name@);
                assert(!c[k].achieved);
                assert(0 <= i < p@.len() && !(p@[i]).achieved && g.name@ == p@[i].name@
                    && (forall|j: int| 0 <= j < goals.len() ==> !(#[trigger] goals[j].app_id == app && goals[j].achievement_name@ == p@[i].name@))
                    && (forall|j: int| 0 <= j < excluded.len() ==> !(#[trigger] excluded[j].app_id == app && excluded[j].achievement_name@ == p@[i].name@)));
            }
            assert(r != Ok::<Option<GameAchievement>, DrawError>(None));
        } else {
            assert forall|i: int| 0 <= i < p@.len() implies !{
                &&& !(#[trigger] p@[i]).achieved
                &&& forall|j: int| 0 <= j < goals.len() ==> !(#[trigger] goals[j].app_id == app && goals[j].achievement_name@ == p@[i].name@)
                &&& forall|j: int| 0 <= j < excluded.len() ==> !(#[trigger] excluded[j].app_id == app && excluded[j].achievement_name@ == p@[i].name@)
            } by {
                if c.contains(p@[i]) {
                    let k = choose|k: int| 0 <= k < c.len() && c[k] == p@[i];
                }
            }
        }
    }
}

} // verus!

verus! {

/// The number of exclusions of a game is the number of exclusion rows
/// that name it.
proof fn lemma_excluded_count_rows(rows: Seq<ExcludedAchievementRecord>, app_id: i32)
    ensures
        excluded_count(rows, app_id) == rows.filter(|e: ExcludedAchievementRecord| e.app_id == app_id).len(),
    decreases rows.len(),
{
    reveal(Seq::filter);
    if rows.len() > 0 {
        lemma_excluded_count_rows(rows.drop_last(), app_id);
    }
}

/// The completion row that gives a game's progress is its last row with
/// some unlocked achievement, some achievement at all, or exclusions.
proof fn lemma_progress_row(rows: Seq<GameCompletion>, excluded: Seq<ExcludedAchievementRecord>, a: i32)
    ensures
        match progress_row(rows, excluded, a) {
            Some(row) => exists|i: int|
                0 <= i < rows.len() && #[trigger] rows[i] == row && row.app_id == a && (row.achievements_completed != 0
                    || row.achievement_count > 0 || excluded_count(excluded, a) > 0) && forall|j: int|
                    i < j < rows.len() && #[trigger] rows[j].app_id == a ==> rows[j].achievements_completed == 0
                        && rows[j].achievement_count == 0 && excluded_count(excluded, a) == 0,
            None => forall|i: int|
                0 <= i < rows.len() && #[trigger] rows[i].app_id == a ==> rows[i].achievements_completed == 0
                    && rows[i].achievement_count == 0 && excluded_count(excluded, a) == 0,
        },
    decreases rows.len(),
{
    if rows.len() > 0 {
        let d = rows.drop_last();
        lemma_progress_row(d, excluded, a);
        assert forall|i: int| 0 <= i < d.len() implies #[trigger] rows[i] == d[i] by {}
        let n = rows.len() - 1;
        if rows.last().app_id == a && shows_progress(rows.last(), excluded) {
            assert(rows[n] == rows.last());
        } else if let Some(row) = progress_row(d, excluded, a) {
            let i = choose|i: int|
                0 <= i < d.len() && #[trigger] d[i] == row && row.app_id == a && (row.achievements_completed != 0
                    || row.achievement_count > 0 || excluded_count(excluded, a) > 0) && forall|j: int|
                    i < j < d.len() && #[trigger] d[j].app_id == a ==> d[j].achievements_completed == 0
                        && d[j].achievement_count == 0 && excluded_count(excluded, a) == 0;
            assert(rows[i] == row);
            assert forall|j: int| i < j < rows.len() && #[trigger] rows[j].app_id == a implies rows[j].achievements_completed == 0
                && rows[j].achievement_count == 0 && excluded_count(excluded, a) == 0 by {
                if j < n {
                    assert(d[j] == rows[j]);
                }
            }
        } else {
            assert forall|i: int| 0 <= i < rows.len() && #[trigger] rows[i].app_id == a implies rows[i].achievements_completed == 0
                && rows[i].achievement_count == 0 && excluded_count(excluded, a) == 0 by {
                if i < n {
                    assert(d[i] == rows[i]);
                }
            }
        }
    }
}

/// Law: what a game's progress is. A game has progress exactly when one of
/// its completion rows has an unlocked achievement or any achievement at
/// all, or the game has an exclusion. Its progress is then taken from its
/// last such row (the last row of the game at all, when it has an
/// exclusion): the total is the row's achievement count and the
/// unlocked count is the row's unlocked count, whether or not the game has
/// exclusions; the excluded count is the number of exclusion rows of the
/// game.
pub proof fn lemma_progress_law(
    completions: Seq<GameCompletion>,
    excluded: Seq<ExcludedAchievementRecord>,
    r: Map<i32, AchievementProgress>,
    a: i32,
)
    requires
        excluded.len() <= u32::MAX,
        forall|a: i32| #[trigger] r.contains_key(a) <==> progress_row(completions, excluded, a) is Some,
        forall|a: i32| #[trigger] r.contains_key(a) ==> r[a] == progress_of(progress_row(completions, excluded, a)->0, excluded),
    ensures
        r.contains_key(a) <==> exists|i: int|
            0 <= i < completions.len() && #[trigger] completions[i].app_id == a && (completions[i].achievements_completed != 0
                || completions[i].achievement_count > 0 || exists|e: int| 0 <= e < excluded.len() && #[trigger] excluded[e].app_id == a),
        r.contains_key(a) ==> r[a].excluded == excluded.filter(|e: ExcludedAchievementRecord| e.app_id == a).len(),
        r.contains_key(a) ==> exists|i: int|
            0 <= i < completions.len() && #[trigger] completions[i].app_id == a
                && r[a].total == completions[i].achievement_count
                && r[a].unlocked == completions[i].achievements_completed
                && forall|j: int|
                i < j < completions.len() && #[trigger] completions[j].app_id == a ==> completions[j].achievements_completed == 0
                    && completions[j].achievement_count == 0 && !exists|e: int|
                    0 <= e < excluded.len() && #[trigger] excluded[e].app_id == a,
{
    lemma_progress_row(completions, excluded, a);
    lemma_excluded_count_positive(excluded, a);
    lemma_excluded_count_rows(excluded, a);
    lemma_excluded_count_bounded(excluded, a);
    assert(excluded.filter(|e: ExcludedAchievementRecord| e.app_id == a).len() <= excluded.len());
    if r.contains_key(a) {
        let row = progress_row(completions, excluded, a)->0;
        let i = choose|i: int|
            0 <= i < completions.len() && #[trigger] completions[i] == row && row.app_id == a && (row.achievements_completed != 0
                || row.achievement_count > 0 || excluded_count(excluded, a) > 0) && forall|j: int|
                i < j < completions.len() && #[trigger] completions[j].app_id == a ==> completions[j].achievements_completed == 0
                    && completions[j].achievement_count == 0 && excluded_count(excluded, a) == 0;
        assert(completions[i].app_id == a);
        assert(r[a].excluded == excluded_count(excluded, a));
    }
}

} // verus!
