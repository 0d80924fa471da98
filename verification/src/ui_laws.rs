//! Laws of what the views show: the achievement totals of the trophy case,
//! the states of a game view's achievements, and the goals view's goals.

use vstd::prelude::*;
use crate::achievements::{string_views, GameAchievement, ModuleGoal};
use crate::module::{Game, Module};
use crate::sort::{lemma_stable_order_covers, stable_order};
use crate::goals::AchievementProgress;
use crate::ui::{
    enumerates, game_index, goal_count, goal_order, goal_state_of, module_listed, progress_sums, same_module,
    shows_achievement, shows_goal, state_keys, GameGoalDisplay, Goal, GoalState, TotalAchievementProgress,
};

verus! {

/// Law: the achievement totals add up the games' counts. With no game
/// every total is 0; with one game, `a`, the totals are that game's
/// total, unlocked and excluded counts.
pub proof fn lemma_progress_totals_law(
    progress: Map<i32, AchievementProgress>,
    r: TotalAchievementProgress,
    a: i32,
)
    requires
        (exists|e: Seq<(i32, AchievementProgress)>|
            #[trigger] enumerates(e, progress) && progress_sums(e) == (
                r.total_achievements as int,
                r.unlocked_achievements as int,
                r.total_excluded as int,
            )),
    ensures
        (forall|b: i32| !progress.dom().contains(b)) ==> r.total_achievements == 0 && r.unlocked_achievements == 0
            && r.total_excluded == 0,
        (forall|b: i32| #[trigger] progress.dom().contains(b) <==> b == a) ==> r.total_achievements == progress[a].total
            && r.unlocked_achievements == progress[a].unlocked && r.total_excluded == progress[a].excluded,
{
    let e = choose|e: Seq<(i32, AchievementProgress)>|
        #[trigger] enumerates(e, progress) && progress_sums(e) == (
            r.total_achievements as int,
            r.unlocked_achievements as int,
            r.total_excluded as int,
        );
    e.unique_seq_to_set();
    let none = forall|b: i32| !progress.dom().contains(b);
    if none {
        assert(progress.kv_pairs() =~= Set::empty()) by {
            assert forall|x: (i32, AchievementProgress)| !progress.kv_pairs().contains(x) by {
                if progress.kv_pairs().contains(x) {
                    assert(progress.dom().contains(x.0));
                }
            }
        }
        assert(e.len() == 0);
    }
    let single = forall|b: i32| #[trigger] progress.dom().contains(b) <==> b == a;
    if single {
        lemma_single_game_totals(progress, e, a);
    }
}

proof fn lemma_single_game_totals(progress: Map<i32, AchievementProgress>, entries: Seq<(i32, AchievementProgress)>, a: i32)
    requires
        enumerates(entries, progress),
        (forall|b: i32| #[trigger] progress.dom().contains(b) <==> b == a),
    ensures
        progress_sums(entries).0 == progress[a].total,
        progress_sums(entries).1 == progress[a].unlocked,
        progress_sums(entries).2 == progress[a].excluded,
{
    let x = (a, progress[a]);
    assert(progress.dom().contains(a));
    assert(progress.kv_pairs() =~= set![x]) by {
        assert forall|y: (i32, AchievementProgress)| progress.kv_pairs().contains(y) <==> y == x by {
            if progress.kv_pairs().contains(y) {
                assert(progress.dom().contains(y.0));

            }
        }
    }
    entries.unique_seq_to_set();
    assert(set![x].len() == 1) by {
        assert(set![x] == Set::<(i32, AchievementProgress)>::empty().insert(x));
    }
    assert(entries.len() == 1);
    assert(entries.to_set().contains(entries[0]));
    assert(entries[0] == x);
    assert(entries.drop_last().len() == 0);
    assert(progress_sums(entries.drop_last()) == (0int, 0int, 0int));
    assert(entries.last() == x);
}

/// Some exclusion names the achievement `id`.
pub open spec fn excluded_names(excluded: Seq<String>, id: Seq<char>) -> bool {
    exists|x: int| 0 <= x < excluded.len() && #[trigger] excluded[x]@ == id
}

/// Some goal names the achievement `id`.
pub open spec fn goal_names(goals: Seq<ModuleGoal>, id: Seq<char>) -> bool {
    exists|g: int| 0 <= g < goals.len() && (#[trigger] goals[g] matches ModuleGoal::STEAM(s) && s.achievement_name@ == id)
}

/// `d` shows the achievement `a` in the state the rule gives: complete
/// when unlocked, whatever the tables hold; else excluded when an
/// exclusion names it; else a goal when a goal names it; else open.
pub open spec fn shown_by_rule(d: GameGoalDisplay, a: GameAchievement, excluded: Seq<String>, goals: Seq<ModuleGoal>) -> bool {
    &&& d.achievement_name@ == a.id@
    &&& d.display_name@ == a.display_name@
    &&& a.achieved ==> d.goal_state == GoalState::Complete
    &&& !a.achieved && excluded_names(excluded, a.id@) ==> d.goal_state == GoalState::Excluded
    &&& !a.achieved && !excluded_names(excluded, a.id@) && goal_names(goals, a.id@) ==> d.goal_state == GoalState::Goal
    &&& !a.achieved && !excluded_names(excluded, a.id@) && !goal_names(goals, a.id@) ==> d.goal_state
        == GoalState::Incomplete
}

proof fn lemma_shown_state(a: GameAchievement, d: GameGoalDisplay, excluded: Seq<String>, goals: Seq<ModuleGoal>)
    requires
        shows_achievement(d, a, goal_state_of(a, string_views(excluded), goals)),
    ensures
        shown_by_rule(d, a, excluded, goals),
{
    let ex = string_views(excluded);
    assert(ex.contains(a.id@) <==> excluded_names(excluded, a.id@)) by {
        if ex.contains(a.id@) {
            let x = choose|x: int| 0 <= x < ex.len() && ex[x] == a.id@;
            assert(excluded[x]@ == a.id@);
        }
        if excluded_names(excluded, a.id@) {
            let x = choose|x: int| 0 <= x < excluded.len() && #[trigger] excluded[x]@ == a.id@;
            assert(ex[x] == a.id@);
        }
    }
}

/// The place of a state in the game view's order: goals first, then the
/// open achievements, the unlocked ones and the excluded ones.
pub open spec fn state_place(s: GoalState) -> int {
    match s {
        GoalState::Goal => 0,
        GoalState::Incomplete => 1,
        GoalState::Complete => 2,
        GoalState::Excluded => 3,
    }
}

/// Law: what state the game view shows for an achievement. Every one of
/// the game's achievements is shown, and every shown achievement is one of
/// them, with its display name, in the state the rule gives: an unlocked
/// achievement shows as complete, whatever the goal and exclusion tables
/// hold; a locked one that is excluded shows as excluded; a locked one
/// that is not excluded and that a goal names shows as a goal; any other
/// shows as open.
#[verifier::spinoff_prover]
pub proof fn lemma_display_states_law(
    achievements: Seq<GameAchievement>,
    excluded: Seq<String>,
    goals: Seq<ModuleGoal>,
    shown: Seq<GameGoalDisplay>,
) -> (order: Seq<usize>)
    requires
        (exists|order: Seq<usize>|
            {
                &&& #[trigger] stable_order(state_keys(achievements, string_views(excluded), goals), order)
                &&& shown.len() == order.len()
                &&& forall|k: int|
                    0 <= k < order.len() ==> shows_achievement(
                        #[trigger] shown[k],
                        achievements[order[k] as int],
                        goal_state_of(achievements[order[k] as int], string_views(excluded), goals),
                    )
            }),
    ensures
        shown.len() == achievements.len(),
        order.len() == shown.len(),
        forall|k: int|
            0 <= k < shown.len() ==> order[k] < achievements.len() && shown_by_rule(
                #[trigger] shown[k],
                achievements[order[k] as int],
                excluded,
                goals,
            ),
        forall|i: usize| i < achievements.len() ==> #[trigger] order.contains(i),
        forall|k: int, l: int|
            0 <= k < l < shown.len() ==> state_place(#[trigger] shown[k].goal_state) <= state_place(
                #[trigger] shown[l].goal_state,
            ),
{
    let ex = string_views(excluded);
    let keys = state_keys(achievements, ex, goals);
    let order = choose|order: Seq<usize>|
        {
            &&& #[trigger] stable_order(state_keys(achievements, string_views(excluded), goals), order)
            &&& shown.len() == order.len()
            &&& forall|k: int|
                0 <= k < order.len() ==> shows_achievement(
                    #[trigger] shown[k],
                    achievements[order[k] as int],
                    goal_state_of(achievements[order[k] as int], string_views(excluded), goals),
                )
        };
    assert(keys.len() == achievements.len());
    assert forall|i: usize| i < achievements.len() implies #[trigger] order.contains(i) by {
        lemma_stable_order_covers(keys, order, i as int);
    }
    assert forall|k: int, l: int| 0 <= k < l < shown.len() implies state_place(#[trigger] shown[k].goal_state)
        <= state_place(#[trigger] shown[l].goal_state) by {
        assert(shows_achievement(shown[k], achievements[order[k] as int], goal_state_of(achievements[order[k] as int], ex, goals)));
        assert(shows_achievement(shown[l], achievements[order[l] as int], goal_state_of(achievements[order[l] as int], ex, goals)));
        assert(crate::sort::key_before(keys, order[k] as int, order[l] as int));
    }
    assert forall|k: int| 0 <= k < shown.len() implies order[k] < achievements.len() && shown_by_rule(
        #[trigger] shown[k],
        achievements[order[k] as int],
        excluded,
        goals,
    ) by {
        lemma_shown_state(achievements[order[k] as int], shown[k], excluded, goals);
    }
    order
}

/// Law: how the goals view shows each goal. At the place of the `k`th goal
/// of module `p`'s block, the goals view shows a goal of that module (the
/// `j`th, `j` handed back) with that goal's own display name, API name
/// and description ("-" when it has none), of its game, and with the name
/// of the owned game it belongs to.
pub proof fn lemma_goal_list_law(
    listed: Seq<Goal>,
    module_goals: Seq<(Module, Vec<ModuleGoal>)>,
    games: Seq<Game>,
    p: int,
    k: int,
) -> (j: int)
    requires
        0 <= p < module_goals.len(),
        0 <= k < module_goals[p].1@.len(),
        module_listed(listed, module_goals, games, p),
    ensures
        0 <= j < module_goals[p].1@.len(),
        module_goals[p].1@[j] matches ModuleGoal::STEAM(a) && listed[goal_count(module_goals, p) + k].display_name@
            == a.display_name@ && listed[goal_count(module_goals, p) + k].achievement_name@ == a.achievement_name@
            && listed[goal_count(module_goals, p) + k].description@ == (match a.description {
                Some(t) => t@,
                None => "-"@,
            }) && listed[goal_count(module_goals, p) + k].id.id == a.game_id && (game_index(games, module_goals[p].0, a.game_id)
            matches Some(g) ==> 0 <= g < games.len() && games[g].identifier.id == a.game_id
            && listed[goal_count(module_goals, p) + k].game_name@ == games[g].name@),
{
    let goals = module_goals[p].1@;
    let m = module_goals[p].0;
    let base = goal_count(module_goals, p);
    let order = choose|order: Seq<usize>|
        {
            &&& #[trigger] goal_order(goals, order)
            &&& forall|k: int| 0 <= k < order.len() ==> shows_goal(listed[base + k], goals[order[k] as int], m, games)
        };
    let j = order[k] as int;
    assert(shows_goal(listed[base + k], goals[j], m, games));
    let ModuleGoal::STEAM(a) = goals[j];
    if game_index(games, m, a.game_id) is Some {
        assert(exists|i: int|
            0 <= i < games.len() && games[i].identifier.id == a.game_id && same_module(games[i].identifier.module, m)
                && forall|j: int| i < j < games.len() ==> !(games[j].identifier.id == a.game_id && same_module(games[j].identifier.module, m)));
    }
    j
}

/// Taking an entry out of a list takes its counts out of the sums.
proof fn lemma_sums_remove(e: Seq<(i32, AchievementProgress)>, i: int)
    requires
        0 <= i < e.len(),
    ensures
        progress_sums(e).0 == progress_sums(e.remove(i)).0 + e[i].1.total,
        progress_sums(e).1 == progress_sums(e.remove(i)).1 + e[i].1.unlocked,
        progress_sums(e).2 == progress_sums(e.remove(i)).2 + e[i].1.excluded,
    decreases e.len(),
{
    if i == e.len() - 1 {
        assert(e.remove(i) =~= e.drop_last());
    } else {
        lemma_sums_remove(e.drop_last(), i);
        assert(e.remove(i).drop_last() =~= e.drop_last().remove(i));
        assert(e.remove(i).last() == e.last());
    }
}

/// The sums do not depend on the order in which the entries are listed.
proof fn lemma_sums_any_order(e1: Seq<(i32, AchievementProgress)>, e2: Seq<(i32, AchievementProgress)>)
    requires
        e1.no_duplicates(),
        e2.no_duplicates(),
        e1.to_set() == e2.to_set(),
    ensures
        progress_sums(e1) == progress_sums(e2),
    decreases e1.len(),
{
    e1.unique_seq_to_set();
    e2.unique_seq_to_set();
    if e1.len() == 0 {
        assert(e2.len() == 0);
    } else {
        let x = e1.last();
        assert(e1.to_set().contains(x));
        assert(e2.to_set().contains(x));
        let i = choose|i: int| 0 <= i < e2.len() && e2[i] == x;
        let d1 = e1.drop_last();
        let d2 = e2.remove(i);
        assert(d1.no_duplicates()) by {
            assert forall|a: int, b: int| 0 <= a < d1.len() && 0 <= b < d1.len() && a != b implies d1[a] != d1[b] by {
                assert(d1[a] == e1[a] && d1[b] == e1[b]);
            }
        }
        assert(d2.no_duplicates()) by {
            assert forall|a: int, b: int| 0 <= a < d2.len() && 0 <= b < d2.len() && a != b implies d2[a] != d2[b] by {
                let a2 = if a < i { a } else { a + 1 };
                let b2 = if b < i { b } else { b + 1 };
                assert(d2[a] == e2[a2] && d2[b] == e2[b2]);
            }
        }
        assert(d1.to_set() =~= e1.to_set().remove(x)) by {
            assert forall|y| d1.to_set().contains(y) <==> e1.to_set().remove(x).contains(y) by {
                if d1.to_set().contains(y) {
                    let a = choose|a: int| 0 <= a < d1.len() && d1[a] == y;
                    assert(e1[a] == y);
                    assert(y != x) by {
                        if y == x {
                            assert(e1[a] == e1[e1.len() - 1]);
                        }
                    }
                }
                if e1.to_set().remove(x).contains(y) {
                    let a = choose|a: int| 0 <= a < e1.len() && e1[a] == y;
                    assert(a != e1.len() - 1);
                    assert(d1[a] == y);
                }
            }
        }
        assert(d2.to_set() =~= e2.to_set().remove(x)) by {
            assert forall|y| d2.to_set().contains(y) <==> e2.to_set().remove(x).contains(y) by {
                if d2.to_set().contains(y) {
                    let a = choose|a: int| 0 <= a < d2.len() && d2[a] == y;
                    let a2 = if a < i { a } else { a + 1 };
                    assert(e2[a2] == y);
                    assert(a2 != i);
                }
                if e2.to_set().remove(x).contains(y) {
                    let a = choose|a: int| 0 <= a < e2.len() && e2[a] == y;
                    assert(a != i);
                    if a < i {
                        assert(d2[a] == y);
                    } else {
                        assert(d2[a - 1] == y);
                    }
                }
            }
        }
        lemma_sums_any_order(d1, d2);
        lemma_sums_remove(e2, i);
    }
}

/// Law: the achievement totals add up the games' counts, over two calls.
/// The totals of a set of games are the totals without one of them plus
/// that game's total, unlocked and excluded counts.
pub proof fn lemma_progress_totals_add(
    progress: Map<i32, AchievementProgress>,
    r: TotalAchievementProgress,
    rest: TotalAchievementProgress,
    a: i32,
)
    requires
        progress.contains_key(a),
        (exists|e: Seq<(i32, AchievementProgress)>|
            #[trigger] enumerates(e, progress) && progress_sums(e) == (
                r.total_achievements as int,
                r.unlocked_achievements as int,
                r.total_excluded as int,
            )),
        (exists|e: Seq<(i32, AchievementProgress)>|
            #[trigger] enumerates(e, progress.remove(a)) && progress_sums(e) == (
                rest.total_achievements as int,
                rest.unlocked_achievements as int,
                rest.total_excluded as int,
            )),
    ensures
        r.total_achievements == rest.total_achievements + progress[a].total,
        r.unlocked_achievements == rest.unlocked_achievements + progress[a].unlocked,
        r.total_excluded == rest.total_excluded + progress[a].excluded,
{
    let e = choose|e: Seq<(i32, AchievementProgress)>|
        #[trigger] enumerates(e, progress) && progress_sums(e) == (
            r.total_achievements as int,
            r.unlocked_achievements as int,
            r.total_excluded as int,
        );
    let e2 = choose|e: Seq<(i32, AchievementProgress)>|
        #[trigger] enumerates(e, progress.remove(a)) && progress_sums(e) == (
            rest.total_achievements as int,
            rest.unlocked_achievements as int,
            rest.total_excluded as int,
        );
    let x = (a, progress[a]);
    let e3 = e2.push(x);
    assert(!e2.to_set().contains(x)) by {
        if e2.to_set().contains(x) {
            assert(progress.remove(a).kv_pairs().contains(x));
            assert(progress.remove(a).dom().contains(a));
        }
    }
    assert(e3.no_duplicates()) by {
        assert forall|i: int, j: int| 0 <= i < e3.len() && 0 <= j < e3.len() && i != j implies e3[i] != e3[j] by {
            if i < e2.len() && j < e2.len() {
                assert(e3[i] == e2[i] && e3[j] == e2[j]);
            } else if i < e2.len() {
                assert(e3[i] == e2[i]);
                assert(e2.to_set().contains(e2[i]));
            } else {
                assert(e3[j] == e2[j]);
                assert(e2.to_set().contains(e2[j]));
            }
        }
    }
    assert(e3.to_set() =~= progress.kv_pairs()) by {
        assert forall|y: (i32, AchievementProgress)| e3.to_set().contains(y) <==> progress.kv_pairs().contains(y) by {
            if e3.to_set().contains(y) {
                let i = choose|i: int| 0 <= i < e3.len() && e3[i] == y;
                if i < e2.len() {
                    assert(e2[i] == y);
                    assert(e2.to_set().contains(y));
                    assert(progress.remove(a).kv_pairs().contains(y));
                    assert(progress.remove(a).dom().contains(y.0));
                }
            }
            if progress.kv_pairs().contains(y) {
                if y.0 == a {
                    assert(e3[e2.len() as int] == y);
                } else {
                    assert(progress.remove(a).kv_pairs().contains(y)) by {
                        assert(progress.remove(a).dom().contains(y.0));
                    }
                    let i = choose|i: int| 0 <= i < e2.len() && e2[i] == y;
                    assert(e3[i] == y);
                }
            }
        }
    }
    lemma_sums_any_order(e, e3);
    assert(e3.drop_last() == e2);
}

} // verus!
