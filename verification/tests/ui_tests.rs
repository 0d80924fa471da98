use std::collections::HashMap;

use gabe::achievements::{GameAchievement, ModuleGoal, SteamAchievement};
use gabe::game_targets::{GameTarget, TargetStatus};
use gabe::goals::{AchievementProgress, GameCompletionStatus};
use gabe::module::{get_modules, Game, GameIdentifier, Module};
use gabe::ui::{
    game_target_button, goal_from_random_achievement, load_achievement_progress, load_all_goal_icons,
    load_credentials, load_game_display, load_goal_icon, load_trophies, mark_as_goal, CredentialsError, GameListDisplay,
    GameListFilter, Goal, GoalState, TargetControl, TrophyCaseFilter,
};

fn steam() -> Module {
    get_modules(Some("id".to_string()), Some("key".to_string())).remove(0)
}

fn game(id: i32, name: &str) -> Game {
    Game { identifier: GameIdentifier { module: steam(), id }, name: name.to_string(), playtime_forever: Some(1), last_played: 1000 }
}

fn status(complete: bool, perfect: bool) -> GameCompletionStatus {
    GameCompletionStatus { complete, perfect }
}

fn open_target(id: i32) -> GameTarget {
    GameTarget { module: steam(), game_id: id, status: TargetStatus::Target }
}

#[test]
fn credentials_of_the_first_module() {
    let c = load_credentials(&vec![steam()]).unwrap();
    assert_eq!((c.key.as_str(), c.steam_id.as_str()), ("key", "id"));
    assert_eq!(load_credentials(&vec![]).unwrap_err(), CredentialsError::NoSteamCredentials);
}

fn list_ids(filter: GameListFilter, has_achievements: bool, search: Option<&str>) -> Vec<(i32, String)> {
    let games = vec![game(1, "Portal"), game(2, "Portal 2"), game(3, "Half-Life"), game(4, "Dota"), game(5, "Quake")];
    let mut completion = HashMap::new();
    completion.insert(1, status(true, true));
    completion.insert(2, status(true, false));
    completion.insert(3, status(false, true));
    completion.insert(4, status(true, true));
    let mut progress = HashMap::new();
    progress.insert(1, 100i8);
    progress.insert(2, 40i8);
    progress.insert(3, 100i8);
    progress.insert(5, 40i8);
    let targets = vec![open_target(4), GameTarget { module: steam(), game_id: 2, status: TargetStatus::Complete }];
    let r = GameListDisplay::list(&games, &completion, &progress, &targets, has_achievements, filter, search.map(|s| s.to_string()));
    assert_eq!(r.filter, filter);
    assert_eq!(r.has_achievements, has_achievements);
    r.list.iter().map(|d| (d.id, d.progress_display.clone())).collect()
}

#[test]
fn game_lists_filter_and_order_by_progress() {
    assert_eq!(list_ids(GameListFilter::Targets, false, None), vec![(4, "0".to_string())]);
    assert_eq!(
        list_ids(GameListFilter::InProgress, false, None),
        vec![(3, "100".to_string()), (5, "40".to_string()), (4, "0".to_string())]
    );
    assert_eq!(list_ids(GameListFilter::Completed, false, None), vec![(1, "100".to_string()), (2, "40".to_string())]);
    assert_eq!(list_ids(GameListFilter::Perfected, false, None), vec![(1, "100".to_string()), (3, "100".to_string())]);
    assert_eq!(list_ids(GameListFilter::InProgress, true, None), vec![(3, "100".to_string()), (5, "40".to_string())]);
    assert_eq!(list_ids(GameListFilter::Completed, false, Some("portal 2")), vec![(2, "40".to_string())]);
    assert_eq!(list_ids(GameListFilter::Completed, false, Some("ORT")), vec![(1, "100".to_string()), (2, "40".to_string())]);
    assert_eq!(GameListFilter::default(), GameListFilter::InProgress);
}

#[test]
fn trophies_follow_the_filter() {
    let mut completion = HashMap::new();
    completion.insert(1, status(true, true));
    completion.insert(2, status(true, false));
    completion.insert(3, status(false, true));
    let (f, mut ids) = load_trophies(TrophyCaseFilter::Completed, &completion);
    ids.sort();
    assert_eq!((f, ids), (TrophyCaseFilter::Completed, vec![1, 2]));
    let (_, mut ids) = load_trophies(TrophyCaseFilter::Perfected, &completion);
    ids.sort();
    assert_eq!(ids, vec![1, 3]);
}

#[test]
fn achievement_progress_totals() {
    let mut progress = HashMap::new();
    progress.insert(1, AchievementProgress { total: 10, unlocked: 4, excluded: 1 });
    progress.insert(2, AchievementProgress { total: 5, unlocked: 5, excluded: 0 });
    let t = load_achievement_progress(&progress);
    assert_eq!((t.total_achievements, t.unlocked_achievements, t.total_excluded), (15, 9, 1));
    let t = load_achievement_progress(&HashMap::new());
    assert_eq!(t.total_achievements, 0);
}

fn achievement(id: &str, achieved: bool) -> GameAchievement {
    GameAchievement {
        id: id.to_string(),
        display_name: id.to_lowercase(),
        description: if id == "D" { Some("desc".to_string()) } else { None },
        achieved,
        achieved_icon_id: Some(format!("{}.png", id)),
        unachieved_icon_id: if id == "C" { None } else { Some(format!("{}_g.png", id)) },
    }
}

fn steam_goal(game_id: i32, display: &str, name: &str) -> ModuleGoal {
    ModuleGoal::STEAM(SteamAchievement {
        game_id,
        display_name: display.to_string(),
        achievement_name: name.to_string(),
        description: None,
        last_played: 0,
    })
}

#[test]
fn game_display_orders_states() {
    let achievements = vec![achievement("A", true), achievement("B", false), achievement("C", false), achievement("D", false), achievement("E", false)];
    let excluded = vec!["B".to_string()];
    let goals = vec![steam_goal(7, "d", "D")];
    let id = GameIdentifier { module: steam(), id: 7 };
    let d = load_game_display(&id, "Game".to_string(), &achievements, &excluded, &goals, Some(TargetStatus::Target), None);
    let order: Vec<(&str, GoalState)> = d.goals.iter().map(|g| (g.achievement_name.as_str(), g.goal_state)).collect();
    assert_eq!(
        order,
        vec![("D", GoalState::Goal), ("C", GoalState::Incomplete), ("E", GoalState::Incomplete), ("A", GoalState::Complete), ("B", GoalState::Excluded)]
    );
    assert_eq!(d.goals[0].description, "desc");
    assert_eq!(d.goals[1].description, "-");
    assert!(d.target && !d.complete && !d.game_cover_edit);
    assert_eq!(d.game_cover_url, "");
    assert_eq!(d.id, id);
    let d = load_game_display(&id, "Game".to_string(), &vec![], &vec![], &vec![], Some(TargetStatus::Complete), Some("u".to_string()));
    assert!(d.target && d.complete);
    assert_eq!(d.game_cover_url, "u");
    let d = load_game_display(&id, "Game".to_string(), &vec![], &vec![], &vec![], None, None);
    assert!(!d.target && !d.complete);

    let icons = load_all_goal_icons(&load_game_display(&id, "G".to_string(), &achievements, &excluded, &goals, None, None).goals);
    let urls: Vec<(&str, &str)> = icons.iter().map(|i| (i.achievement_name.as_str(), i.url.as_str())).collect();
    assert_eq!(urls, vec![("D", "D_g.png"), ("E", "E_g.png"), ("A", "A.png"), ("B", "B_g.png")]);
    assert_eq!(load_goal_icon("i".to_string(), "g".to_string(), GoalState::Complete), "i");
    assert_eq!(load_goal_icon("i".to_string(), "g".to_string(), GoalState::Goal), "g");
}

#[test]
fn random_goal_is_shown_as_goal() {
    let achievements = vec![achievement("A", false), achievement("B", false), achievement("A", false)];
    let id = GameIdentifier { module: steam(), id: 7 };
    let mut d = load_game_display(&id, "Game".to_string(), &achievements, &vec![], &vec![], None, None);
    let g = game(7, "Game");
    let ra = achievement("A", false);
    match goal_from_random_achievement(&g, &ra) {
        ModuleGoal::STEAM(a) => {
            assert_eq!((a.achievement_name.as_str(), a.game_id, a.last_played), ("A", 7, 1000));
        },
    }
    mark_as_goal(&mut d, &"A".to_string());
    let states: Vec<GoalState> = d.goals.iter().map(|g| g.goal_state).collect();
    assert_eq!(states, vec![GoalState::Goal, GoalState::Incomplete, GoalState::Incomplete]);
}

#[test]
fn target_controls() {
    assert_eq!(game_target_button(false, false), Some(TargetControl::SetAsGameTarget));
    assert_eq!(game_target_button(true, false), Some(TargetControl::SetGameAsComplete));
    assert_eq!(game_target_button(true, true), None);
}

#[test]
fn goals_view_lists_goals_in_order() {
    let games = vec![game(2, "Two"), game(1, "One")];
    let goals = vec![steam_goal(2, "b", "B"), steam_goal(1, "z", "Z"), steam_goal(2, "a", "A2"), steam_goal(2, "a", "A1")];
    let listed = Goal::list(&vec![(steam(), goals)], &games);
    let names: Vec<(&str, &str)> = listed.iter().map(|g| (g.game_name.as_str(), g.achievement_name.as_str())).collect();
    assert_eq!(names, vec![("One", "Z"), ("Two", "A1"), ("Two", "A2"), ("Two", "B")]);
    assert_eq!(listed[0].description, "-");
    assert_eq!(listed[0].id, GameIdentifier { module: steam(), id: 1 });
}

#[test]
fn in_progress_and_completed_split_the_games() {
    let mut a: Vec<i32> = list_ids(GameListFilter::InProgress, false, None).iter().map(|x| x.0).collect();
    let b: Vec<i32> = list_ids(GameListFilter::Completed, false, None).iter().map(|x| x.0).collect();
    assert!(a.iter().all(|id| !b.contains(id)));
    a.extend(b);
    a.sort();
    assert_eq!(a, vec![1, 2, 3, 4, 5]);
}

#[test]
fn a_search_narrows_a_list_and_ignores_case() {
    let all: Vec<i32> = list_ids(GameListFilter::InProgress, false, None).iter().map(|x| x.0).collect();
    let lower = list_ids(GameListFilter::InProgress, false, Some("ake"));
    let upper = list_ids(GameListFilter::InProgress, false, Some("AKE"));
    assert_eq!(lower, upper);
    assert!(lower.iter().all(|x| all.contains(&x.0)));
    assert_eq!(lower.iter().map(|x| x.0).collect::<Vec<_>>(), vec![5]);
}

#[test]
fn an_empty_search_lists_the_same_games() {
    for filter in [GameListFilter::Targets, GameListFilter::InProgress, GameListFilter::Completed, GameListFilter::Perfected] {
        assert_eq!(list_ids(filter, false, Some("")), list_ids(filter, false, None));
        assert_eq!(list_ids(filter, true, Some("")), list_ids(filter, true, None));
    }
}
