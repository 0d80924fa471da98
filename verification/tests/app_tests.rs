use gabe::achievements::{GameAchievement, ModuleGoal};
use gabe::app_state::{generate_random_achievement, list_slot, owned_by_id, Command, Message, Screen, TrophyPane, UiState};
use gabe::module::{get_modules, Game, GameIdentifier, Module};
use gabe::ui::{
    achievements_done, GameDisplay, GameGoalDisplay, GameListDisplay, GameListFilter, GameListResult, Goal, GoalState,
    TotalAchievementProgress, TrophyCaseFilter,
};

fn steam() -> Module {
    get_modules(Some("id".to_string()), Some("key".to_string())).remove(0)
}

fn owned() -> Vec<Game> {
    vec![
        Game { identifier: GameIdentifier { module: steam(), id: 10 }, name: "Portal".to_string(), playtime_forever: Some(5), last_played: 1 },
        Game { identifier: GameIdentifier { module: steam(), id: 20 }, name: "Quake".to_string(), playtime_forever: None, last_played: 2 },
    ]
}

fn goal_row(name: &str, state: GoalState) -> GameGoalDisplay {
    GameGoalDisplay {
        display_name: name.to_uppercase(),
        description: String::new(),
        goal_state: state,
        achievement_name: name.to_string(),
        icon: None,
        icon_gray: None,
    }
}

fn display(id: i32) -> GameDisplay {
    GameDisplay {
        id: GameIdentifier { module: steam(), id },
        game_name: "Portal".to_string(),
        target: false,
        complete: false,
        goals: vec![goal_row("a", GoalState::Incomplete), goal_row("b", GoalState::Complete)],
        game_cover_edit: false,
        game_cover_url: String::new(),
    }
}

#[test]
fn starts_on_the_welcome_screen_with_nothing_loaded() {
    let s = UiState::new();
    assert_eq!(s.view, Screen::Welcome);
    assert_eq!(s.games.len(), 8);
    assert!(s.games.iter().all(|g| g.is_none()));
    assert!(s.goals.is_none() && s.game_views.is_empty() && s.game_covers.is_empty());
}

#[test]
fn opening_a_game_list_loads_it_with_the_flag_and_search() {
    let mut s = UiState::new();
    let c = s.update(Message::GamesView(GameListFilter::Completed), &owned());
    assert_eq!(s.view, Screen::Games(GameListFilter::Completed));
    assert_eq!(c.len(), 1);
    assert!(matches!(&c[0], Command::LoadGameList { has_achievements: false, filter: GameListFilter::Completed, search } if search.is_empty()));
    let c = s.update(Message::AchievementCheckboxToggled(true), &owned());
    assert!(matches!(&c[0], Command::LoadGameList { has_achievements: true, filter: GameListFilter::Completed, .. }));
    let c = s.update(Message::GameListSearch("port".to_string()), &owned());
    assert!(matches!(&c[0], Command::LoadGameList { has_achievements: true, search, .. } if search == "port"));
}

#[test]
fn searching_outside_a_game_list_loads_nothing() {
    let mut s = UiState::new();
    let c = s.update(Message::GameListSearch("x".to_string()), &owned());
    assert!(c.is_empty());
    assert_eq!(s.game_list_search, "x");
}

#[test]
fn goals_load_once_and_then_each_goal_game() {
    let mut s = UiState::new();
    let c = s.update(Message::GoalsView, &owned());
    assert!(matches!(c.as_slice(), [Command::LoadGoals]));
    let goal = Goal {
        game_name: "Quake".to_string(),
        display_name: "Q".to_string(),
        description: String::new(),
        id: GameIdentifier { module: steam(), id: 20 },
        achievement_name: "q".to_string(),
    };
    let c = s.update(Message::GoalsLoaded(vec![goal]), &owned());
    assert!(matches!(c.as_slice(), [Command::LoadGameDisplay { app_id: 20, game_name }] if game_name == "Quake"));
    let c = s.update(Message::GoalsView, &owned());
    assert!(c.is_empty());
    assert_eq!(s.view, Screen::Goals);
}

#[test]
fn opening_a_game_loads_its_view_and_missing_cover() {
    let mut s = UiState::new();
    let c = s.update(Message::GameView(20), &owned());
    assert_eq!(s.view, Screen::Game(20));
    assert_eq!(c.len(), 2);
    assert!(matches!(&c[0], Command::LoadGameDisplay { app_id: 20, game_name } if game_name == "Quake"));
    assert!(matches!(&c[1], Command::LoadGameCovers(v) if v == &vec![20]));
    let c = s.update(Message::GameCoversLoaded(vec![20]), &owned());
    assert!(c.is_empty());
    let c = s.update(Message::GameView(20), &owned());
    assert_eq!(c.len(), 1);
}

#[test]
fn a_loaded_view_asks_for_the_icons_not_yet_loaded() {
    let mut s = UiState::new();
    let c = s.update(Message::GameLoaded(display(10)), &owned());
    match c.as_slice() {
        [Command::LoadGoalIcons { app_id: 10, achievements }] => {
            let names: Vec<&str> = achievements.iter().map(|g| g.achievement_name.as_str()).collect();
            assert_eq!(names, vec!["a", "b"]);
        },
        other => panic!("unexpected {:?}", other),
    }
    assert!(s.game_views.contains_key(&10));
    s.update(Message::GoalIconsLoaded(vec![(10, "a".to_string())]), &owned());
    let c = s.update(Message::GameLoaded(display(10)), &owned());
    match c.as_slice() {
        [Command::LoadGoalIcons { achievements, .. }] => {
            assert_eq!(achievements.len(), 1);
            assert_eq!(achievements[0].achievement_name, "b");
        },
        other => panic!("unexpected {:?}", other),
    }
    s.update(Message::GoalIconsLoaded(vec![(10, "b".to_string())]), &owned());
    assert!(s.update(Message::GameLoaded(display(10)), &owned()).is_empty());
}

#[test]
fn targets_and_completion_are_saved_then_synchronised() {
    let mut s = UiState::new();
    s.update(Message::GameLoaded(display(10)), &owned());
    let c = s.update(Message::SetAsGameTarget(10), &owned());
    assert!(matches!(c.as_slice(), [Command::SaveGameTarget { app_id: 10, complete: false }, Command::SyncCaches]));
    assert!(s.game_views[&10].target);
    let c = s.update(Message::SetGameAsComplete(10), &owned());
    assert!(matches!(c.as_slice(), [Command::SaveGameTarget { app_id: 10, complete: true }, Command::SyncCaches]));
    assert!(s.game_views[&10].complete);
    let c = s.update(Message::SetGameAsComplete(99), &owned());
    assert_eq!(c.len(), 2);
    assert!(!s.game_views.contains_key(&99));
}

#[test]
fn a_synchronisation_reloads_the_loaded_lists_and_clears_the_trophies() {
    let mut s = UiState::new();
    s.update(Message::GameListSearch("p".to_string()), &owned());
    let list = vec![GameListDisplay { game_name: "Portal".to_string(), progress_display: "50".to_string(), id: 10 }];
    s.update(Message::GamesLoaded(GameListResult { filter: GameListFilter::Perfected, has_achievements: true, list }), &owned());
    s.update(Message::GamesLoaded(GameListResult { filter: GameListFilter::Targets, has_achievements: false, list: vec![] }), &owned());
    assert!(s.games[list_slot(GameListFilter::Perfected, true)].is_some());
    s.update(Message::TrophiesLoaded((TrophyCaseFilter::Completed, vec![10])), &owned());
    assert_eq!(s.completed_trophies, Some(vec![10]));
    let c = s.update(Message::CachesSynced(Ok(())), &owned());
    assert_eq!(c.len(), 2);
    assert!(matches!(&c[0], Command::LoadGameList { has_achievements: false, filter: GameListFilter::Targets, search } if search == "p"));
    assert!(matches!(&c[1], Command::LoadGameList { has_achievements: true, filter: GameListFilter::Perfected, .. }));
    assert!(s.completed_trophies.is_none() && s.perfected_trophies.is_none());
}

#[test]
fn trophies_ask_for_the_missing_covers() {
    let mut s = UiState::new();
    s.update(Message::GameCoversLoaded(vec![10]), &owned());
    let c = s.update(Message::TrophyCaseView(TrophyCaseFilter::Perfected), &owned());
    assert!(matches!(c.as_slice(), [Command::LoadTrophies(TrophyCaseFilter::Perfected), Command::LoadAchievementProgress]));
    let c = s.update(Message::TrophiesLoaded((TrophyCaseFilter::Perfected, vec![10, 20, 30])), &owned());
    assert!(matches!(c.as_slice(), [Command::LoadGameCovers(v)] if v == &vec![20, 30]));
    assert_eq!(s.perfected_trophies, Some(vec![10, 20, 30]));
    let p = TotalAchievementProgress { total_achievements: 4, unlocked_achievements: 2, total_excluded: 1 };
    assert!(s.update(Message::AchievementProgressLoaded(p), &owned()).is_empty());
    assert_eq!(s.achievement_progress.map(|p| p.unlocked_achievements), Some(2));
}

#[test]
fn editing_and_saving_a_cover() {
    let mut s = UiState::new();
    s.update(Message::GameView(10), &owned());
    s.update(Message::GameLoaded(display(10)), &owned());
    assert!(s.update(Message::EditGameCover(10), &owned()).is_empty());
    assert!(s.game_views[&10].game_cover_edit);
    s.update(Message::GameCoverURLInput("http://cover".to_string()), &owned());
    assert_eq!(s.game_views[&10].game_cover_url, "http://cover");
    let c = s.update(Message::SaveGameCover, &owned());
    assert!(matches!(&c[0], Command::SaveGameCover { app_id: 10, url } if url == "http://cover"));
    assert!(matches!(&c[1], Command::LoadGameCovers(v) if v == &vec![10]));
    assert!(!s.game_views[&10].game_cover_edit);
}

#[test]
fn a_random_game_is_an_owned_one() {
    let mut s = UiState::new();
    let c = s.update(Message::RandomGame, &owned());
    let id = match s.view {
        Screen::Game(id) => id,
        other => panic!("unexpected {:?}", other),
    };
    assert!(id == 10 || id == 20);
    assert!(matches!(c.as_slice(), [Command::LoadGameDisplay { app_id, .. }] if *app_id == id));
}

#[test]
fn excluding_saves_reloads_and_synchronises() {
    let mut s = UiState::new();
    let c = s.update(Message::ExcludeAchievement(10, "a".to_string()), &owned());
    assert_eq!(c.len(), 3);
    assert!(matches!(&c[0], Command::SaveExcludedAchievement { app_id: 10, achievement_name } if achievement_name == "a"));
    assert!(matches!(&c[1], Command::LoadGameDisplay { app_id: 10, game_name } if game_name == "Portal"));
    assert!(matches!(&c[2], Command::SyncCaches));
}

#[test]
fn a_drawn_goal_is_saved_and_shown() {
    let mut s = UiState::new();
    s.update(Message::GameLoaded(display(10)), &owned());
    let drawn = GameAchievement {
        id: "a".to_string(),
        display_name: "A".to_string(),
        description: Some("d".to_string()),
        achieved: false,
        achieved_icon_id: None,
        unachieved_icon_id: None,
    };
    let c = s.update(Message::RandomAchievementGenerated(Ok((owned().remove(0), Some(drawn)))), &owned());
    assert_eq!(c.len(), 3);
    match &c[0] {
        Command::SaveAchievementGoal(ModuleGoal::STEAM(a)) => {
            assert_eq!((a.game_id, a.achievement_name.as_str()), (10, "a"));
        },
        other => panic!("unexpected {:?}", other),
    }
    assert!(matches!(&c[1], Command::LoadGoals));
    assert!(matches!(&c[2], Command::LoadGameDisplay { app_id: 10, .. }));
    assert_eq!(s.game_views[&10].goals[0].goal_state, GoalState::Goal);
    assert_eq!(s.game_views[&10].goals[1].goal_state, GoalState::Complete);
    let c = s.update(Message::RandomAchievementGenerated(Ok((owned().remove(1), None))), &owned());
    assert!(matches!(c.as_slice(), [Command::LoadGoals, Command::LoadGameDisplay { app_id: 20, .. }]));
    let c = s.update(Message::GenerateRandomAchievement(20), &owned());
    assert!(matches!(c.as_slice(), [Command::GenerateRandomAchievement(20)]));
}

#[test]
fn a_goal_is_drawn_only_for_an_owned_game() {
    let g = generate_random_achievement(&owned(), 20).unwrap();
    assert_eq!((g.identifier.id, g.name.as_str()), (20, "Quake"));
    assert_eq!(generate_random_achievement(&owned(), 99).unwrap_err(), "No game with that app_id");
}

#[test]
fn handling_a_drawn_goal_without_a_loaded_view() {
    let mut s = UiState::new();
    let game = owned().remove(1);
    assert!(s.handle_generated_random_achievement(&game, None).is_empty());
    let drawn = GameAchievement {
        id: "q".to_string(),
        display_name: "Q".to_string(),
        description: None,
        achieved: false,
        achieved_icon_id: None,
        unachieved_icon_id: None,
    };
    let c = s.handle_generated_random_achievement(&game, Some(drawn));
    match c.as_slice() {
        [Command::SaveAchievementGoal(ModuleGoal::STEAM(a))] => {
            assert_eq!((a.game_id, a.achievement_name.as_str(), a.last_played), (20, "q", 2));
        },
        other => panic!("unexpected {:?}", other),
    }
    assert!(s.game_views.is_empty());
}

#[test]
fn the_views_read_what_is_loaded() {
    let mut s = UiState::new();
    assert!(s.game_list(GameListFilter::Perfected).is_none());
    s.update(Message::GamesLoaded(GameListResult { filter: GameListFilter::Perfected, has_achievements: true, list: vec![] }), &owned());
    assert!(s.game_list(GameListFilter::Perfected).is_none());
    s.update(Message::AchievementCheckboxToggled(true), &owned());
    assert!(s.game_list(GameListFilter::Perfected).is_some());
    assert!(!s.goal_icon_loaded(10, &"a".to_string()));
    s.update(Message::GoalIconsLoaded(vec![(10, "a".to_string())]), &owned());
    assert!(s.goal_icon_loaded(10, &"a".to_string()));
    assert!(!s.goal_icon_loaded(20, &"a".to_string()));
    s.update(Message::GameCoversLoaded(vec![10]), &owned());
    assert_eq!(s.trophy_pane(&owned(), 10), TrophyPane::Cover);
    assert_eq!(s.trophy_pane(&owned(), 20), TrophyPane::Name("Quake".to_string()));
    assert_eq!(s.trophy_pane(&owned(), 30), TrophyPane::Loading);
}

#[test]
fn trophy_progress_counts() {
    let p = TotalAchievementProgress { total_achievements: 10, unlocked_achievements: 4, total_excluded: 3 };
    assert_eq!(achievements_done(&p, TrophyCaseFilter::Completed), 7);
    assert_eq!(achievements_done(&p, TrophyCaseFilter::Perfected), 4);
}

fn game(id: i32, name: &str) -> Game {
    Game { identifier: GameIdentifier { module: steam(), id }, name: name.to_string(), playtime_forever: None, last_played: 0 }
}

#[test]
fn owned_games_keyed_by_id_keep_the_last_game() {
    let games = vec![game(1, "a"), game(2, "b"), game(1, "c"), game(3, "d"), game(2, "e")];
    let keyed = owned_by_id(&games);
    let names: Vec<(i32, &str)> = keyed.iter().map(|g| (g.identifier.id, g.name.as_str())).collect();
    assert_eq!(names, vec![(1, "c"), (3, "d"), (2, "e")]);
    assert!(owned_by_id(&vec![]).is_empty());
}

#[test]
fn the_last_owned_game_of_an_id_counts() {
    let games = vec![game(1, "first"), game(1, "second")];
    assert_eq!(generate_random_achievement(&games, 1).unwrap().name, "second");
    let s = UiState::new();
    assert_eq!(s.trophy_pane(&games, 1), TrophyPane::Name("second".to_string()));
    let mut s = UiState::new();
    let c = s.update(Message::GameView(1), &games);
    assert!(matches!(&c[0], Command::LoadGameDisplay { app_id: 1, game_name } if game_name == "second"));
}

#[test]
fn last_played_times_in_the_timestamp_range() {
    assert_eq!(gabe::time::checked_last_played(0), Some(0));
    assert_eq!(gabe::time::checked_last_played(1_700_000_000), Some(1_700_000_000));
    assert_eq!(gabe::time::checked_last_played(gabe::time::TIMESTAMP_MAX_SECOND), Some(gabe::time::TIMESTAMP_MAX_SECOND));
    assert_eq!(gabe::time::checked_last_played(gabe::time::TIMESTAMP_MIN_SECOND), Some(gabe::time::TIMESTAMP_MIN_SECOND));
    assert_eq!(gabe::time::checked_last_played(gabe::time::TIMESTAMP_MAX_SECOND + 1), None);
    assert_eq!(gabe::time::checked_last_played(gabe::time::TIMESTAMP_MIN_SECOND - 1), None);
    assert_eq!(gabe::time::checked_last_played(i64::MAX), None);
}
