use gabe::goals::{self, AchievementProgress, GameCompletionStatus, GoalSync};
use gabe::steam_api::{GameAchievement, OwnedGame, PlayerAchievement};
use gabe::steam_db::{AchievementRecord, ExcludedAchievementRecord, GameCompletion, GameTargetRecord};

fn completion(app: i32, done: u32, last: i64, count: u32) -> GameCompletion {
    GameCompletion { app_id: app, achievements_completed: done, last_played: last, achievement_count: count }
}

fn target(app: i32, complete: bool) -> GameTargetRecord {
    GameTargetRecord { app_id: app, complete }
}

fn excluded(id: i64, name: &str, app: i32) -> ExcludedAchievementRecord {
    ExcludedAchievementRecord { id, achievement_name: name.to_string(), app_id: app }
}

fn status(complete: bool, perfect: bool) -> GameCompletionStatus {
    GameCompletionStatus { complete, perfect }
}

#[test]
fn completion_of_targets_perfect_games_and_exclusions() {
    let targets = vec![target(1, true), target(2, false), target(3, false)];
    let completions = vec![
        completion(2, 10, 0, 10), // perfect, but an open target
        completion(4, 3, 0, 3),   // perfect
        completion(5, 8, 0, 10),  // two exclusions finish it
        completion(6, 8, 0, 10),  // one exclusion is not enough
        completion(7, 0, 0, 0),   // no achievements
    ];
    let ex = vec![excluded(1, "a", 5), excluded(2, "b", 5), excluded(3, "c", 6)];
    let m = goals::get_game_completion(&targets, &completions, &ex);
    assert_eq!(m.len(), 4);
    assert_eq!(m.get(&1), Some(&status(true, false)));
    assert_eq!(m.get(&2), Some(&status(false, true)));
    assert_eq!(m.get(&4), Some(&status(true, true)));
    assert_eq!(m.get(&5), Some(&status(true, false)));
    assert_eq!(m.get(&3), None);
    assert_eq!(m.get(&6), None);
    assert_eq!(m.get(&7), None);
}

#[test]
fn exclusions_complete_an_open_perfect_target() {
    // Perfect but an open target: its exclusions cover the none left locked
    // only when the count matches.
    let targets = vec![target(2, false)];
    let completions = vec![completion(2, 5, 0, 6)];
    let ex = vec![excluded(1, "a", 2)];
    let m = goals::get_game_completion(&targets, &completions, &ex);
    assert_eq!(m.get(&2), Some(&status(true, false)));
}

#[test]
fn excluded_counts_per_game() {
    let ex = vec![excluded(1, "a", 5), excluded(2, "b", 5), excluded(3, "c", 6)];
    let m = goals::get_excluded_count(&ex);
    assert_eq!(m.len(), 2);
    assert_eq!(m.get(&5), Some(&2));
    assert_eq!(m.get(&6), Some(&1));
    assert!(goals::get_excluded_count(&vec![]).is_empty());
}

#[test]
fn progress_of_games() {
    let completions = vec![completion(1, 2, 0, 10), completion(2, 0, 0, 5), completion(3, 0, 0, 0), completion(4, 0, 0, 0)];
    let ex = vec![excluded(1, "x", 4), excluded(2, "y", 1)];
    let m = goals::get_game_progress(&completions, &ex);
    assert_eq!(m.len(), 3);
    assert_eq!(m.get(&1), Some(&AchievementProgress { total: 10, unlocked: 2, excluded: 1 }));
    assert_eq!(m.get(&2), Some(&AchievementProgress { total: 5, unlocked: 0, excluded: 0 }));
    assert_eq!(m.get(&3), None);
    assert_eq!(m.get(&4), Some(&AchievementProgress { total: 0, unlocked: 0, excluded: 1 }));
}

fn player(name: &str, achieved: bool) -> PlayerAchievement {
    PlayerAchievement { name: name.to_string(), achieved }
}

fn schema(name: &str) -> GameAchievement {
    GameAchievement {
        name: name.to_string(),
        display_name: name.to_lowercase(),
        description: None,
        icon: String::new(),
        icongray: String::new(),
    }
}

fn goal_row(id: i64, name: &str, app: i32, last_played: i64) -> AchievementRecord {
    AchievementRecord {
        id,
        achievement_name: name.to_string(),
        display_name: name.to_string(),
        description: None,
        app_id: app,
        last_played,
    }
}

#[test]
fn random_goal_skips_unlocked_goals_and_exclusions() {
    let p = Some(vec![player("A", true), player("B", false), player("C", false), player("D", false)]);
    let goal_rows = vec![goal_row(1, "B", 10, 0), goal_row(2, "D", 11, 0)];
    let ex = vec![excluded(1, "C", 10)];
    let sch = vec![schema("A"), schema("B"), schema("C"), schema("D")];
    let candidates = goals::goal_candidates(p.as_ref().unwrap(), 10, &goal_rows, &ex);
    assert_eq!(candidates.len(), 1);
    assert_eq!(candidates[0].name, "D");
    for _ in 0..10 {
        let r = goals::get_random_achievement_for_game(&p, 10, &sch, &goal_rows, &ex).unwrap().unwrap();
        assert_eq!(r.name, "D");
    }
    let ex = vec![excluded(1, "C", 10), excluded(2, "D", 10)];
    assert!(matches!(goals::get_random_achievement_for_game(&p, 10, &sch, &goal_rows, &ex), Ok(None)));
    assert!(matches!(goals::get_random_achievement_for_game(&None, 10, &sch, &goal_rows, &ex), Ok(None)));
}

#[test]
fn random_goal_is_one_of_the_candidates() {
    let p = Some(vec![player("A", false), player("B", false), player("C", true)]);
    let sch = vec![schema("C"), schema("B"), schema("A")];
    for _ in 0..20 {
        let r = goals::get_random_achievement_for_game(&p, 1, &sch, &vec![], &vec![]).unwrap().unwrap();
        assert!(r.name == "A" || r.name == "B");
        assert_eq!(goals::find_in_schema(&sch, &r.name).unwrap().name, r.name);
    }
}

#[test]
fn unlocked_exclusions_are_removed() {
    let ex = vec![excluded(1, "A", 10), excluded(2, "B", 10), excluded(3, "A", 20)];
    let fetched = vec![(10, vec![player("A", true), player("B", false)]), (20, vec![player("A", false)])];
    assert_eq!(goals::sync_excluded_achievements(&ex, &fetched), vec![1]);
}

fn owned(appid: i32, last_played: i64) -> OwnedGame {
    OwnedGame { appid, name: format!("game {}", appid), playtime_forever: 0, last_played }
}

#[test]
fn goals_sync_by_game() {
    let goal_rows = vec![
        goal_row(1, "X", 30, 100), // played since: unlocked -> goes
        goal_row(2, "Y", 10, 50),  // played since: still locked -> new time
        goal_row(3, "Z", 20, 70),  // not played since
        goal_row(4, "W", 10, 50),  // played since: unlocked -> goes
    ];
    let games = vec![owned(10, 60), owned(20, 70), owned(30, 200)];
    let fetched = vec![
        (10, vec![player("Y", false), player("W", true)]),
        (30, vec![player("X", true)]),
    ];
    let r = goals::sync_completed_achievements(&goal_rows, &games, &fetched);
    assert_eq!(r, vec![GoalSync::UpdateLastPlayed(2, 60), GoalSync::Delete(4), GoalSync::Delete(1)]);
}

#[test]
fn cache_refresh_and_records() {
    let cache = vec![completion(10, 1, 100, 3), completion(20, 0, 5, 0), completion(10, 1, 150, 3)];
    let games = vec![owned(10, 150), owned(20, 6), owned(30, 1), owned(10, 100)];
    assert!(!goals::needs_refresh(&cache, &games[0]));
    assert_eq!(goals::games_to_refresh(&games, &cache), vec![1, 2, 3]);
    let rec = goals::completion_record(&games[0], &Some(vec![player("a", true), player("b", false), player("c", true)]));
    assert_eq!(rec, completion(10, 2, 150, 3));
    assert_eq!(goals::completion_record(&games[2], &None), completion(30, 0, 1, 0));
    assert_eq!(goals::completion_record(&games[2], &Some(vec![])), completion(30, 0, 1, 0));
}

#[test]
fn trophies_follow_the_completion_statuses() {
    let targets = vec![target(1, true), target(2, false)];
    let completions = vec![completion(2, 10, 0, 10), completion(4, 3, 0, 3)];
    let m = goals::get_game_completion(&targets, &completions, &vec![]);
    let (_, mut done) = gabe::ui::load_trophies(gabe::ui::TrophyCaseFilter::Completed, &m);
    done.sort();
    assert_eq!(done, vec![1, 4]);
    let (_, mut perfect) = gabe::ui::load_trophies(gabe::ui::TrophyCaseFilter::Perfected, &m);
    perfect.sort();
    assert_eq!(perfect, vec![2, 4]);
}

#[test]
fn a_drawn_achievement_missing_from_the_schema_is_an_error() {
    let p = Some(vec![player("A", false)]);
    let r = goals::get_random_achievement_for_game(&p, 1, &vec![schema("B")], &vec![], &vec![]);
    assert!(matches!(r, Err(goals::DrawError::NotInSchema(ref n)) if n == "A"));
    let cands = vec![player("A", false), player("B", false)];
    assert_eq!(goals::pick_candidate(&cands, 1, &vec![schema("B")]).unwrap().name, "B");
    assert!(matches!(goals::pick_candidate(&cands, 0, &vec![schema("B")]), Err(goals::DrawError::NotInSchema(ref n)) if n == "A"));
}

#[test]
fn each_game_of_the_exclusions_is_fetched_once() {
    let ex = vec![excluded(1, "A", 10), excluded(2, "B", 20), excluded(3, "C", 10)];
    assert_eq!(goals::apps_to_fetch_for_exclusions(&ex), vec![10, 20]);
    assert!(goals::apps_to_fetch_for_exclusions(&vec![]).is_empty());
    assert!(goals::exclusions_fetched(&ex, &vec![(20, vec![]), (10, vec![])]));
    assert!(!goals::exclusions_fetched(&ex, &vec![(10, vec![])]));
}

#[test]
fn the_games_played_since_their_goals_are_fetched_once() {
    let goal_rows = vec![goal_row(1, "X", 30, 100), goal_row(2, "Y", 10, 50), goal_row(3, "Z", 20, 70), goal_row(4, "W", 10, 50)];
    let games = vec![owned(10, 60), owned(20, 70), owned(30, 200)];
    assert!(goals::goal_games_owned(&goal_rows, &games));
    assert!(!goals::goal_games_owned(&goal_rows, &vec![owned(10, 60)]));
    assert_eq!(goals::apps_to_fetch_for_goals(&goal_rows, &games), vec![30, 10]);
    let fetched = vec![(10, vec![player("Y", false), player("W", true)]), (30, vec![player("X", true)])];
    assert!(goals::goal_sync_ready(&goal_rows, &games, &fetched));
    let missing = vec![(10, vec![player("Y", false)]), (30, vec![player("X", true)])];
    assert!(!goals::goal_sync_ready(&goal_rows, &games, &missing));
    assert!(!goals::goal_sync_ready(&goal_rows, &games, &vec![(10, vec![])]));
}
