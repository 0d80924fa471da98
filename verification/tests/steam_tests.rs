use gabe::achievements::{self, ModuleGoal, SteamAchievement};
use gabe::game_cover;
use gabe::game_targets::{self, TargetStatus};
use gabe::module::{enable_module, get_module_games, get_modules, GameIdentifier, Module, ModuleEnable, SteamEnable, STEAM_ID_KEY};
use gabe::steam_api::{self, GameAchievement, OwnedGame, PlayerAchievement, PlayerAchievementEntry};
use gabe::steam_db::{self, AchievementRecord, ExcludedAchievementRecord, GameCompletion, GameCover, GameTargetRecord};
use gabe::text;

fn steam() -> Module {
    get_modules(Some("76561198000000000".to_string()), Some("KEY".to_string())).remove(0)
}

fn game_id(id: i32) -> GameIdentifier {
    GameIdentifier { module: steam(), id }
}

#[test]
fn modules_come_from_settings() {
    assert!(get_modules(None, None).is_empty());
    assert!(get_modules(None, Some("KEY".to_string())).is_empty());
    let modules = get_modules(Some("id".to_string()), Some("key".to_string()));
    assert_eq!(modules.len(), 1);
    match &modules[0] {
        Module::STEAM(c) => {
            assert_eq!(c.key(), "key");
            assert_eq!(c.steam_id(), "id");
        },
    }
}

#[test]
fn enabling_steam_stores_the_id() {
    let (k, v) = enable_module(ModuleEnable::STEAM(SteamEnable::new("12345".to_string())));
    assert_eq!(k, "steam_id");
    assert_eq!(STEAM_ID_KEY, "steam_id");
    assert_eq!(v, "12345");
}

#[test]
fn module_games_from_owned() {
    let owned = vec![
        OwnedGame { appid: 570, name: "Dota 2".to_string(), playtime_forever: 90, last_played: 1_700_000_000 },
        OwnedGame { appid: 10, name: "Counter-Strike".to_string(), playtime_forever: 5_000_000_000, last_played: 0 },
    ];
    let games = get_module_games(&steam(), &owned);
    assert_eq!(games.len(), 2);
    assert_eq!(games[0].identifier, game_id(570));
    assert_eq!(games[0].name, "Dota 2");
    assert_eq!(games[0].playtime_forever, Some(90));
    assert_eq!(games[0].last_played, 1_700_000_000);
    // `as u32` keeps the low 32 bits.
    assert_eq!(games[1].playtime_forever, Some((5_000_000_000u64 % (1u64 << 32)) as u32));
}

#[test]
fn decimal_notation() {
    assert_eq!(text::decimal_string(0), "0");
    assert_eq!(text::decimal_string(1794680), "1794680");
    assert_eq!(text::decimal_string(-42), "-42");
    assert_eq!(text::decimal_string(i64::MIN), i64::MIN.to_string());
    assert_eq!(text::decimal_string(i64::MAX), i64::MAX.to_string());
}

#[test]
fn substrings_and_prefixes() {
    let c = |s: &str| text::chars_of(s);
    assert!(text::contains_chars(&c("HALF-LIFE 2"), &c("LIFE")));
    assert!(text::contains_chars(&c("abc"), &c("")));
    assert!(!text::contains_chars(&c("abc"), &c("abcd")));
    assert!(!text::contains_chars(&c("abc"), &c("ac")));
    assert!(text::starts_with(&c("abc"), &c("ab")));
    assert!(!text::starts_with(&c("abc"), &c("b")));
}

#[test]
fn request_addresses() {
    assert_eq!(
        steam_api::player_achievements_url("K", "S", 570),
        "https://api.steampowered.com/ISteamUserStats/GetPlayerAchievements/v1/?&key=K&steamid=S&appid=570"
    );
    assert_eq!(
        steam_api::game_schema_url("K", 570),
        "https://api.steampowered.com/ISteamUserStats/GetSchemaForGame/v2/?key=K&appid=570"
    );
    assert_eq!(
        steam_api::get_game_cover_blocking(None, 1794680),
        "https://shared.steamstatic.com/store_item_assets/steam/apps/1794680/library_600x900_2x.jpg"
    );
    assert_eq!(steam_api::get_game_cover_blocking(Some("http://x/y.png".to_string()), 1), "http://x/y.png");
}

#[test]
fn player_achievements_from_answers() {
    let entries = Some(vec![
        PlayerAchievementEntry { apiname: "A".to_string(), achieved: 1 },
        PlayerAchievementEntry { apiname: "B".to_string(), achieved: 0 },
    ]);
    let r = steam_api::get_player_achievements(true, &entries);
    assert_eq!(r.len(), 2);
    assert!(r[0].achieved && r[0].name == "A");
    assert!(!r[1].achieved && r[1].name == "B");
    assert!(steam_api::get_player_achievements(false, &entries).is_empty());
    assert!(steam_api::get_player_achievements(true, &None).is_empty());
    assert!(steam_api::get_game_achievements(None).is_empty());
    assert_eq!(steam_api::get_game_achievements(Some(vec![schema("A")])).len(), 1);
}

fn schema(name: &str) -> GameAchievement {
    GameAchievement {
        name: name.to_string(),
        display_name: format!("{} shown", name),
        description: if name == "B" { None } else { Some(format!("{} described", name)) },
        icon: format!("{}.png", name),
        icongray: format!("{}_gray.png", name),
    }
}

fn player(name: &str, achieved: bool) -> PlayerAchievement {
    PlayerAchievement { name: name.to_string(), achieved }
}

#[test]
fn game_achievements_mark_unlocked() {
    let r = achievements::get_game_achievements(&vec![player("A", true), player("B", false)], &vec![schema("B"), schema("A"), schema("C")]);
    assert_eq!(r.len(), 3);
    assert_eq!(r[0].id, "B");
    assert!(!r[0].achieved);
    assert_eq!(r[0].description, None);
    assert_eq!(r[1].id, "A");
    assert!(r[1].achieved);
    assert_eq!(r[1].achieved_icon_id.as_deref(), Some("A.png"));
    assert_eq!(r[1].unachieved_icon_id.as_deref(), Some("A_gray.png"));
    assert!(!r[2].achieved);
}

fn goal_row(id: i64, name: &str, app: i32, last_played: i64) -> AchievementRecord {
    AchievementRecord {
        id,
        achievement_name: name.to_string(),
        display_name: format!("{} shown", name),
        description: None,
        app_id: app,
        last_played,
    }
}

#[test]
fn goals_read_from_rows() {
    let rows = vec![goal_row(1, "A", 10, 100), goal_row(2, "B", 20, 200), goal_row(3, "C", 10, 300)];
    let all = achievements::get_goals(&steam(), &rows);
    assert_eq!(all.len(), 3);
    let of_game = achievements::get_game_goals(&game_id(10), &rows);
    assert_eq!(of_game.len(), 2);
    match &of_game[1] {
        ModuleGoal::STEAM(a) => {
            assert_eq!(a.achievement_name, "C");
            assert_eq!(a.game_id, 10);
            assert_eq!(a.last_played, 300);
        },
    }
}

#[test]
fn goal_saves_its_row() {
    let goal = ModuleGoal::STEAM(SteamAchievement {
        game_id: 7,
        display_name: "Shown".to_string(),
        achievement_name: "NAME".to_string(),
        description: Some("d".to_string()),
        last_played: 55,
    });
    let row = achievements::save_achievement_goal(goal);
    assert_eq!(row.achievement_name, "NAME");
    assert_eq!(row.display_name, "Shown");
    assert_eq!(row.description.as_deref(), Some("d"));
    assert_eq!(row.app_id, 7);
    assert_eq!(row.last_played, 55);
}

fn excluded_row(id: i64, name: &str, app: i32) -> ExcludedAchievementRecord {
    ExcludedAchievementRecord { id, achievement_name: name.to_string(), app_id: app }
}

#[test]
fn excluded_achievements_of_a_game() {
    let rows = vec![excluded_row(1, "A", 10), excluded_row(2, "B", 20), excluded_row(3, "A", 10), excluded_row(4, "C", 10)];
    let mut names = achievements::get_excluded_achievements(&game_id(10), &rows);
    names.sort();
    assert_eq!(names, vec!["A".to_string(), "C".to_string()]);
    let saved = achievements::save_excluded_achievement(&game_id(30), "Z");
    assert_eq!((saved.achievement_name.as_str(), saved.app_id), ("Z", 30));
    let mut rows = rows;
    rows.push(excluded_row(5, &saved.achievement_name, saved.app_id));
    assert_eq!(achievements::get_excluded_achievements(&game_id(30), &rows), vec!["Z".to_string()]);
}

#[test]
fn drawn_achievement_becomes_generic() {
    let r = achievements::get_random_achievement_for_game(Some(schema("A"))).unwrap();
    assert_eq!(r.id, "A");
    assert!(!r.achieved);
    assert_eq!(r.unachieved_icon_id.as_deref(), Some("A_gray.png"));
    assert!(achievements::get_random_achievement_for_game(None).is_none());
}

#[test]
fn target_status_reads_back() {
    assert_eq!(game_targets::steam_status_to_module_status(&true), TargetStatus::Complete);
    assert_eq!(game_targets::steam_status_to_module_status(&false), TargetStatus::Target);
    let saved = game_targets::save_game_target(&game_id(5), TargetStatus::Complete);
    assert_eq!(saved, GameTargetRecord { app_id: 5, complete: true });
    let other = game_targets::save_game_target(&game_id(6), TargetStatus::Target);
    assert_eq!(other, GameTargetRecord { app_id: 6, complete: false });
    let rows = vec![other, saved];
    assert_eq!(game_targets::get_game_target_status(&game_id(5), &rows), Some(TargetStatus::Complete));
    assert_eq!(game_targets::get_game_target_status(&game_id(6), &rows), Some(TargetStatus::Target));
    assert_eq!(game_targets::get_game_target_status(&game_id(7), &rows), None);
    let targets = game_targets::get_game_targets(&steam(), &rows);
    assert_eq!(targets.len(), 2);
    assert_eq!(targets[0].game_id, 6);
    assert_eq!(targets[0].status, TargetStatus::Target);
    assert_eq!(targets[1].status, TargetStatus::Complete);
    assert_eq!(targets[1].module, steam());
}

#[test]
fn cover_reads_back() {
    let saved = game_cover::save_game_cover(&game_id(9), "http://covers/9.jpg");
    assert_eq!(saved, GameCover { app_id: 9, url: "http://covers/9.jpg".to_string() });
    let rows = vec![GameCover { app_id: 1, url: "one".to_string() }, saved];
    assert_eq!(game_cover::get_game_cover_url(&game_id(9), &rows).as_deref(), Some("http://covers/9.jpg"));
    assert_eq!(game_cover::get_game_cover_url(&game_id(2), &rows), None);
}

fn completion(app: i32, done: u32, last: i64, count: u32) -> GameCompletion {
    GameCompletion { app_id: app, achievements_completed: done, last_played: last, achievement_count: count }
}

#[test]
fn perfect_games_have_all_achievements() {
    let rows = vec![completion(1, 5, 0, 5), completion(2, 0, 0, 0), completion(3, 4, 0, 5), completion(4, 1, 0, 1)];
    let perfect = steam_db::get_perfect_games(&rows);
    assert_eq!(perfect.iter().map(|c| c.app_id).collect::<Vec<_>>(), vec![1, 4]);
    assert!(steam_db::is_perfect_game(&rows[0]));
    assert!(!steam_db::is_perfect_game(&rows[1]));
    assert_eq!(steam_db::get_game_completion(&rows, 3), Some(rows[2]));
    assert_eq!(steam_db::get_game_completion(&rows, 9), None);
}

#[test]
fn a_saved_goal_reads_back_last_among_its_game() {
    let goal = ModuleGoal::STEAM(SteamAchievement {
        game_id: 10,
        display_name: "New".to_string(),
        achievement_name: "N".to_string(),
        description: None,
        last_played: 77,
    });
    let row = achievements::save_achievement_goal(goal);
    let mut rows = vec![goal_row(1, "A", 10, 100), goal_row(2, "B", 20, 200)];
    rows.push(AchievementRecord {
        id: 9,
        achievement_name: row.achievement_name,
        display_name: row.display_name,
        description: row.description,
        app_id: row.app_id,
        last_played: row.last_played,
    });
    let of_game = achievements::get_game_goals(&game_id(10), &rows);
    assert_eq!(of_game.len(), 2);
    match &of_game[1] {
        ModuleGoal::STEAM(a) => {
            assert_eq!((a.achievement_name.as_str(), a.display_name.as_str(), a.game_id, a.last_played), ("N", "New", 10, 77));
        },
    }
}

#[test]
fn a_saved_exclusion_joins_the_earlier_ones() {
    let mut rows = vec![excluded_row(1, "A", 10)];
    let saved = achievements::save_excluded_achievement(&game_id(10), "B");
    rows.push(excluded_row(2, &saved.achievement_name, saved.app_id));
    let mut names = achievements::get_excluded_achievements(&game_id(10), &rows);
    names.sort();
    assert_eq!(names, vec!["A".to_string(), "B".to_string()]);
}

#[test]
fn the_first_stored_cover_of_a_game() {
    let rows = vec![
        GameCover { app_id: 1, url: "one".to_string() },
        GameCover { app_id: 2, url: "two".to_string() },
        GameCover { app_id: 1, url: "again".to_string() },
    ];
    assert_eq!(steam_db::get_game_cover(&rows, 1), Some(GameCover { app_id: 1, url: "one".to_string() }));
    assert_eq!(steam_db::get_game_cover(&rows, 3), None);
}

// Fetching the cover is the program's work; what the library decides is
// the address the cover is fetched from.
#[test]
fn game_cover_fetch_test_load_game_cover() {
    let app_id = 1794680;
    assert_eq!(
        steam_api::get_game_cover_blocking(None, app_id),
        "https://shared.steamstatic.com/store_item_assets/steam/apps/1794680/library_600x900_2x.jpg"
    );
}

#[test]
fn game_cover_fetch_test_load_game_cover_not_present() {
    // With no custom cover stored, the store's address is used, which has no
    // cover for this game.
    let app_id = 4035270;
    let stored = steam_db::get_game_cover(&vec![], app_id).map(|c| c.url);
    assert_eq!(
        steam_api::get_game_cover_blocking(stored, app_id),
        "https://shared.steamstatic.com/store_item_assets/steam/apps/4035270/library_600x900_2x.jpg"
    );
    let custom = vec![GameCover { app_id, url: "http://mine".to_string() }];
    let stored = steam_db::get_game_cover(&custom, app_id).map(|c| c.url);
    assert_eq!(steam_api::get_game_cover_blocking(stored, app_id), "http://mine");
}

#[test]
fn a_saved_completion_reads_back() {
    // The table keeps one row per game: saving replaces the game's row.
    let rows = vec![completion(1, 1, 10, 5), completion(2, 0, 0, 3)];
    let saved = completion(1, 4, 20, 5);
    let mut after: Vec<GameCompletion> = rows.iter().filter(|c| c.app_id != saved.app_id).copied().collect();
    after.push(saved);
    assert_eq!(steam_db::get_game_completion(&after, 1), Some(saved));
    assert_eq!(steam_db::get_game_completion(&after, 2), Some(rows[1]));
}
