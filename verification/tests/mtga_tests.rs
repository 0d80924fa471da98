use gabe::json::Json;
use gabe::mtga_db::{self, AchievementShim, Status, TargetFilter};
use gabe::mtga_log::{self, get_readable_achievements, read_file, Achievement};
use gabe::mtga_utils;

fn graph_line() -> String {
    "{\"NodeStates\":{\"---META_WelcomeToArena\":{\"Status\":\"Completed\"},\"GoingForGold\":{\"Status\":\"Completed\"},\"PlayTheGame\":{\"Status\":\"Available\"},\"NoStatus\":{}}}".to_string()
}

#[test]
fn lib_test_read_in_file() {
    let lines = vec![
        "[UnityCrossThreadLogger]Client.TcpConnection.Connected".to_string(),
        graph_line(),
        "{\"NodeStates\":{\"---META_WelcomeToArena\":{\"Status\":\"Locked\"}}}".to_string(),
    ];
    let achievements = read_file(&lines).unwrap();
    assert!(!achievements.is_empty());
    assert!(achievements.contains(&Achievement { name: "Going For Gold".to_string(), achieved: true }))
}

#[test]
fn read_file_reads_only_the_first_graph_line() {
    let lines = vec![graph_line(), "{\"NodeStates\":{\"---META_WelcomeToArena\":{\"Status\":\"Locked\"},\"Other\":{}}}".to_string()];
    let achievements = read_file(&lines).unwrap();
    assert_eq!(achievements.len(), 4);
    assert!(achievements.contains(&Achievement { name: "Play The Game".to_string(), achieved: false }));
    assert!(achievements.contains(&Achievement { name: "No Status".to_string(), achieved: false }));
    assert!(!achievements.iter().any(|a| a.name == "Other"));
}

#[test]
fn read_file_without_graph_line_is_empty() {
    let lines = vec!["hello".to_string(), "{\"NodeStates\":{}}".to_string()];
    assert_eq!(read_file(&lines).unwrap().len(), 0);
    assert_eq!(get_readable_achievements(&vec![]).unwrap().len(), 0);
}

#[test]
fn read_file_with_broken_graph_line_fails() {
    let lines = vec!["{\"NodeStates\":{\"---META_WelcomeToArena\" broken".to_string()];
    assert!(read_file(&lines).is_none());
}

#[test]
fn achievement_names_become_title_case() {
    let entries = vec![("GoingForGold".to_string(), Some("Completed".to_string())), ("FirstWin".to_string(), None)];
    let a = mtga_log::achievements_from_node_states(&entries);
    assert!(a[0] == Achievement { name: "Going For Gold".to_string(), achieved: true });
    assert!(a[1] == Achievement { name: "First Win".to_string(), achieved: false });
    assert_eq!(mtga_log::COMPLETED, "Completed");
}

fn shim(name: &str, achieved: u8, target: Option<i8>) -> AchievementShim {
    AchievementShim { name: name.to_string(), achieved, target }
}

#[test]
fn rows_read_as_states() {
    assert_eq!(shim("a", 1, Some(1)).to_pub().status, Status::Achieved);
    assert_eq!(shim("b", 0, Some(1)).to_pub().status, Status::Target);
    assert_eq!(shim("c", 0, Some(-1)).to_pub().status, Status::Excluded);
    assert_eq!(shim("d", 0, None).to_pub().status, Status::Unachieved);
    assert_eq!(shim("e", 1, Some(7)).to_pub().status, Status::Achieved);
}

#[test]
fn target_values() {
    assert_eq!(mtga_db::target_value(TargetFilter::Goal), 1);
    assert_eq!(mtga_db::target_value(TargetFilter::Excluded), -1);
}

#[test]
fn filters_by_target() {
    let rows = vec![shim("a", 0, Some(1)), shim("b", 0, Some(-1)), shim("c", 1, Some(1)), shim("d", 0, None)];
    let goals = mtga_db::get_goals(rows);
    assert_eq!(goals.len(), 2);
    assert_eq!(goals[0].name, "a");
    assert_eq!(goals[0].status, Status::Target);
    assert_eq!(goals[1].name, "c");
    assert_eq!(goals[1].status, Status::Achieved);
    let rows = vec![shim("a", 0, Some(1)), shim("b", 0, Some(-1))];
    let excluded = mtga_db::get_excluded(rows);
    assert_eq!(excluded.len(), 1);
    assert_eq!(excluded[0].name, "b");
    assert_eq!(excluded[0].status, Status::Excluded);
}

#[test]
fn saving_writes_flags_and_targets() {
    let w = mtga_db::save_achievement("x", true);
    assert_eq!(w.name, "x");
    assert_eq!(w.achieved, 1);
    assert_eq!(mtga_db::save_achievement("y", false).achieved, 0);
    let g = mtga_db::save_goal("z");
    assert_eq!((g.name.as_str(), g.target), ("z", 1));
    let e = mtga_db::save_excluded("z");
    assert_eq!((e.name.as_str(), e.target), ("z", -1));
}

#[test]
fn module_reads_achievements() {
    let rows = vec![shim("a", 1, None), shim("b", 0, Some(1)), shim("c", 0, Some(-1))];
    let all = mtga_utils::get_achievements(rows);
    assert_eq!(all.len(), 3);
    assert!(all[0].achieved && !all[1].achieved && !all[2].achieved);
    assert_eq!(all[1].name, "b");
    let goals = mtga_utils::get_goals(vec![shim("a", 1, None), shim("b", 0, Some(1))]);
    assert_eq!(goals.len(), 1);
    assert_eq!(goals[0].name, "b");
    let excluded = mtga_utils::get_excluded_achievements(vec![shim("c", 0, Some(-1)), shim("b", 0, Some(1))]);
    assert_eq!(excluded.len(), 1);
    assert_eq!(excluded[0].name, "c");
    let g = mtga_utils::save_goal("b".to_string());
    assert_eq!(g.target, 1);
    assert_eq!(mtga_utils::GAME_NAME, "Magic the Gathering Arena");
    assert_eq!(mtga_utils::ID, 0);
}

#[test]
fn sync_writes_each_log_achievement() {
    let log = vec![
        Achievement { name: "Going For Gold".to_string(), achieved: true },
        Achievement { name: "Play".to_string(), achieved: false },
    ];
    let writes = mtga_utils::sync_achievements(&log);
    assert_eq!(writes.len(), 2);
    assert_eq!((writes[0].name.as_str(), writes[0].achieved), ("Going For Gold", 1));
    assert_eq!((writes[1].name.as_str(), writes[1].achieved), ("Play", 0));
}

#[test]
fn synced_achievement_reads_back() {
    // The row a write leaves, with a goal already set on it, reads as the logged state.
    let w = mtga_db::save_achievement("Play", false);
    let all = mtga_utils::get_achievements(vec![AchievementShim { name: w.name, achieved: w.achieved, target: Some(1) }]);
    assert_eq!(all[0].name, "Play");
    assert!(!all[0].achieved);
    let w = mtga_db::save_achievement("Gold", true);
    let all = mtga_utils::get_achievements(vec![AchievementShim { name: w.name, achieved: w.achieved, target: None }]);
    assert!(all[0].achieved);
}

#[test]
fn the_graph_is_the_node_states_object() {
    let obj = |m: Vec<(&str, Json)>| Json::Object(m.into_iter().map(|(k, v)| (k.to_string(), v)).collect());
    let graph = obj(vec![
        ("A", obj(vec![("Status", Json::Str("Completed".to_string()))])),
        ("B", obj(vec![("Status", Json::Number("1".to_string()))])),
        ("C", Json::Null),
    ]);
    let line = obj(vec![("Other", Json::Bool(true)), ("NodeStates", graph)]);
    let states = mtga_log::node_states(&line).unwrap();
    assert_eq!(
        states,
        vec![("A".to_string(), Some("Completed".to_string())), ("B".to_string(), None), ("C".to_string(), None)]
    );
    assert!(mtga_log::node_states(&obj(vec![("NodeStates", Json::Array(vec![]))])).is_none());
    assert!(mtga_log::node_states(&obj(vec![("Nodes", obj(vec![]))])).is_none());
    assert!(mtga_log::node_states(&Json::Str("NodeStates".to_string())).is_none());
}

#[test]
fn entries_without_a_status_object_are_not_completed() {
    let lines = vec!["{\"NodeStates\":{\"---META_WelcomeToArena\":1,\"GoingForGold\":{\"Status\":\"Completed\"}},\"x\":[1,2.5,\"s\",null,false]}".to_string()];
    let r = read_file(&lines).unwrap();
    assert_eq!(r.len(), 2);
    assert!(!r[0].achieved);
    assert!(r[1] == Achievement { name: "Going For Gold".to_string(), achieved: true });
}
