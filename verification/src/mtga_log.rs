//! Reading Arena achievements out of the lines of the game's player log.

use vstd::prelude::*;
use convert_case::{Case, Converter};
use crate::json::{find_member, member, parse_json, parsed_json, Json};
use crate::text::{chars_of, has_prefix, starts_with};

verus! {

/// An achievement found in the player log, and whether it is completed.
#[derive(Debug, PartialEq)]
pub struct Achievement {
    pub name: String,
    pub achieved: bool,
}

/// The start of the log line that holds the achievement graph.
pub const NODE_STATES_PREFIX: &'static str = "{\"NodeStates\":{\"---META_WelcomeToArena\"";

/// The state name of a completed achievement.
pub const COMPLETED: &'static str = "Completed";

/// The key of the achievement graph in the graph's log line.
pub const NODE_STATES_KEY: &'static str = "NodeStates";

/// The key of an achievement's state in the achievement graph.
pub const STATUS_KEY: &'static str = "Status";

/// The state of an entry of the achievement graph: its `Status` string,
/// when it has one.
pub open spec fn status_of(v: Json) -> Option<Seq<char>> {
    match member(v, STATUS_KEY@) {
        Some(Json::Str(s)) => Some(s@),
        _ => None,
    }
}

/// The entries of the achievement graph of a JSON value: each key of its
/// `NodeStates` object, in order, with that entry's state; nothing when
/// the value has no `NodeStates` object.
pub open spec fn node_states_of(j: Json) -> Option<Seq<(Seq<char>, Option<Seq<char>>)>> {
    match member(j, NODE_STATES_KEY@) {
        Some(Json::Object(states)) => Some(states@.map_values(|e: (String, Json)| (e.0@, status_of(e.1)))),
        _ => None,
    }
}

/// What reading a log line as the achievement graph gives: the entries of
/// the graph of the JSON value it holds; nothing when it is not JSON or
/// holds no graph.
pub open spec fn json_node_states(line: Seq<char>) -> Option<Seq<(Seq<char>, Option<Seq<char>>)>> {
    match parsed_json(line) {
        Some(j) => node_states_of(j),
        None => None,
    }
}

/// The views of the entries that `node_states` hands back.
pub open spec fn entry_views(v: Seq<(String, Option<String>)>) -> Seq<(Seq<char>, Option<Seq<char>>)> {
    v.map_values(
        |e: (String, Option<String>)|
            (
                e.0@,
                match e.1 {
                    Some(s) => Some(s@),
                    None => None,
                },
            ),
    )
}

/// The state of an entry of the achievement graph.
fn status(v: &Json, key: &String) -> (r: Option<String>)
    requires
        key@ == STATUS_KEY@,
    ensures
        match r {
            Some(s) => status_of(*v) == Some(s@),
            None => status_of(*v) is None,
        },
{
    match v {
        Json::Object(members) => match find_member(members, key) {
            Some(i) => match &members[i].1 {
                Json::Str(s) => Some(s.clone()),
                _ => None,
            },
            None => None,
        },
        _ => None,
    }
}

/// The entries of the achievement graph of a JSON value: each key of its
/// `NodeStates` object, in order, with that entry's `Status` string when
/// it has one; `None` when the value has no `NodeStates` object.
pub fn node_states(j: &Json) -> (r: Option<Vec<(String, Option<String>)>>)
    ensures
        match r {
            Some(v) => node_states_of(*j) == Some(entry_views(v@)),
            None => node_states_of(*j) is None,
        },
{
    let graph_key = String::from_str(NODE_STATES_KEY);
    let status_key = String::from_str(STATUS_KEY);
    let members = match j {
        Json::Object(members) => members,
        _ => {
            return None;
        },
    };
    let states = match find_member(members, &graph_key) {
        Some(i) => match &members[i].1 {
            Json::Object(states) => states,
            _ => {
                return None;
            },
        },
        None => {
            return None;
        },
    };
    let ghost to_entry = |e: (String, Json)| (e.0@, status_of(e.1));
    let mut r: Vec<(String, Option<String>)> = Vec::new();
    for k in 0..states.len()
        invariant
            status_key@ == STATUS_KEY@,
            to_entry == (|e: (String, Json)| (e.0@, status_of(e.1))),
            entry_views(r@) == states@.take(k as int).map_values(to_entry),
    {
        let st = status(&states[k].1, &status_key);
        let ghost before = r@;
        r.push((states[k].0.clone(), st));
        proof {
            assert(entry_views(r@) =~= entry_views(before).push(to_entry(states@[k as int])));
            assert(states@.take(k + 1).map_values(to_entry) =~= states@.take(k as int).map_values(to_entry).push(
                to_entry(states@[k as int]),
            ));
        }
    }
    proof {
        assert(states@.take(states@.len() as int) =~= states@);
    }
    Some(r)
}

/// Names what `convert_case` makes of a name when it converts it from
/// Pascal case to Title case.
pub uninterp spec fn pascal_to_title(name: Seq<char>) -> Seq<char>;

/// Converts a name from Pascal case to Title case with `convert_case`'s
/// `Converter` (what its `ccase!(pascal -> title, ..)` expands to): the
/// words of the name, split where Pascal case splits them, each capitalised
/// and joined by spaces. Only that the result is the named conversion of
/// the name is stated.
#[verifier::external_body]
pub(crate) fn format_achievement_name(name: &str) -> (r: String)
    ensures
        r@ == pascal_to_title(name@),
{
    Converter::new().from_case(Case::Pascal).to_case(Case::Title).convert(name)
}

/// The achievement an entry of the achievement graph stands for: its title
/// case name, completed when its state is `Completed`.
pub open spec fn achievement_of_entry(e: (Seq<char>, Option<Seq<char>>)) -> (Seq<char>, bool) {
    (pascal_to_title(e.0), e.1 == Some(COMPLETED@))
}

/// The views of achievements.
pub open spec fn achievement_views(v: Seq<Achievement>) -> Seq<(Seq<char>, bool)> {
    v.map_values(|a: Achievement| (a.name@, a.achieved))
}

/// The achievements of the entries of the achievement graph, in order.
pub fn achievements_from_node_states(entries: &Vec<(String, Option<String>)>) -> (r: Vec<Achievement>)
    ensures
        achievement_views(r@) == entry_views(entries@).map_values(
            |e: (Seq<char>, Option<Seq<char>>)| achievement_of_entry(e),
        ),
{
    let ghost to_view = |e: (Seq<char>, Option<Seq<char>>)| achievement_of_entry(e);
    let completed = chars_of(COMPLETED);
    let mut r: Vec<Achievement> = Vec::new();
    for i in 0..entries.len()
        invariant
            completed@ == COMPLETED@,
            to_view == (|e: (Seq<char>, Option<Seq<char>>)| achievement_of_entry(e)),
            achievement_views(r@) == entry_views(entries@.take(i as int)).map_values(to_view),
    {
        let name = format_achievement_name(entries[i].0.as_str());
        let achieved = match &entries[i].1 {
            Some(status) => {
                let s = chars_of(status.as_str());
                s.len() == completed.len() && starts_with(&s, &completed)
            },
            None => false,
        };
        proof {
            if let Some(status) = entries@[i as int].1 {
                if achieved {
                    assert(status@ =~= COMPLETED@);
                }
                if status@ == COMPLETED@ {
                    assert(status@.subrange(0, COMPLETED@.len() as int) =~= status@);
                }
            }
            assert(entry_views(entries@)[i as int].1 == match entries@[i as int].1 {
                Some(s) => Some(s@),
                None => None::<Seq<char>>,
            });
            assert(achievement_of_entry(entry_views(entries@)[i as int]) == (name@, achieved));
        }
        let ghost old_r = r@;
        let ghost item = (name@, achieved);
        r.push(Achievement { name, achieved });
        proof {
            assert(achievement_views(r@) =~= achievement_views(old_r).push(item));
            assert(entry_views(entries@.take(i + 1)) =~= entry_views(entries@.take(i as int)).push(
                entry_views(entries@)[i as int],
            ));
            assert(entry_views(entries@.take(i + 1)).map_values(to_view) =~= entry_views(entries@.take(i as int)).map_values(to_view).push(item));
        }
    }
    proof {
        assert(entries@.take(entries@.len() as int) == entries@);
    }
    r
}

/// The index of the first line that holds the achievement graph.
pub open spec fn graph_line(lines: Seq<String>) -> Option<int> {
    if exists|i: int|
        0 <= i < lines.len() && has_prefix(lines[i]@, NODE_STATES_PREFIX@) && forall|j: int|
            0 <= j < i ==> !has_prefix(lines[j]@, NODE_STATES_PREFIX@) {
        Some(
            choose|i: int|
                0 <= i < lines.len() && has_prefix(lines[i]@, NODE_STATES_PREFIX@) && forall|j: int|
                    0 <= j < i ==> !has_prefix(lines[j]@, NODE_STATES_PREFIX@),
        )
    } else {
        None
    }
}

/// `r` is what reading the lines of the player log gives: the achievements
/// of the first line that holds the achievement graph, in the graph's
/// order; none when no line holds it; `None` when that line can not be read
/// as the graph.
pub open spec fn log_reading(lines: Seq<String>, r: Option<Vec<Achievement>>) -> bool {
    match graph_line(lines) {
        None => r matches Some(v) && v@.len() == 0,
        Some(i) => match json_node_states(lines[i]@) {
            None => r is None,
            Some(entries) => r matches Some(v) && achievement_views(v@) == entries.map_values(
                |e: (Seq<char>, Option<Seq<char>>)| achievement_of_entry(e),
            ),
        },
    }
}

/// Reads the achievements out of the lines of the player log: those of the
/// first line that holds the achievement graph, in the graph's order; none
/// when no line holds it. `None` when that line can not be read as the
/// graph (not JSON, or without a `NodeStates` object).
pub fn read_file(lines: &Vec<String>) -> (r: Option<Vec<Achievement>>)
    ensures
        log_reading(lines@, r),
{
    let prefix = chars_of(NODE_STATES_PREFIX);
    for i in 0..lines.len()
        invariant
            prefix@ == NODE_STATES_PREFIX@,
            forall|j: int| 0 <= j < i ==> !has_prefix(lines@[j]@, NODE_STATES_PREFIX@),
    {
        let line = chars_of(lines[i].as_str());
        if starts_with(&line, &prefix) {
            proof {
                let k = choose|k: int|
                    0 <= k < lines@.len() && has_prefix(lines@[k]@, NODE_STATES_PREFIX@) && forall|j: int|
                        0 <= j < k ==> !has_prefix(lines@[j]@, NODE_STATES_PREFIX@);
                assert(!(k < i)) by {
                    if k < i {
                        assert(!has_prefix(lines@[k]@, NODE_STATES_PREFIX@));
                    }
                }
                assert(!(i < k));
            }
            return match parse_json(lines[i].as_str()) {
                Some(j) => match node_states(&j) {
                    Some(entries) => Some(achievements_from_node_states(&entries)),
                    None => None,
                },
                None => None,
            };
        }
    }
    Some(Vec::new())
}

/// Reads the achievements currently in the player log, whose lines are
/// given. Absence of an achievement does not mean it no longer exists or
/// is not achieved: it was not found on this scan.
pub fn get_readable_achievements(lines: &Vec<String>) -> (r: Option<Vec<Achievement>>)
    ensures
        log_reading(lines@, r),
{
    read_file(lines)
}

} // verus!
