//! Rows of the Steam tables that the application keeps in its local
//! database, and the selections that the queries on them make.

use vstd::prelude::*;

verus! {

/// A row of the game completion cache: how many of a game's achievements
/// the player has unlocked, as of the last time the game was played.
#[derive(Clone, Copy, Debug, PartialEq, Eq)]
pub struct GameCompletion {
    pub app_id: i32,
    pub achievements_completed: u32,
    pub last_played: i64,
    pub achievement_count: u32,
}

/// A custom cover image stored for a game.
#[derive(Debug, PartialEq, Eq)]
pub struct GameCover {
    pub app_id: i32,
    pub url: String,
}

impl Clone for GameCover {
    fn clone(&self) -> (r: Self)
        ensures
            r == *self,
    {
        GameCover { app_id: self.app_id, url: self.url.clone() }
    }
}

/// A row of the game target table: a game the player targets, and whether
/// they have marked it complete.
#[derive(Clone, Copy, Debug, PartialEq, Eq)]
pub struct GameTargetRecord {
    pub app_id: i32,
    pub complete: bool,
}

/// A row of the excluded achievement table: an achievement the player chose
/// never to pursue.
#[derive(Clone, Debug, PartialEq, Eq)]
pub struct ExcludedAchievementRecord {
    pub id: i64,
    pub achievement_name: String,
    pub app_id: i32,
}

/// A row of the achievement goal table: an achievement the player has set
/// as a goal, with the game's last played time when it was last checked.
#[derive(Clone, Debug, PartialEq, Eq)]
pub struct AchievementRecord {
    pub id: i64,
    pub achievement_name: String,
    pub display_name: String,
    pub description: Option<String>,
    pub app_id: i32,
    pub last_played: i64,
}

/// A game is perfected when all of its achievements are unlocked; a game
/// without achievements can not be perfected.
pub open spec fn is_perfect(c: GameCompletion) -> bool {
    c.achievements_completed == c.achievement_count && c.achievement_count != 0
}

/// The completions that are perfected, in their stored order.
pub open spec fn perfect_games(rows: Seq<GameCompletion>) -> Seq<GameCompletion> {
    rows.filter(|c: GameCompletion| is_perfect(c))
}

/// The index of the first row of `app_id`, if there is one.
pub open spec fn first_index_of_app(rows: Seq<GameCompletion>, app_id: i32) -> Option<int> {
    if exists|i: int|
        0 <= i < rows.len() && rows[i].app_id == app_id && forall|j: int|
            0 <= j < i ==> rows[j].app_id != app_id {
        Some(
            choose|i: int|
                0 <= i < rows.len() && rows[i].app_id == app_id && forall|j: int|
                    0 <= j < i ==> rows[j].app_id != app_id,
        )
    } else {
        None
    }
}

/// The completion stored for `app_id`: the first row with that id.
pub open spec fn completion_of(rows: Seq<GameCompletion>, app_id: i32) -> Option<GameCompletion> {
    match first_index_of_app(rows, app_id) {
        Some(i) => Some(rows[i]),
        None => None,
    }
}

/// The index of the first cover row of game `app_id`, if any.
pub open spec fn first_cover_index(rows: Seq<GameCover>, app_id: i32) -> Option<int> {
    if exists|i: int|
        0 <= i < rows.len() && rows[i].app_id == app_id && forall|j: int|
            0 <= j < i ==> rows[j].app_id != app_id {
        Some(
            choose|i: int|
                0 <= i < rows.len() && rows[i].app_id == app_id && forall|j: int|
                    0 <= j < i ==> rows[j].app_id != app_id,
        )
    } else {
        None
    }
}

/// The custom cover stored for `app_id`: the first row with that id.
pub open spec fn cover_of(rows: Seq<GameCover>, app_id: i32) -> Option<GameCover> {
    match first_cover_index(rows, app_id) {
        Some(i) => Some(rows[i]),
        None => None,
    }
}

/// Whether a completion row is perfected.
pub fn is_perfect_game(c: &GameCompletion) -> (r: bool)
    ensures
        r == is_perfect(*c),
{
    c.achievements_completed == c.achievement_count && c.achievement_count != 0
}

/// The perfected games among the stored completions: those whose unlocked
/// count equals their achievement count, leaving out games with no
/// achievements.
pub fn get_perfect_games(rows: &Vec<GameCompletion>) -> (r: Vec<GameCompletion>)
    ensures
        r@ == perfect_games(rows@),
{
    let mut r: Vec<GameCompletion> = Vec::new();
    for i in 0..rows.len()
        invariant
            r@ == perfect_games(rows@.take(i as int)),
    {
        proof {
            assert(rows@.take(i as int) == rows@.take(i + 1).drop_last());
            reveal(Seq::filter);
        }
        if is_perfect_game(&rows[i]) {
            r.push(rows[i]);
        }
    }
    proof {
        assert(rows@.take(rows@.len() as int) == rows@);
    }
    r
}

/// The completion stored for a game, if any.
pub fn get_game_completion(rows: &Vec<GameCompletion>, app_id: i32) -> (r: Option<GameCompletion>)
    ensures
        r == completion_of(rows@, app_id),
{
    for i in 0..rows.len()
        invariant
            forall|j: int| 0 <= j < i ==> rows@[j].app_id != app_id,
    {
        if rows[i].app_id == app_id {
            proof {
                let k = choose|k: int|
                    0 <= k < rows@.len() && rows@[k].app_id == app_id && forall|j: int|
                        0 <= j < k ==> rows@[j].app_id != app_id;
                assert(!(k < i)) by {
                    if k < i {
                        assert(rows@[k].app_id != app_id);
                    }
                }
                assert(!(i < k));
            }
            return Some(rows[i]);
        }
    }
    None
}

} // verus!

verus! {

/// The custom cover stored for a game, if any.
pub fn get_game_cover(rows: &Vec<GameCover>, app_id: i32) -> (r: Option<GameCover>)
    ensures
        r == cover_of(rows@, app_id),
{
    for i in 0..rows.len()
        invariant
            forall|j: int| 0 <= j < i ==> rows@[j].app_id != app_id,
    {
        if rows[i].app_id == app_id {
            proof {
                let k = choose|k: int|
                    0 <= k < rows@.len() && rows@[k].app_id == app_id && forall|j: int|
                        0 <= j < k ==> rows@[j].app_id != app_id;
                assert(!(k < i)) by {
                    if k < i {
                        assert(rows@[k].app_id != app_id);
                    }
                }
                assert(!(i < k));
            }
            return Some(rows[i].clone());
        }
    }
    None
}

} // verus!

verus! {

/// The completion rows after saving a game's completion: the table keeps
/// one row per game, so the game's earlier row gives way to the saved one.
pub open spec fn after_completion_save(rows: Seq<GameCompletion>, saved: GameCompletion) -> Seq<GameCompletion> {
    rows.filter(|c: GameCompletion| c.app_id != saved.app_id).push(saved)
}

/// Law: a saved completion reads back. After a game's completion is
/// saved, whether or not a row for the game was stored before, the
/// completion stored for the game (as `get_game_completion` reads it) is
/// the saved one.
pub proof fn lemma_completion_round_trip(rows: Seq<GameCompletion>, saved: GameCompletion)
    ensures
        completion_of(after_completion_save(rows, saved), saved.app_id) == Some(saved),
{
    let pred = |c: GameCompletion| c.app_id != saved.app_id;
    let kept = rows.filter(pred);
    let all = after_completion_save(rows, saved);
    let n = kept.len() as int;
    assert(all[n] == saved);
    assert forall|j: int| 0 <= j < n implies all[j].app_id != saved.app_id by {
        rows.lemma_filter_pred(pred, j);
        assert(all[j] == kept[j]);
    }
    assert(first_index_of_app(all, saved.app_id) is Some);
    let k = first_index_of_app(all, saved.app_id)->0;
    assert(!(k < n)) by {
        if k < n {
            assert(all[k].app_id != saved.app_id);
        }
    }
    assert(!(n < k));
}

} // verus!
