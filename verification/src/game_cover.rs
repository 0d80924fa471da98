//! Custom game covers chosen by the player.

use vstd::prelude::*;
use crate::module::{GameIdentifier, Module};
use crate::steam_db::{cover_of, first_cover_index, get_game_cover, GameCover};

verus! {

/// The custom cover address stored for a game, if any.
pub open spec fn cover_url_of(rows: Seq<GameCover>, app_id: i32) -> Option<Seq<char>> {
    match cover_of(rows, app_id) {
        Some(c) => Some(c.url@),
        None => None,
    }
}

/// The row that saving a custom cover for a game stores.
pub fn save_game_cover(game_identifier: &GameIdentifier, cover_url: &str) -> (r: GameCover)
    ensures
        r.app_id == game_identifier.id,
        r.url@ == cover_url@,
{
    match game_identifier.module {
        Module::STEAM(_) => GameCover { app_id: game_identifier.id, url: String::from_str(cover_url) },
    }
}

/// The custom cover address of a game, from the stored cover rows.
pub fn get_game_cover_url(game_identifier: &GameIdentifier, rows: &Vec<GameCover>) -> (r: Option<String>)
    ensures
        match r {
            Some(u) => cover_url_of(rows@, game_identifier.id) == Some(u@),
            None => cover_url_of(rows@, game_identifier.id) is None,
        },
{
    match game_identifier.module {
        Module::STEAM(_) => match get_game_cover(rows, game_identifier.id) {
            Some(c) => Some(c.url),
            None => None,
        },
    }
}

/// Law: a saved cover reads back. When the row that `save_game_cover`
/// stores is the first stored cover of its game, the game's cover address
/// is the one that was saved.
pub proof fn lemma_cover_round_trip(saved: GameCover, before: Seq<GameCover>, after: Seq<GameCover>)
    requires
        forall|j: int| 0 <= j < before.len() ==> before[j].app_id != saved.app_id,
    ensures
        cover_url_of(before.push(saved) + after, saved.app_id) == Some(saved.url@),
{
    let rows = before.push(saved) + after;
    let i = before.len() as int;
    assert(rows[i] == saved);
    assert(forall|j: int| 0 <= j < i ==> rows[j] == before[j]);
    let k = first_cover_index(rows, saved.app_id)->0;
    assert(first_cover_index(rows, saved.app_id) is Some);
    assert(!(k < i)) by {
        if k < i {
            assert(rows[k] == before[k]);
        }
    }
    assert(!(i < k));
}

} // verus!
