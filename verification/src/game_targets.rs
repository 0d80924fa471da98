//! Game targets: games the player has chosen to finish, and whether they
//! have marked them complete.

use vstd::prelude::*;
use crate::module::{GameIdentifier, Module};
use crate::steam_db::GameTargetRecord;

verus! {

/// The state of a targeted game.
#[derive(Clone, Copy, Debug, PartialEq, Eq)]
pub enum TargetStatus {
    Target,
    Complete,
}

/// The status that a stored completion flag stands for.
pub open spec fn status_of(complete: bool) -> TargetStatus {
    if complete {
        TargetStatus::Complete
    } else {
        TargetStatus::Target
    }
}

/// The completion flag that a status is stored as.
pub open spec fn flag_of(status: TargetStatus) -> bool {
    status == TargetStatus::Complete
}

/// Reads a stored completion flag as a target status.
pub fn steam_status_to_module_status(complete: &bool) -> (r: TargetStatus)
    ensures
        r == status_of(*complete),
{
    if *complete {
        TargetStatus::Complete
    } else {
        TargetStatus::Target
    }
}

/// The index of the first target row of game `app_id`, if any.
pub open spec fn first_target_index(rows: Seq<GameTargetRecord>, app_id: i32) -> Option<int> {
    if exists|i: int|
        0 <= i < rows.len() && rows[i].app_id == app_id && forall|j: int|
            0 <= j < i ==> rows[j].app_id != app_id {
        Some(
            choose|i: int|
                0 <= i < rows.len() && rows[i].app_id == app_id && forall|j: int|
                    0 <= j < i ==> rows[j].app_id != app_id,
        )
    } else {
        None
    }
}

/// The target status of a game: that of its stored target row, if any.
pub open spec fn target_status_of(rows: Seq<GameTargetRecord>, app_id: i32) -> Option<TargetStatus> {
    match first_target_index(rows, app_id) {
        Some(i) => Some(status_of(rows[i].complete)),
        None => None,
    }
}

/// The target status of a game, from the stored target rows.
pub fn get_game_target_status(game_identifier: &GameIdentifier, rows: &Vec<GameTargetRecord>) -> (r: Option<TargetStatus>)
    ensures
        r == target_status_of(rows@, game_identifier.id),
{
    match game_identifier.module {
        Module::STEAM(_) => {
            let id = game_identifier.id;
            for i in 0..rows.len()
                invariant
                    id == game_identifier.id,
                    forall|j: int| 0 <= j < i ==> rows@[j].app_id != id,
            {
                if rows[i].app_id == id {
                    proof {
                        let k = choose|k: int|
                            0 <= k < rows@.len() && rows@[k].app_id == id && forall|j: int|
                                0 <= j < k ==> rows@[j].app_id != id;
                        assert(!(k < i)) by {
                            if k < i {
                                assert(rows@[k].app_id != id);
                            }
                        }
                        assert(!(i < k));
                    }
                    return Some(steam_status_to_module_status(&rows[i].complete));
                }
            }
            None
        },
    }
}

/// A targeted game of a module.
#[derive(Debug)]
pub struct GameTarget {
    pub module: Module,
    pub game_id: i32,
    pub status: TargetStatus,
}

/// The targeted games of a module, from the stored target rows, in their
/// order.
pub fn get_game_targets(module: &Module, rows: &Vec<GameTargetRecord>) -> (r: Vec<GameTarget>)
    ensures
        r@.len() == rows@.len(),
        forall|i: int| 0 <= i < rows@.len() ==> #[trigger] r@[i] == (GameTarget {
            module: *module,
            game_id: rows@[i].app_id,
            status: status_of(rows@[i].complete),
        }),
{
    let mut r: Vec<GameTarget> = Vec::new();
    match module {
        Module::STEAM(_) => {
            for i in 0..rows.len()
                invariant
                    r@.len() == i,
                    forall|j: int| 0 <= j < i ==> #[trigger] r@[j] == (GameTarget {
                        module: *module,
                        game_id: rows@[j].app_id,
                        status: status_of(rows@[j].complete),
                    }),
            {
                r.push(GameTarget {
                    module: module.clone(),
                    game_id: rows[i].app_id,
                    status: steam_status_to_module_status(&rows[i].complete),
                });
            }
        },
    }
    r
}

/// The target row that saving a game's target status stores: the game,
/// marked complete exactly when the status is `Complete`.
pub fn save_game_target(game_identifier: &GameIdentifier, status: TargetStatus) -> (r: GameTargetRecord)
    ensures
        r == (GameTargetRecord { app_id: game_identifier.id, complete: flag_of(status) }),
{
    match game_identifier.module {
        Module::STEAM(_) => GameTargetRecord {
            app_id: game_identifier.id,
            complete: match status {
                TargetStatus::Target => false,
                TargetStatus::Complete => true,
            },
        },
    }
}

/// Law: a target status reads back as it was saved. When the row that
/// `save_game_target` stores is the first stored row of its game, the
/// status read for the game is the status that was saved.
pub proof fn lemma_target_status_round_trip(
    saved: GameTargetRecord,
    status: TargetStatus,
    before: Seq<GameTargetRecord>,
    after: Seq<GameTargetRecord>,
)
    requires
        saved.complete == flag_of(status),
        forall|j: int| 0 <= j < before.len() ==> before[j].app_id != saved.app_id,
    ensures
        target_status_of(before.push(saved) + after, saved.app_id) == Some(status),
{
    let rows = before.push(saved) + after;
    let i = before.len() as int;
    assert(rows[i] == saved);
    assert(forall|j: int| 0 <= j < i ==> rows[j] == before[j]);
    let k = first_target_index(rows, saved.app_id)->0;
    assert(first_target_index(rows, saved.app_id) is Some);
    assert(!(k < i)) by {
        if k < i {
            assert(rows[k] == before[k]);
        }
    }
    assert(!(i < k));
}

} // verus!
