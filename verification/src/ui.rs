//! The decisions behind the application's views: which games a game list
//! shows and in what order, which games fill the trophy case, the totals
//! of the achievement progress, and the credentials the views use.

use std::collections::HashMap;
use vstd::prelude::*;
use vstd::std_specs::hash::spec_hash_map_iter;
use vstd::std_specs::iter::IteratorSpec;
use crate::achievements::{contains_string, string_views, GameAchievement, ModuleGoal, SteamAchievement};
use crate::game_targets::{GameTarget, TargetStatus};
use crate::module::GameIdentifier;
use crate::steam_api::clone_opt_string;
use crate::goals::{
    active_target, complete_target, completion_status, has_completion_status, perfect_in, AchievementProgress,
    GameCompletionStatus,
};
use crate::steam_db::{ExcludedAchievementRecord, GameCompletion, GameTargetRecord};
use crate::module::{Game, Module};
use crate::sort::{stable_order, stable_sort_positions};
use crate::text::{chars_of, contains_chars, contains_seq, decimal_string, int_decimal, occurs_at, to_uppercase, uppercase_of};

verus! {

broadcast use vstd::std_specs::hash::group_hash_axioms;

/// The Steam credentials the views use.
#[derive(Debug)]
pub struct Credentials {
    pub key: String,
    pub steam_id: String,
}

impl Clone for Credentials {
    fn clone(&self) -> (r: Self)
        ensures
            r == *self,
    {
        Credentials { key: self.key.clone(), steam_id: self.steam_id.clone() }
    }
}

/// Why credentials could not be loaded.
#[derive(Clone, Copy, Debug, PartialEq, Eq)]
pub enum CredentialsError {
    /// No module with Steam credentials is enabled: the command line tool
    /// must be run with a Steam id first.
    NoSteamCredentials,
}

/// The credentials of the first enabled Steam module; an error when no
/// module is enabled.
pub fn load_credentials(modules: &Vec<Module>) -> (r: Result<Credentials, CredentialsError>)
    ensures
        modules@.len() == 0 ==> r == Err::<Credentials, CredentialsError>(CredentialsError::NoSteamCredentials),
        modules@.len() > 0 ==> (modules@[0] matches Module::STEAM(c) && r matches Ok(cr) && cr.key@
            == c.key_view() && cr.steam_id@ == c.steam_id_view()),
{
    if modules.len() > 0 {
        match &modules[0] {
            Module::STEAM(c) => {
                return Ok(Credentials { key: c.key().clone(), steam_id: c.steam_id().clone() });
            },
        }
    }
    Err(CredentialsError::NoSteamCredentials)
}

/// Which games a game list shows.
#[derive(Clone, Copy, Debug, Default, PartialEq, Eq, Hash, Structural)]
pub enum GameListFilter {
    Targets,
    #[default]
    InProgress,
    Completed,
    Perfected,
}

/// A game as a game list shows it: its name and its progress in percent.
#[derive(Debug)]
pub struct GameListDisplay {
    pub game_name: String,
    pub progress_display: String,
    pub id: i32,
}

impl Clone for GameListDisplay {
    fn clone(&self) -> (r: Self)
        ensures
            r == *self,
    {
        GameListDisplay { game_name: self.game_name.clone(), progress_display: self.progress_display.clone(), id: self.id }
    }
}

/// A copy of a game list's entries.
fn clone_list(list: &Vec<GameListDisplay>) -> (r: Vec<GameListDisplay>)
    ensures
        r@ == list@,
{
    let mut r: Vec<GameListDisplay> = Vec::new();
    for i in 0..list.len()
        invariant
            r@ == list@.take(i as int),
    {
        r.push(list[i].clone());
        proof {
            assert(list@.take(i + 1) =~= list@.take(i as int).push(list@[i as int]));
        }
    }
    proof {
        assert(list@.take(list@.len() as int) =~= list@);
    }
    r
}

/// A game list.
#[derive(Debug)]
pub struct GameListResult {
    pub filter: GameListFilter,
    pub has_achievements: bool,
    pub list: Vec<GameListDisplay>,
}

impl Clone for GameListResult {
    fn clone(&self) -> (r: Self)
        ensures
            r.filter == self.filter,
            r.has_achievements == self.has_achievements,
            r.list@ == self.list@,
    {
        GameListResult { filter: self.filter, has_achievements: self.has_achievements, list: clone_list(&self.list) }
    }
}

/// The game is an open target.
pub open spec fn is_open_target(targets: Seq<GameTarget>, id: i32) -> bool {
    exists|i: int| 0 <= i < targets.len() && #[trigger] targets[i].game_id == id && targets[i].status == TargetStatus::Target
}

/// The game counts as complete.
pub open spec fn is_complete(completion: Map<i32, GameCompletionStatus>, id: i32) -> bool {
    completion.contains_key(id) && completion[id].complete
}

/// The game counts as perfected.
pub open spec fn is_perfected(completion: Map<i32, GameCompletionStatus>, id: i32) -> bool {
    completion.contains_key(id) && completion[id].perfect
}

/// A game belongs to a list: targets are the open targets; in progress
/// are the games not complete and the open targets; completed and perfected
/// are the complete and perfected games that are not open targets.
pub open spec fn in_list(
    filter: GameListFilter,
    completion: Map<i32, GameCompletionStatus>,
    targets: Seq<GameTarget>,
    id: i32,
) -> bool {
    match filter {
        GameListFilter::Targets => is_open_target(targets, id),
        GameListFilter::InProgress => !is_complete(completion, id) || is_open_target(targets, id),
        GameListFilter::Completed => is_complete(completion, id) && !is_open_target(targets, id),
        GameListFilter::Perfected => is_perfected(completion, id) && !is_open_target(targets, id),
    }
}

/// A game's name matches the search, without regard to case.
pub open spec fn matches_search(search: Option<String>, name: Seq<char>) -> bool {
    match search {
        Some(s) => contains_seq(uppercase_of(name), uppercase_of(s@)),
        None => true,
    }
}

/// A game is shown in a list: it matches the search, belongs to the list,
/// and, when only games with achievements are shown, has progress.
pub open spec fn shown(
    g: Game,
    filter: GameListFilter,
    has_achievements: bool,
    search: Option<String>,
    completion: Map<i32, GameCompletionStatus>,
    targets: Seq<GameTarget>,
    progress: Map<i32, i8>,
) -> bool {
    &&& matches_search(search, g.name@)
    &&& in_list(filter, completion, targets, g.identifier.id)
    &&& has_achievements ==> progress.contains_key(g.identifier.id)
}

/// A game's progress in percent; 0 when it has none.
pub open spec fn percent_of(progress: Map<i32, i8>, id: i32) -> i8 {
    if progress.contains_key(id) {
        progress[id]
    } else {
        0
    }
}

/// The sort key that puts higher progress first.
pub open spec fn descending_key(progress: Map<i32, i8>, g: Game) -> i64 {
    (-(percent_of(progress, g.identifier.id) as int)) as i64
}

/// The sort keys of a list of games.
pub open spec fn list_keys(games: Seq<Game>, progress: Map<i32, i8>) -> Seq<i64> {
    games.map_values(|g: Game| descending_key(progress, g))
}

/// The games that a list shows, in the order they are owned.
pub open spec fn listed_games(
    games: Seq<Game>,
    completion: Map<i32, GameCompletionStatus>,
    progress: Map<i32, i8>,
    targets: Seq<GameTarget>,
    has_achievements: bool,
    filter: GameListFilter,
    search: Option<String>,
) -> Seq<Game> {
    games.filter(|g: Game| shown(g, filter, has_achievements, search, completion, targets, progress))
}

/// `r` is the game list of a filter, achievement flag and search: the
/// games it shows, each as the list shows it, by descending progress and,
/// among equal progress, in the order they are owned.
pub open spec fn is_game_list(
    r: GameListResult,
    games: Seq<Game>,
    completion: Map<i32, GameCompletionStatus>,
    progress: Map<i32, i8>,
    targets: Seq<GameTarget>,
    has_achievements: bool,
    filter: GameListFilter,
    search: Option<String>,
) -> bool {
    let kept = listed_games(games, completion, progress, targets, has_achievements, filter, search);
    &&& r.filter == filter
    &&& r.has_achievements == has_achievements
    &&& exists|order: Seq<usize>|
        {
            &&& #[trigger] stable_order(list_keys(kept, progress), order)
            &&& r.list@.len() == order.len()
            &&& forall|k: int| 0 <= k < order.len() ==> displays(#[trigger] r.list@[k], kept[order[k] as int], progress)
        }
}

/// How a game list shows a game.
pub open spec fn displays(d: GameListDisplay, g: Game, progress: Map<i32, i8>) -> bool {
    &&& d.game_name@ == g.name@
    &&& d.progress_display@ == int_decimal(percent_of(progress, g.identifier.id) as int)
    &&& d.id == g.identifier.id
}

fn open_target(targets: &Vec<GameTarget>, id: i32) -> (r: bool)
    ensures
        r == is_open_target(targets@, id),
{
    let mut i: usize = 0;
    while i < targets.len()
        invariant
            i <= targets@.len(),
            forall|j: int| 0 <= j < i ==> !(#[trigger] targets@[j].game_id == id && targets@[j].status == TargetStatus::Target),
        decreases targets@.len() - i,
    {
        if targets[i].game_id == id {
            match targets[i].status {
                TargetStatus::Target => {
                    return true;
                },
                TargetStatus::Complete => {},
            }
        }
        i += 1;
    }
    false
}

fn complete_flag(completion: &HashMap<i32, GameCompletionStatus>, id: i32, perfect: bool) -> (r: bool)
    ensures
        r == if perfect {
            is_perfected(completion@, id)
        } else {
            is_complete(completion@, id)
        },
{
    match completion.get(&id) {
        Some(c) => if perfect {
            c.perfect
        } else {
            c.complete
        },
        None => false,
    }
}

/// Whether a game belongs to a list.
pub fn belongs_to_list(
    filter: GameListFilter,
    completion: &HashMap<i32, GameCompletionStatus>,
    targets: &Vec<GameTarget>,
    id: i32,
) -> (r: bool)
    ensures
        r == in_list(filter, completion@, targets@, id),
{
    match filter {
        GameListFilter::Targets => open_target(targets, id),
        GameListFilter::InProgress => !complete_flag(completion, id, false) || open_target(targets, id),
        GameListFilter::Completed => complete_flag(completion, id, false) && !open_target(targets, id),
        GameListFilter::Perfected => complete_flag(completion, id, true) && !open_target(targets, id),
    }
}

impl GameListDisplay {
    /// The game list of a filter: the owned games that match the title
    /// search (ignoring case), belong to the list and, when asked, have
    /// achievement progress, ordered by progress from highest to lowest
    /// (games with equal progress keep their order), each shown with its
    /// progress in percent.
    pub fn list(
        games: &Vec<Game>,
        completion: &HashMap<i32, GameCompletionStatus>,
        progress: &HashMap<i32, i8>,
        targets: &Vec<GameTarget>,
        has_achievements: bool,
        filter: GameListFilter,
        title_search: Option<String>,
    ) -> (r: GameListResult)
        ensures
            is_game_list(r, games@, completion@, progress@, targets@, has_achievements, filter, title_search),
            title_search matches Some(s) && s@.len() == 0 ==> is_game_list(
                r,
                games@,
                completion@,
                progress@,
                targets@,
                has_achievements,
                filter,
                None,
            ),
    {
        let ghost keep = |g: Game| shown(g, filter, has_achievements, title_search, completion@, targets@, progress@);
        let search_upper: Option<Vec<char>> = match &title_search {
            Some(s) => Some(chars_of(to_uppercase(s.as_str()).as_str())),
            None => None,
        };
        let mut kept: Vec<usize> = Vec::new();
        let mut keys: Vec<i64> = Vec::new();
        let ghost mut kept_games: Seq<Game> = Seq::empty();
        for i in 0..games.len()
            invariant
                keep == (|g: Game| shown(g, filter, has_achievements, title_search, completion@, targets@, progress@)),
                match title_search {
                    Some(s) => search_upper matches Some(u) && u@ == uppercase_of(s@),
                    None => search_upper is None,
                },
                kept_games == games@.take(i as int).filter(keep),
                kept@.len() == kept_games.len(),
                keys@ == list_keys(kept_games, progress@),
                forall|k: int| 0 <= k < kept@.len() ==> #[trigger] kept@[k] < games@.len() && games@[kept@[k] as int] == kept_games[k],
        {
            proof {
                assert(games@.take(i + 1).drop_last() == games@.take(i as int));
                reveal(Seq::filter);
            }
            let g = &games[i];
            let id = g.identifier.id;
            let search_ok = match &search_upper {
                Some(u) => {
                    let name = chars_of(to_uppercase(g.name.as_str()).as_str());
                    contains_chars(&name, u)
                },
                None => true,
            };
            let list_ok = belongs_to_list(filter, completion, targets, id);
            let progress_ok = !has_achievements || progress.contains_key(&id);
            if search_ok && list_ok && progress_ok {
                let p: i8 = match progress.get(&id) {
                    Some(p) => *p,
                    None => 0,
                };
                kept.push(i);
                keys.push(-(p as i64));
                proof {
                    kept_games = kept_games.push(games@[i as int]);
                    assert(keys@ =~= list_keys(kept_games, progress@));
                }
            }
        }
        proof {
            assert(games@.take(games@.len() as int) == games@);
        }
        let order = stable_sort_positions(&keys);
        let mut list: Vec<GameListDisplay> = Vec::new();
        for k in 0..order.len()
            invariant
                stable_order(keys@, order@),
                keys@ == list_keys(kept_games, progress@),
                keys@.len() == kept@.len(),
                kept_games == games@.filter(keep),
                kept@.len() == kept_games.len(),
                forall|k: int| 0 <= k < kept@.len() ==> #[trigger] kept@[k] < games@.len() && games@[kept@[k] as int] == kept_games[k],
                list@.len() == k,
                forall|j: int| 0 <= j < k ==> displays(#[trigger] list@[j], kept_games[order@[j] as int], progress@),
        {
            let pos = order[k];
            let g = &games[kept[pos]];
            let p: i8 = match progress.get(&g.identifier.id) {
                Some(p) => *p,
                None => 0,
            };
            list.push(GameListDisplay {
                game_name: g.name.clone(),
                progress_display: decimal_string(p as i64),
                id: g.identifier.id,
            });
        }
        proof {
            assert(kept_games == listed_games(games@, completion@, progress@, targets@, has_achievements, filter, title_search));
            assert(stable_order(list_keys(kept_games, progress@), order@));
            if let Some(s) = title_search {
                if s@.len() == 0 {
                    lemma_empty_search_shows_all(games@, completion@, progress@, targets@, has_achievements, filter, s);
                }
            }
        }
        GameListResult { filter, has_achievements, list }
    }
}

/// Law: every game is either in progress or completed, never both; and
/// every open target is in progress.
pub proof fn lemma_in_progress_or_completed(
    completion: Map<i32, GameCompletionStatus>,
    targets: Seq<GameTarget>,
    id: i32,
)
    ensures
        in_list(GameListFilter::InProgress, completion, targets, id) != in_list(
            GameListFilter::Completed,
            completion,
            targets,
            id,
        ),
        in_list(GameListFilter::Targets, completion, targets, id) ==> in_list(
            GameListFilter::InProgress,
            completion,
            targets,
            id,
        ),
{
}

/// A game with this id is listed.
pub open spec fn lists_id(r: GameListResult, id: i32) -> bool {
    exists|k: int| 0 <= k < r.list@.len() && #[trigger] r.list@[k].id == id
}

/// An owned game with this id is shown under a filter, achievement flag
/// and search.
pub open spec fn shows_id(
    games: Seq<Game>,
    completion: Map<i32, GameCompletionStatus>,
    progress: Map<i32, i8>,
    targets: Seq<GameTarget>,
    has_achievements: bool,
    filter: GameListFilter,
    search: Option<String>,
    id: i32,
) -> bool {
    exists|i: int|
        0 <= i < games.len() && #[trigger] games[i].identifier.id == id && shown(
            games[i],
            filter,
            has_achievements,
            search,
            completion,
            targets,
            progress,
        )
}

/// An empty search, whose upper case is empty, shows the games that no
/// search shows.
proof fn lemma_empty_search_shows_all(
    games: Seq<Game>,
    completion: Map<i32, GameCompletionStatus>,
    progress: Map<i32, i8>,
    targets: Seq<GameTarget>,
    has_achievements: bool,
    filter: GameListFilter,
    search: String,
)
    requires
        uppercase_of(search@).len() == 0,
    ensures
        listed_games(games, completion, progress, targets, has_achievements, filter, Some(search)) == listed_games(
            games,
            completion,
            progress,
            targets,
            has_achievements,
            filter,
            None,
        ),
{
    let p1 = |g: Game| shown(g, filter, has_achievements, Some(search), completion, targets, progress);
    let p2 = |g: Game| shown(g, filter, has_achievements, None, completion, targets, progress);
    assert forall|g: Game| #[trigger] p1(g) == p2(g) by {
        let hay = uppercase_of(g.name@);
        assert(hay.subrange(0, 0) =~= uppercase_of(search@));
        assert(occurs_at(hay, uppercase_of(search@), 0));
    }
    assert(p1 =~= p2);
}

/// A game list lists exactly the ids of the owned games it shows.
pub proof fn lemma_game_list_ids(
    r: GameListResult,
    games: Seq<Game>,
    completion: Map<i32, GameCompletionStatus>,
    progress: Map<i32, i8>,
    targets: Seq<GameTarget>,
    has_achievements: bool,
    filter: GameListFilter,
    search: Option<String>,
    id: i32,
)
    requires
        is_game_list(r, games, completion, progress, targets, has_achievements, filter, search),
    ensures
        lists_id(r, id) <==> shows_id(games, completion, progress, targets, has_achievements, filter, search, id),
{
    let pred = |g: Game| shown(g, filter, has_achievements, search, completion, targets, progress);
    let kept = listed_games(games, completion, progress, targets, has_achievements, filter, search);
    assert(kept == games.filter(pred));
    let order = choose|order: Seq<usize>|
        {
            &&& #[trigger] stable_order(list_keys(kept, progress), order)
            &&& r.list@.len() == order.len()
            &&& forall|k: int| 0 <= k < order.len() ==> displays(#[trigger] r.list@[k], kept[order[k] as int], progress)
        };
    assert(list_keys(kept, progress).len() == kept.len());
    if lists_id(r, id) {
        let k = choose|k: int| 0 <= k < r.list@.len() && #[trigger] r.list@[k].id == id;
        assert(displays(r.list@[k], kept[order[k] as int], progress));
        let g = kept[order[k] as int];
        games.lemma_filter_pred(pred, order[k] as int);
        assert(kept.contains(g));
        games.lemma_filter_contains_rev(pred, g);
        let i = choose|i: int| 0 <= i < games.len() && games[i] == g;
        assert(games[i].identifier.id == id);
    }
    if shows_id(games, completion, progress, targets, has_achievements, filter, search, id) {
        let i = choose|i: int|
            0 <= i < games.len() && #[trigger] games[i].identifier.id == id && shown(
                games[i],
                filter,
                has_achievements,
                search,
                completion,
                targets,
                progress,
            );
        games.lemma_filter_contains(pred, i);
        let p = choose|p: int| 0 <= p < kept.len() && kept[p] == games[i];
        crate::sort::lemma_stable_order_covers(list_keys(kept, progress), order, p);
        let k = choose|k: int| 0 <= k < order.len() && order[k] == p;
        assert(displays(r.list@[k], kept[order[k] as int], progress));
        assert(r.list@[k].id == id);
    }
}

/// Law: the in-progress and completed lists split the games. For the same
/// owned games, stored data, achievement flag and search, no game is in
/// both lists, and a game is in one of them exactly when it is owned,
/// matches the search and, when only games with achievements are shown,
/// has progress.
pub proof fn lemma_lists_split_games(
    in_progress: GameListResult,
    completed: GameListResult,
    games: Seq<Game>,
    completion: Map<i32, GameCompletionStatus>,
    progress: Map<i32, i8>,
    targets: Seq<GameTarget>,
    has_achievements: bool,
    search: Option<String>,
    id: i32,
)
    requires
        is_game_list(in_progress, games, completion, progress, targets, has_achievements, GameListFilter::InProgress, search),
        is_game_list(completed, games, completion, progress, targets, has_achievements, GameListFilter::Completed, search),
    ensures
        !(lists_id(in_progress, id) && lists_id(completed, id)),
        lists_id(in_progress, id) || lists_id(completed, id) <==> exists|i: int|
            0 <= i < games.len() && #[trigger] games[i].identifier.id == id && matches_search(search, games[i].name@)
                && (has_achievements ==> progress.contains_key(id)),
{
    lemma_game_list_ids(in_progress, games, completion, progress, targets, has_achievements, GameListFilter::InProgress, search, id);
    lemma_game_list_ids(completed, games, completion, progress, targets, has_achievements, GameListFilter::Completed, search, id);
    lemma_in_progress_or_completed(completion, targets, id);
}

/// Law: a title search only narrows a list, and ignores case. For the
/// same owned games, stored data, filter and achievement flag, the list
/// with a search lists exactly the games of the list without one whose
/// upper-cased name holds the upper-cased search; so two searches that
/// differ only in case list the same games.
pub proof fn lemma_search_narrows(
    all: GameListResult,
    searched: GameListResult,
    games: Seq<Game>,
    completion: Map<i32, GameCompletionStatus>,
    progress: Map<i32, i8>,
    targets: Seq<GameTarget>,
    has_achievements: bool,
    filter: GameListFilter,
    search: String,
    id: i32,
)
    requires
        is_game_list(all, games, completion, progress, targets, has_achievements, filter, None),
        is_game_list(searched, games, completion, progress, targets, has_achievements, filter, Some(search)),
    ensures
        lists_id(searched, id) ==> lists_id(all, id),
        lists_id(searched, id) <==> exists|i: int|
            0 <= i < games.len() && #[trigger] games[i].identifier.id == id && shown(
                games[i],
                filter,
                has_achievements,
                None,
                completion,
                targets,
                progress,
            ) && contains_seq(uppercase_of(games[i].name@), uppercase_of(search@)),
{
    lemma_game_list_ids(all, games, completion, progress, targets, has_achievements, filter, None, id);
    lemma_game_list_ids(searched, games, completion, progress, targets, has_achievements, filter, Some(search), id);
}

/// Law: an empty title search lists the same games as no search. `list`
/// gives, for an empty search, a list that is also the list without a
/// search; any two lists without a search, for the same owned games,
/// stored data, filter and achievement flag, list the same games.
pub proof fn lemma_same_lists_same_games(
    a: GameListResult,
    b: GameListResult,
    games: Seq<Game>,
    completion: Map<i32, GameCompletionStatus>,
    progress: Map<i32, i8>,
    targets: Seq<GameTarget>,
    has_achievements: bool,
    filter: GameListFilter,
    id: i32,
)
    requires
        is_game_list(a, games, completion, progress, targets, has_achievements, filter, None),
        is_game_list(b, games, completion, progress, targets, has_achievements, filter, None),
    ensures
        lists_id(a, id) <==> lists_id(b, id),
{
    lemma_game_list_ids(a, games, completion, progress, targets, has_achievements, filter, None, id);
    lemma_game_list_ids(b, games, completion, progress, targets, has_achievements, filter, None, id);
}

/// Which games the trophy case shows.
#[derive(Clone, Copy, Debug, Default, PartialEq, Eq, Hash, Structural)]
pub enum TrophyCaseFilter {
    #[default]
    Completed,
    Perfected,
}

/// A game earns a trophy: it is complete, or perfected.
pub open spec fn earns_trophy(view: TrophyCaseFilter, completion: Map<i32, GameCompletionStatus>, id: i32) -> bool {
    match view {
        TrophyCaseFilter::Completed => is_complete(completion, id),
        TrophyCaseFilter::Perfected => is_perfected(completion, id),
    }
}

/// The games in the trophy case: each game that earns the trophy, once, in
/// the order in which the completion map is walked.
pub fn load_trophies(view: TrophyCaseFilter, completion: &HashMap<i32, GameCompletionStatus>) -> (r: (
    TrophyCaseFilter,
    Vec<i32>,
))
    ensures
        r.0 == view,
        r.1@.no_duplicates(),
        forall|id: i32| #[trigger] r.1@.contains(id) <==> earns_trophy(view, completion@, id),
{
    let ghost v = spec_hash_map_iter(completion).remaining();
    // Walking the map lists each of its entries once.
    let entries = completion.iter();
    proof {
        assert(v.no_duplicates());
    }
    let ghost mut n: int = 0;
    let mut ids: Vec<i32> = Vec::new();
    for entry in it: entries
        invariant
            v == spec_hash_map_iter(completion).remaining(),
            it.seq() == v,
            v.no_duplicates(),
            n == it.index(),
            ids@.no_duplicates(),
            forall|id: i32| #[trigger] ids@.contains(id) <==> (exists|k: int| 0 <= k < n && #[trigger] v[k].0 == id)
                && earns_trophy(view, completion@, id),
    {
        let id: i32 = *entry.0;
        let status: GameCompletionStatus = *entry.1;
        let ghost before = ids@;
        proof {
            assert(entry == v[n]);
            assert(completion@.contains_key(id) && completion@[id] == status);
            assert(!before.contains(id)) by {
                if before.contains(id) {
                    let k = choose|k: int| 0 <= k < n && #[trigger] v[k].0 == id;
                    assert(v[k] != v[n]);
                    assert(v[k].1 == &completion@[*v[k].0]);
                }
            }
        }
        let earned = match view {
            TrophyCaseFilter::Completed => status.complete,
            TrophyCaseFilter::Perfected => status.perfect,
        };
        if earned {
            ids.push(id);
        }
        proof {
            assert forall|x: i32| #[trigger] ids@.contains(x) <==> (exists|k: int| 0 <= k < n + 1 && #[trigger] v[k].0 == x)
                && earns_trophy(view, completion@, x) by {
                if exists|k: int| 0 <= k < n + 1 && #[trigger] v[k].0 == x {
                    let k = choose|k: int| 0 <= k < n + 1 && #[trigger] v[k].0 == x;
                    if k < n {
                        assert(exists|k: int| 0 <= k < n && #[trigger] v[k].0 == x);
                    }
                }
                if ids@.contains(x) && x == id {
                    assert(v[n].0 == x);
                }
                if x == id && earned {
                    assert(ids@[ids@.len() - 1] == x);
                }
                if ids@.contains(x) && x != id {
                    let k = choose|k: int| 0 <= k < ids@.len() && ids@[k] == x;
                    assert(before[k] == x);
                }
                if before.contains(x) {
                    let k = choose|k: int| 0 <= k < before.len() && before[k] == x;
                    assert(ids@[k] == x);
                }
            }
            n = n + 1;
        }
    }
    proof {
        assert forall|id: i32| #[trigger] ids@.contains(id) <==> earns_trophy(view, completion@, id) by {
            if earns_trophy(view, completion@, id) {
                assert(v.contains((&id, &completion@[id])));
                let k = choose|k: int| 0 <= k < v.len() && v[k] == (&id, &completion@[id]);
                assert(v[k].0 == id);
            }
        }
    }
    (view, ids)
}

/// The totals of the achievement progress over all games.
#[derive(Clone, Copy, Debug, PartialEq, Eq)]
pub struct TotalAchievementProgress {
    pub total_achievements: u32,
    pub unlocked_achievements: u32,
    pub total_excluded: u32,
}

/// Law: the trophy case follows the completion statuses. Over the map that
/// `get_game_completion` gives, a game is in the completed trophy case
/// exactly when its status is complete, which holds at least when its
/// target is marked complete or it is perfected and not an open target;
/// it is in the perfected trophy case exactly when it is perfected.
pub proof fn lemma_trophies_follow_completion(
    targets: Seq<GameTargetRecord>,
    completions: Seq<GameCompletion>,
    excluded: Seq<ExcludedAchievementRecord>,
    completion: Map<i32, GameCompletionStatus>,
    id: i32,
)
    requires
        forall|a: i32| #[trigger] completion.contains_key(a) <==> has_completion_status(targets, completions, excluded, a),
        forall|a: i32| #[trigger] completion.contains_key(a) ==> completion[a] == completion_status(
            targets,
            completions,
            excluded,
            a,
        ),
    ensures
        earns_trophy(TrophyCaseFilter::Completed, completion, id) <==> completion_status(
            targets,
            completions,
            excluded,
            id,
        ).complete,
        earns_trophy(TrophyCaseFilter::Perfected, completion, id) <==> perfect_in(completions, id),
        complete_target(targets, id) ==> earns_trophy(TrophyCaseFilter::Completed, completion, id),
        perfect_in(completions, id) && !active_target(targets, id) ==> earns_trophy(
            TrophyCaseFilter::Completed,
            completion,
            id,
        ),
{
    assert(completion.contains_key(id) <==> has_completion_status(targets, completions, excluded, id));
}

/// The achievements that count as done in a trophy case: the unlocked
/// and the excluded ones for completed games, the unlocked ones for
/// perfected games.
pub fn achievements_done(progress: &TotalAchievementProgress, filter: TrophyCaseFilter) -> (r: u64)
    ensures
        r == match filter {
            TrophyCaseFilter::Completed => progress.unlocked_achievements + progress.total_excluded,
            TrophyCaseFilter::Perfected => progress.unlocked_achievements as int,
        },
{
    match filter {
        TrophyCaseFilter::Completed => progress.unlocked_achievements as u64 + progress.total_excluded as u64,
        TrophyCaseFilter::Perfected => progress.unlocked_achievements as u64,
    }
}

/// `e` lists the entries of `m`, each once.
pub open spec fn enumerates(e: Seq<(i32, AchievementProgress)>, m: Map<i32, AchievementProgress>) -> bool {
    e.no_duplicates() && e.to_set() == m.kv_pairs()
}

/// The sums of the totals, unlocked and excluded counts of entries.
pub open spec fn progress_sums(e: Seq<(i32, AchievementProgress)>) -> (int, int, int)
    decreases e.len(),
{
    if e.len() == 0 {
        (0, 0, 0)
    } else {
        let s = progress_sums(e.drop_last());
        let p = e.last().1;
        (s.0 + p.total, s.1 + p.unlocked, s.2 + p.excluded)
    }
}

/// The sums over the progress of all games fit in `u32`.
pub open spec fn progress_sums_fit(m: Map<i32, AchievementProgress>) -> bool {
    forall|e: Seq<(i32, AchievementProgress)>|
        #[trigger] enumerates(e, m) ==> progress_sums(e).0 <= u32::MAX && progress_sums(e).1 <= u32::MAX
            && progress_sums(e).2 <= u32::MAX
}

proof fn lemma_progress_sums_monotone(e: Seq<(i32, AchievementProgress)>, n: int)
    requires
        0 <= n <= e.len(),
    ensures
        progress_sums(e.take(n)).0 <= progress_sums(e).0,
        progress_sums(e.take(n)).1 <= progress_sums(e).1,
        progress_sums(e.take(n)).2 <= progress_sums(e).2,
    decreases e.len() - n,
{
    if n < e.len() {
        lemma_progress_sums_monotone(e, n + 1);
        assert(e.take(n + 1).drop_last() == e.take(n));
    } else {
        assert(e.take(n) == e);
    }
}

/// The totals of the achievement progress: the sums, over all games, of
/// their achievements, their unlocked achievements and their exclusions.
pub fn load_achievement_progress(progress: &HashMap<i32, AchievementProgress>) -> (r: TotalAchievementProgress)
    requires
        progress_sums_fit(progress@),
    ensures
        exists|e: Seq<(i32, AchievementProgress)>|
            #[trigger] enumerates(e, progress@) && progress_sums(e) == (
                r.total_achievements as int,
                r.unlocked_achievements as int,
                r.total_excluded as int,
            ),
{
    let ghost v = spec_hash_map_iter(progress).remaining();
    let ghost e = v.unref();
    // Walking the map lists each of its entries once.
    let entries = progress.iter();
    proof {
        assert(v.no_duplicates());
    }
    proof {
        assert(e.no_duplicates()) by {
            assert forall|i: int, j: int| 0 <= i < e.len() && 0 <= j < e.len() && i != j implies e[i] != e[j] by {
                assert(v[i] != v[j]);
            }
        }
        assert(enumerates(e, progress@));
    }
    let ghost mut n: int = 0;
    let mut total_achievements: u32 = 0;
    let mut unlocked_achievements: u32 = 0;
    let mut total_excluded: u32 = 0;
    for entry in it: entries
        invariant
            v == spec_hash_map_iter(progress).remaining(),
            e == v.unref(),
            enumerates(e, progress@),
            progress_sums_fit(progress@),
            it.seq() == v,
            n == it.index(),
            progress_sums(e.take(n)) == (total_achievements as int, unlocked_achievements as int, total_excluded as int),
    {
        let p: AchievementProgress = *entry.1;
        proof {
            assert(entry == v[n]);
            assert(e[n] == (*v[n].0, *v[n].1));
            assert(e.take(n + 1).drop_last() == e.take(n));
            assert(e.take(n + 1).last() == e[n]);
            lemma_progress_sums_monotone(e, n + 1);
        }
        total_achievements += p.total;
        unlocked_achievements += p.unlocked;
        total_excluded += p.excluded;
        proof {
            n = n + 1;
        }
    }
    proof {
        assert(e.take(n) == e);
    }
    TotalAchievementProgress { total_achievements, unlocked_achievements, total_excluded }
}

/// Where an achievement stands for the player. Goals come first, then the
/// achievements still open, the unlocked ones, and the excluded ones.
#[derive(Clone, Copy, Debug, PartialEq, Eq, Hash, Structural)]
pub enum GoalState {
    Goal,
    Incomplete,
    Complete,
    Excluded,
}

/// The rank of a state in the order of `GoalState`.
pub open spec fn state_rank(s: GoalState) -> i64 {
    match s {
        GoalState::Goal => 0,
        GoalState::Incomplete => 1,
        GoalState::Complete => 2,
        GoalState::Excluded => 3,
    }
}

fn rank(s: GoalState) -> (r: i64)
    ensures
        r == state_rank(s),
{
    match s {
        GoalState::Goal => 0,
        GoalState::Incomplete => 1,
        GoalState::Complete => 2,
        GoalState::Excluded => 3,
    }
}

/// An achievement as the game view shows it.
#[derive(Debug)]
pub struct GameGoalDisplay {
    pub display_name: String,
    pub description: String,
    pub goal_state: GoalState,
    pub achievement_name: String,
    pub icon: Option<String>,
    pub icon_gray: Option<String>,
}

impl Clone for GameGoalDisplay {
    fn clone(&self) -> (r: Self)
        ensures
            r == *self,
    {
        GameGoalDisplay {
            display_name: self.display_name.clone(),
            description: self.description.clone(),
            goal_state: self.goal_state,
            achievement_name: self.achievement_name.clone(),
            icon: clone_opt_string(&self.icon),
            icon_gray: clone_opt_string(&self.icon_gray),
        }
    }
}

/// A game as the game view shows it.
#[derive(Debug)]
pub struct GameDisplay {
    pub id: GameIdentifier,
    pub game_name: String,
    pub target: bool,
    pub complete: bool,
    pub goals: Vec<GameGoalDisplay>,
    pub game_cover_edit: bool,
    pub game_cover_url: String,
}

/// A copy of a game view's achievements.
fn clone_goal_rows(goals: &Vec<GameGoalDisplay>) -> (r: Vec<GameGoalDisplay>)
    ensures
        r@ == goals@,
{
    let mut r: Vec<GameGoalDisplay> = Vec::new();
    for i in 0..goals.len()
        invariant
            r@ == goals@.take(i as int),
    {
        r.push(goals[i].clone());
        proof {
            assert(goals@.take(i + 1) =~= goals@.take(i as int).push(goals@[i as int]));
        }
    }
    proof {
        assert(goals@.take(goals@.len() as int) =~= goals@);
    }
    r
}

impl Clone for GameDisplay {
    fn clone(&self) -> (r: Self)
        ensures
            r.id == self.id,
            r.game_name == self.game_name,
            r.target == self.target,
            r.complete == self.complete,
            r.goals@ == self.goals@,
            r.game_cover_edit == self.game_cover_edit,
            r.game_cover_url == self.game_cover_url,
    {
        GameDisplay {
            id: self.id.clone(),
            game_name: self.game_name.clone(),
            target: self.target,
            complete: self.complete,
            goals: clone_goal_rows(&self.goals),
            game_cover_edit: self.game_cover_edit,
            game_cover_url: self.game_cover_url.clone(),
        }
    }
}

/// A goal of the game names the achievement.
pub open spec fn is_game_goal(goals: Seq<ModuleGoal>, name: Seq<char>) -> bool {
    exists|i: int| 0 <= i < goals.len() && (#[trigger] goals[i] matches ModuleGoal::STEAM(a) && a.achievement_name@ == name)
}

/// The state of an achievement: unlocked, else excluded, else a goal, else
/// open.
pub open spec fn goal_state_of(a: GameAchievement, excluded: Seq<Seq<char>>, goals: Seq<ModuleGoal>) -> GoalState {
    if a.achieved {
        GoalState::Complete
    } else if excluded.contains(a.id@) {
        GoalState::Excluded
    } else if is_game_goal(goals, a.id@) {
        GoalState::Goal
    } else {
        GoalState::Incomplete
    }
}

/// How the game view shows an achievement, with its state.
pub open spec fn shows_achievement(d: GameGoalDisplay, a: GameAchievement, state: GoalState) -> bool {
    &&& d.display_name@ == a.display_name@
    &&& d.description@ == match a.description {
        Some(t) => t@,
        None => "-"@,
    }
    &&& d.goal_state == state
    &&& d.achievement_name@ == a.id@
    &&& d.icon == a.achieved_icon_id
    &&& d.icon_gray == a.unachieved_icon_id
}

fn goal_named(goals: &Vec<ModuleGoal>, name: &String) -> (r: bool)
    ensures
        r == is_game_goal(goals@, name@),
{
    let mut i: usize = 0;
    while i < goals.len()
        invariant
            i <= goals@.len(),
            forall|j: int| 0 <= j < i ==> !((#[trigger] goals@[j]) matches ModuleGoal::STEAM(a) && a.achievement_name@ == name@),
        decreases goals@.len() - i,
    {
        match &goals[i] {
            ModuleGoal::STEAM(a) => {
                if a.achievement_name == *name {
                    return true;
                }
            },
        }
        i += 1;
    }
    false
}

/// The sort keys of achievement states.
pub open spec fn state_keys(
    achievements: Seq<GameAchievement>,
    excluded: Seq<Seq<char>>,
    goals: Seq<ModuleGoal>,
) -> Seq<i64> {
    achievements.map_values(|a: GameAchievement| state_rank(goal_state_of(a, excluded, goals)))
}

/// The game view of a game: its achievements with their states, ordered
/// by state (goals, open, unlocked, excluded; in schema order within a
/// state), whether the game is a target and whether it is complete, and
/// its custom cover address (empty when there is none).
pub fn load_game_display(
    id: &GameIdentifier,
    game_name: String,
    achievements: &Vec<GameAchievement>,
    excluded: &Vec<String>,
    goals: &Vec<ModuleGoal>,
    target: Option<TargetStatus>,
    cover_url: Option<String>,
) -> (r: GameDisplay)
    ensures
        r.id == *id,
        r.game_name == game_name,
        r.target == (target is Some),
        r.complete == (target == Some(TargetStatus::Complete)),
        !r.game_cover_edit,
        r.game_cover_url@ == match cover_url {
            Some(u) => u@,
            None => Seq::<char>::empty(),
        },
        ({
            let ex = string_views(excluded@);
            exists|order: Seq<usize>|
                {
                    &&& #[trigger] stable_order(state_keys(achievements@, ex, goals@), order)
                    &&& r.goals@.len() == order.len()
                    &&& forall|k: int|
                        0 <= k < order.len() ==> shows_achievement(
                            #[trigger] r.goals@[k],
                            achievements@[order[k] as int],
                            goal_state_of(achievements@[order[k] as int], ex, goals@),
                        )
                }
        }),
{
    let ghost ex = string_views(excluded@);
    let mut states: Vec<GoalState> = Vec::new();
    let mut keys: Vec<i64> = Vec::new();
    for i in 0..achievements.len()
        invariant
            ex == string_views(excluded@),
            states@.len() == i,
            forall|j: int| 0 <= j < i ==> #[trigger] states@[j] == goal_state_of(achievements@[j], ex, goals@),
            keys@ == state_keys(achievements@.take(i as int), ex, goals@),
    {
        let a = &achievements[i];
        let state = if a.achieved {
            GoalState::Complete
        } else if contains_string(excluded, &a.id) {
            GoalState::Excluded
        } else if goal_named(goals, &a.id) {
            GoalState::Goal
        } else {
            GoalState::Incomplete
        };
        states.push(state);
        keys.push(rank(state));
        proof {
            assert(keys@ =~= state_keys(achievements@.take(i + 1), ex, goals@));
        }
    }
    proof {
        assert(achievements@.take(achievements@.len() as int) == achievements@);
    }
    let order = stable_sort_positions(&keys);
    let mut shown: Vec<GameGoalDisplay> = Vec::new();
    for k in 0..order.len()
        invariant
            ex == string_views(excluded@),
            stable_order(keys@, order@),
            keys@ == state_keys(achievements@, ex, goals@),
            states@.len() == achievements@.len(),
            forall|j: int| 0 <= j < achievements@.len() ==> #[trigger] states@[j] == goal_state_of(achievements@[j], ex, goals@),
            shown@.len() == k,
            forall|j: int|
                0 <= j < k ==> shows_achievement(
                    #[trigger] shown@[j],
                    achievements@[order@[j] as int],
                    goal_state_of(achievements@[order@[j] as int], ex, goals@),
                ),
    {
        let pos = order[k];
        let a = &achievements[pos];
        let description = match &a.description {
            Some(t) => t.clone(),
            None => String::from_str("-"),
        };
        shown.push(GameGoalDisplay {
            display_name: a.display_name.clone(),
            description,
            goal_state: states[pos],
            achievement_name: a.id.clone(),
            icon: clone_opt_string(&a.achieved_icon_id),
            icon_gray: clone_opt_string(&a.unachieved_icon_id),
        });
    }
    let complete = match target {
        Some(TargetStatus::Complete) => true,
        _ => false,
    };
    let game_cover_url = match cover_url {
        Some(u) => u,
        None => String::new(),
    };
    GameDisplay {
        id: id.clone(),
        game_name,
        target: target.is_some(),
        complete,
        goals: shown,
        game_cover_edit: false,
        game_cover_url,
    }
}

/// The icon to show for an achievement: the unlocked icon once it is
/// unlocked, the grey one otherwise.
pub fn load_goal_icon(icon_url: String, icon_gray_url: String, goal_state: GoalState) -> (r: String)
    ensures
        r == if goal_state == GoalState::Complete {
            icon_url
        } else {
            icon_gray_url
        },
{
    if goal_state == GoalState::Complete {
        icon_url
    } else {
        icon_gray_url
    }
}

/// An icon to load: the achievement it is for, and its address.
#[derive(Debug)]
pub struct IconRequest {
    pub achievement_name: String,
    pub url: String,
}

/// The icons to load for a game's achievements: one for each achievement
/// that has both icons, in order, each the icon its state shows.
pub fn load_all_goal_icons(achievements: &Vec<GameGoalDisplay>) -> (r: Vec<IconRequest>)
    ensures
        ({
            let with_icons = achievements@.filter(|a: GameGoalDisplay| a.icon is Some && a.icon_gray is Some);
            &&& r@.len() == with_icons.len()
            &&& forall|k: int|
                0 <= k < r@.len() ==> (#[trigger] r@[k]).achievement_name == with_icons[k].achievement_name
                    && r@[k].url == if with_icons[k].goal_state == GoalState::Complete {
                    with_icons[k].icon->0
                } else {
                    with_icons[k].icon_gray->0
                }
        }),
{
    let ghost keep = |a: GameGoalDisplay| a.icon is Some && a.icon_gray is Some;
    let mut r: Vec<IconRequest> = Vec::new();
    for i in 0..achievements.len()
        invariant
            keep == (|a: GameGoalDisplay| a.icon is Some && a.icon_gray is Some),
            r@.len() == achievements@.take(i as int).filter(keep).len(),
            forall|k: int|
                0 <= k < r@.len() ==> (#[trigger] r@[k]).achievement_name == achievements@.take(i as int).filter(
                    keep,
                )[k].achievement_name && r@[k].url == if achievements@.take(i as int).filter(keep)[k].goal_state
                    == GoalState::Complete {
                    achievements@.take(i as int).filter(keep)[k].icon->0
                } else {
                    achievements@.take(i as int).filter(keep)[k].icon_gray->0
                },
    {
        proof {
            assert(achievements@.take(i + 1).drop_last() == achievements@.take(i as int));
            reveal(Seq::filter);
        }
        let a = &achievements[i];
        match (&a.icon, &a.icon_gray) {
            (Some(icon), Some(gray)) => {
                let url = load_goal_icon(icon.clone(), gray.clone(), a.goal_state);
                r.push(IconRequest { achievement_name: a.achievement_name.clone(), url });
            },
            _ => {},
        }
    }
    proof {
        assert(achievements@.take(achievements@.len() as int) == achievements@);
    }
    r
}

/// What the game view offers for the game's target.
#[derive(Clone, Copy, Debug, PartialEq, Eq)]
pub enum TargetControl {
    /// Make the game a target.
    SetAsGameTarget,
    /// Mark the targeted game complete.
    SetGameAsComplete,
}

/// The target control of the game view: make an untargeted game a target;
/// mark a targeted game complete; nothing once it is complete.
pub fn game_target_button(target: bool, complete: bool) -> (r: Option<TargetControl>)
    ensures
        !target ==> r == Some(TargetControl::SetAsGameTarget),
        target && !complete ==> r == Some(TargetControl::SetGameAsComplete),
        target && complete ==> r is None,
{
    if !target {
        Some(TargetControl::SetAsGameTarget)
    } else if !complete {
        Some(TargetControl::SetGameAsComplete)
    } else {
        None
    }
}

/// The goal that a randomly drawn achievement of a game becomes.
pub open spec fn goal_of_random(game: Game, ra: GameAchievement) -> ModuleGoal {
    ModuleGoal::STEAM(
        SteamAchievement {
            achievement_name: ra.id,
            display_name: ra.display_name,
            description: ra.description,
            game_id: game.identifier.id,
            last_played: game.last_played,
        },
    )
}

/// The goal that a randomly drawn achievement of a game becomes.
pub fn goal_from_random_achievement(game: &Game, ra: &GameAchievement) -> (r: ModuleGoal)
    ensures
        r == goal_of_random(*game, *ra),
{
    ModuleGoal::STEAM(
        SteamAchievement {
            achievement_name: ra.id.clone(),
            display_name: ra.display_name.clone(),
            description: clone_opt_string(&ra.description),
            game_id: game.identifier.id,
            last_played: game.last_played,
        },
    )
}

/// `after` is `before` with the first achievement named `name` shown as a
/// goal.
pub open spec fn marks_goal(before: Seq<GameGoalDisplay>, after: Seq<GameGoalDisplay>, name: Seq<char>) -> bool {
    &&& after.len() == before.len()
    &&& forall|k: int|
        0 <= k < before.len() ==> {
            let b = before[k];
            let a = #[trigger] after[k];
            &&& a.display_name == b.display_name
            &&& a.description == b.description
            &&& a.achievement_name == b.achievement_name
            &&& a.icon == b.icon
            &&& a.icon_gray == b.icon_gray
            &&& a.goal_state == if b.achievement_name@ == name && forall|j: int|
                0 <= j < k ==> before[j].achievement_name@ != name {
                GoalState::Goal
            } else {
                b.goal_state
            }
        }
}

/// Shows the first achievement of the game view with the given name as a
/// goal; the view is otherwise unchanged.
pub fn mark_as_goal(display: &mut GameDisplay, achievement_name: &String)
    ensures
        final(display).id == old(display).id,
        final(display).game_name == old(display).game_name,
        final(display).target == old(display).target,
        final(display).complete == old(display).complete,
        final(display).game_cover_edit == old(display).game_cover_edit,
        final(display).game_cover_url == old(display).game_cover_url,
        marks_goal(old(display).goals@, final(display).goals@, achievement_name@),
{
    let n = display.goals.len();
    let mut i: usize = 0;
    while i < n
        invariant
            n == display.goals@.len(),
            display.goals@ == old(display).goals@,
            display.id == old(display).id,
            display.game_name == old(display).game_name,
            display.target == old(display).target,
            display.complete == old(display).complete,
            display.game_cover_edit == old(display).game_cover_edit,
            display.game_cover_url == old(display).game_cover_url,
            i <= n,
            forall|j: int| 0 <= j < i ==> old(display).goals@[j].achievement_name@ != achievement_name@,
        decreases n - i,
    {
        if display.goals[i].achievement_name == *achievement_name {
            let current = &display.goals[i];
            let updated = GameGoalDisplay {
                display_name: current.display_name.clone(),
                description: current.description.clone(),
                goal_state: GoalState::Goal,
                achievement_name: current.achievement_name.clone(),
                icon: clone_opt_string(&current.icon),
                icon_gray: clone_opt_string(&current.icon_gray),
            };
            display.goals.set(i, updated);
            return;
        }
        i += 1;
    }
}

/// `a` comes before `b` in lexicographic order of characters.
pub open spec fn chars_before(a: Seq<char>, b: Seq<char>) -> bool
    decreases a.len(),
{
    if a.len() == 0 {
        b.len() > 0
    } else if b.len() == 0 {
        false
    } else if a[0] != b[0] {
        (a[0] as int) < (b[0] as int)
    } else {
        chars_before(a.drop_first(), b.drop_first())
    }
}

/// The view of an optional string.
pub open spec fn opt_view(s: Option<String>) -> Option<Seq<char>> {
    match s {
        Some(t) => Some(t@),
        None => None,
    }
}

/// `a` comes before `b`: nothing comes before something.
pub open spec fn opt_before(a: Option<Seq<char>>, b: Option<Seq<char>>) -> bool {
    match (a, b) {
        (None, Some(_)) => true,
        (Some(x), Some(y)) => chars_before(x, y),
        _ => false,
    }
}

/// `a` comes before `b` in the order of goals: by game, then display name,
/// achievement name, description and last played time.
pub open spec fn goal_before(a: SteamAchievement, b: SteamAchievement) -> bool {
    if a.game_id != b.game_id {
        a.game_id < b.game_id
    } else if a.display_name@ != b.display_name@ {
        chars_before(a.display_name@, b.display_name@)
    } else if a.achievement_name@ != b.achievement_name@ {
        chars_before(a.achievement_name@, b.achievement_name@)
    } else if opt_view(a.description) != opt_view(b.description) {
        opt_before(opt_view(a.description), opt_view(b.description))
    } else {
        a.last_played < b.last_played
    }
}

/// The achievement of a goal.
pub open spec fn goal_achievement(g: ModuleGoal) -> SteamAchievement {
    match g {
        ModuleGoal::STEAM(a) => a,
    }
}

fn chars_less(a: &Vec<char>, b: &Vec<char>) -> (r: bool)
    ensures
        r == chars_before(a@, b@),
{
    let mut i: usize = 0;
    proof {
        assert(a@.skip(0) == a@);
        assert(b@.skip(0) == b@);
    }
    while i < a.len() && i < b.len() && a[i] == b[i]
        invariant
            i <= a@.len(),
            i <= b@.len(),
            forall|j: int| 0 <= j < i ==> a@[j] == b@[j],
            chars_before(a@, b@) == chars_before(a@.skip(i as int), b@.skip(i as int)),
        decreases a@.len() - i,
    {
        proof {
            assert(a@.skip(i as int).drop_first() == a@.skip(i + 1));
            assert(b@.skip(i as int).drop_first() == b@.skip(i + 1));
        }
        i += 1;
    }
    if i == a.len() {
        i < b.len()
    } else if i == b.len() {
        false
    } else {
        a[i] < b[i]
    }
}

fn text_less(a: &String, b: &String) -> (r: bool)
    ensures
        r == chars_before(a@, b@),
{
    chars_less(&chars_of(a.as_str()), &chars_of(b.as_str()))
}

fn optional_less(a: &Option<String>, b: &Option<String>) -> (r: bool)
    ensures
        r == opt_before(opt_view(*a), opt_view(*b)),
{
    match (a, b) {
        (None, Some(_)) => true,
        (Some(x), Some(y)) => text_less(x, y),
        _ => false,
    }
}

fn goal_less(a: &ModuleGoal, b: &ModuleGoal) -> (r: bool)
    ensures
        r == goal_before(goal_achievement(*a), goal_achievement(*b)),
{
    match (a, b) {
        (ModuleGoal::STEAM(x), ModuleGoal::STEAM(y)) => {
            if x.game_id != y.game_id {
                x.game_id < y.game_id
            } else if x.display_name != y.display_name {
                text_less(&x.display_name, &y.display_name)
            } else if x.achievement_name != y.achievement_name {
                text_less(&x.achievement_name, &y.achievement_name)
            } else {
                let same_description = match (&x.description, &y.description) {
                    (None, None) => true,
                    (Some(p), Some(q)) => *p == *q,
                    _ => false,
                };
                if !same_description {
                    optional_less(&x.description, &y.description)
                } else {
                    x.last_played < y.last_played
                }
            }
        },
    }
}

/// `order` visits each position of `goals` once, in the order of goals.
pub open spec fn goal_order(goals: Seq<ModuleGoal>, order: Seq<usize>) -> bool {
    &&& order.len() == goals.len()
    &&& forall|k: int| 0 <= k < order.len() ==> #[trigger] order[k] < goals.len()
    &&& forall|k: int, l: int| 0 <= k < l < order.len() ==> #[trigger] order[k] != #[trigger] order[l]
    &&& forall|k: int, l: int|
        0 <= k < l < order.len() ==> !goal_before(
            goal_achievement(goals[#[trigger] order[l] as int]),
            goal_achievement(goals[#[trigger] order[k] as int]),
        )
}

proof fn lemma_chars_before_total(a: Seq<char>, b: Seq<char>)
    ensures
        a != b ==> chars_before(a, b) || chars_before(b, a),
        !(chars_before(a, b) && chars_before(b, a)),
        !chars_before(a, a),
    decreases a.len(),
{
    if a.len() > 0 && b.len() > 0 {
        lemma_chars_before_total(a.drop_first(), b.drop_first());
        if a[0] == b[0] && a != b {
            assert(a.drop_first() != b.drop_first()) by {
                if a.drop_first() == b.drop_first() {
                    assert(a =~= seq![a[0]] + a.drop_first());
                    assert(b =~= seq![b[0]] + b.drop_first());
                }
            }
        }
        if a[0] != b[0] {
            assert((a[0] as int) != (b[0] as int));
        }
    }
    if a.len() > 0 {
        lemma_chars_before_total(a.drop_first(), a.drop_first());
    }
    if a.len() == 0 && b.len() == 0 {
        assert(a =~= b);
    }
}

proof fn lemma_chars_before_transitive(a: Seq<char>, b: Seq<char>, c: Seq<char>)
    requires
        chars_before(a, b),
        chars_before(b, c),
    ensures
        chars_before(a, c),
    decreases a.len(),
{
    if a.len() > 0 && b.len() > 0 && c.len() > 0 && a[0] == b[0] && b[0] == c[0] {
        lemma_chars_before_transitive(a.drop_first(), b.drop_first(), c.drop_first());
    }
}

/// Two goals agree in every field that orders them.
pub open spec fn same_goal(a: SteamAchievement, b: SteamAchievement) -> bool {
    &&& a.game_id == b.game_id
    &&& a.display_name@ == b.display_name@
    &&& a.achievement_name@ == b.achievement_name@
    &&& opt_view(a.description) == opt_view(b.description)
    &&& a.last_played == b.last_played
}

proof fn lemma_goal_before_order(a: SteamAchievement, b: SteamAchievement, c: SteamAchievement)
    ensures
        !(goal_before(a, b) && goal_before(b, a)),
        goal_before(a, b) && goal_before(b, c) ==> goal_before(a, c),
        goal_before(a, b) || goal_before(b, a) || same_goal(a, b),
{
    lemma_chars_before_total(a.display_name@, b.display_name@);
    lemma_chars_before_total(a.achievement_name@, b.achievement_name@);
    if let (Some(x), Some(y)) = (opt_view(a.description), opt_view(b.description)) {
        lemma_chars_before_total(x, y);
    }
    if goal_before(a, b) && goal_before(b, c) {
        if a.game_id == b.game_id && b.game_id == c.game_id {
            if a.display_name@ != b.display_name@ && b.display_name@ != c.display_name@ {
                lemma_chars_before_transitive(a.display_name@, b.display_name@, c.display_name@);
                lemma_chars_before_total(a.display_name@, c.display_name@);
            } else if a.display_name@ == b.display_name@ && b.display_name@ == c.display_name@ {
                if a.achievement_name@ != b.achievement_name@ && b.achievement_name@ != c.achievement_name@ {
                    lemma_chars_before_transitive(a.achievement_name@, b.achievement_name@, c.achievement_name@);
                    lemma_chars_before_total(a.achievement_name@, c.achievement_name@);
                } else if a.achievement_name@ == b.achievement_name@ && b.achievement_name@ == c.achievement_name@ {
                    if let (Some(x), Some(y), Some(z)) = (opt_view(a.description), opt_view(b.description), opt_view(c.description)) {
                        if x != y && y != z {
                            lemma_chars_before_transitive(x, y, z);
                            lemma_chars_before_total(x, z);
                        }
                    }
                }
            }
        }
    }
}

proof fn lemma_goal_not_before_transitive(a: SteamAchievement, b: SteamAchievement, c: SteamAchievement)
    requires
        !goal_before(a, b),
        !goal_before(b, c),
    ensures
        !goal_before(a, c),
{
    lemma_goal_before_order(a, b, c);
    lemma_goal_before_order(b, a, c);
    lemma_goal_before_order(b, c, a);
}

/// The positions of `goals` in the order of goals.
fn sort_goal_positions(goals: &Vec<ModuleGoal>) -> (order: Vec<usize>)
    ensures
        goal_order(goals@, order@),
{
    let mut order: Vec<usize> = Vec::new();
    let n = goals.len();
    for i in 0..n
        invariant
            n == goals@.len(),
            order@.len() == i,
            forall|k: int| 0 <= k < order@.len() ==> #[trigger] order@[k] < i,
            forall|k: int, l: int| 0 <= k < l < order@.len() ==> #[trigger] order@[k] != #[trigger] order@[l],
            forall|k: int, l: int|
                0 <= k < l < order@.len() ==> !goal_before(
                    goal_achievement(goals@[#[trigger] order@[l] as int]),
                    goal_achievement(goals@[#[trigger] order@[k] as int]),
                ),
    {
        let mut at: usize = order.len();
        while at > 0 && goal_less(&goals[i], &goals[order[at - 1]])
            invariant
                n == goals@.len(),
                i < n,
                order@.len() == i,
                at <= order@.len(),
                forall|k: int| 0 <= k < order@.len() ==> #[trigger] order@[k] < i,
                forall|k: int|
                    at <= k < order@.len() ==> goal_before(
                        goal_achievement(goals@[i as int]),
                        goal_achievement(goals@[#[trigger] order@[k] as int]),
                    ),
            decreases at,
        {
            at -= 1;
        }
        let ghost before = order@;
        order.insert(at, i);
        proof {
            let x = goal_achievement(goals@[i as int]);
            assert forall|k: int, l: int| 0 <= k < l < order@.len() implies #[trigger] order@[k] != #[trigger] order@[l] by {
                if l < at {
                    assert(order@[k] == before[k] && order@[l] == before[l]);
                } else if l == at {
                    assert(order@[k] == before[k]);
                } else if k < at {
                    assert(order@[k] == before[k] && order@[l] == before[l - 1]);
                } else if k == at {
                    assert(order@[l] == before[l - 1]);
                } else {
                    assert(order@[k] == before[k - 1] && order@[l] == before[l - 1]);
                }
            }
            assert forall|k: int, l: int| 0 <= k < l < order@.len() implies !goal_before(
                goal_achievement(goals@[#[trigger] order@[l] as int]),
                goal_achievement(goals@[#[trigger] order@[k] as int]),
            ) by {
                if l < at {
                    assert(order@[k] == before[k] && order@[l] == before[l]);
                } else if l == at {
                    assert(order@[k] == before[k]);
                    let m = goal_achievement(goals@[before[at - 1] as int]);
                    let gk = goal_achievement(goals@[before[k] as int]);
                    if k < at - 1 {
                        lemma_goal_not_before_transitive(x, m, gk);
                    }
                } else if k < at {
                    assert(order@[k] == before[k] && order@[l] == before[l - 1]);
                    if k < l - 1 {
                        assert(!goal_before(
                            goal_achievement(goals@[before[l - 1] as int]),
                            goal_achievement(goals@[before[k] as int]),
                        ));
                    }
                } else if k == at {
                    assert(order@[l] == before[l - 1]);
                    let gl = goal_achievement(goals@[before[l - 1] as int]);
                    lemma_goal_before_order(x, gl, x);
                } else {
                    assert(order@[k] == before[k - 1] && order@[l] == before[l - 1]);
                    assert(!goal_before(
                        goal_achievement(goals@[before[l - 1] as int]),
                        goal_achievement(goals@[before[k - 1] as int]),
                    ));
                }
            }
        }
    }
    order
}

/// A goal as the goals view shows it.
#[derive(Debug)]
pub struct Goal {
    pub game_name: String,
    pub display_name: String,
    pub description: String,
    pub id: GameIdentifier,
    pub achievement_name: String,
}

impl Clone for Goal {
    fn clone(&self) -> (r: Self)
        ensures
            r == *self,
    {
        Goal {
            game_name: self.game_name.clone(),
            display_name: self.display_name.clone(),
            description: self.description.clone(),
            id: self.id.clone(),
            achievement_name: self.achievement_name.clone(),
        }
    }
}

/// Two modules are the same account.
pub open spec fn same_module(a: Module, b: Module) -> bool {
    match (a, b) {
        (Module::STEAM(x), Module::STEAM(y)) => x.key_view() == y.key_view() && x.steam_id_view() == y.steam_id_view(),
    }
}

/// The owned game that is game `id` of module `m`. The owned games are
/// keyed by game, so of games that are the same game the last one counts.
pub open spec fn game_index(games: Seq<Game>, m: Module, id: i32) -> Option<int> {
    if exists|i: int|
        0 <= i < games.len() && games[i].identifier.id == id && same_module(games[i].identifier.module, m)
            && forall|j: int|
            i < j < games.len() ==> !(games[j].identifier.id == id && same_module(games[j].identifier.module, m)) {
        Some(
            choose|i: int|
                0 <= i < games.len() && games[i].identifier.id == id && same_module(games[i].identifier.module, m)
                    && forall|j: int|
                    i < j < games.len() ==> !(games[j].identifier.id == id && same_module(games[j].identifier.module, m)),
        )
    } else {
        None
    }
}

fn modules_match(a: &Module, b: &Module) -> (r: bool)
    ensures
        r == same_module(*a, *b),
{
    match (a, b) {
        (Module::STEAM(x), Module::STEAM(y)) => *x.key() == *y.key() && *x.steam_id() == *y.steam_id(),
    }
}

fn find_game(games: &Vec<Game>, m: &Module, id: i32) -> (r: Option<usize>)
    ensures
        match r {
            Some(i) => game_index(games@, *m, id) == Some(i as int),
            None => game_index(games@, *m, id) is None,
        },
{
    let mut i: usize = games.len();
    while i > 0
        invariant
            i <= games@.len(),
            forall|j: int| i <= j < games@.len() ==> !(games@[j].identifier.id == id && same_module(games@[j].identifier.module, *m)),
        decreases i,
    {
        i -= 1;
        if games[i].identifier.id == id && modules_match(&games[i].identifier.module, m) {
            proof {
                let k = choose|k: int|
                    0 <= k < games@.len() && games@[k].identifier.id == id && same_module(games@[k].identifier.module, *m)
                        && forall|j: int|
                        k < j < games@.len() ==> !(games@[j].identifier.id == id && same_module(games@[j].identifier.module, *m));
                assert(!(k > i)) by {
                    if k > i {
                        assert(!(games@[k].identifier.id == id && same_module(games@[k].identifier.module, *m)));
                    }
                }
                assert(!(i > k));
            }
            return Some(i);
        }
    }
    None
}

/// How the goals view shows a goal of a module.
pub open spec fn shows_goal(r: Goal, g: ModuleGoal, m: Module, games: Seq<Game>) -> bool {
    let a = goal_achievement(g);
    &&& r.game_name@ == games[game_index(games, m, a.game_id)->0].name@
    &&& r.display_name@ == a.display_name@
    &&& r.description@ == match a.description {
        Some(t) => t@,
        None => "-"@,
    }
    &&& r.id == (GameIdentifier { module: m, id: a.game_id })
    &&& r.achievement_name@ == a.achievement_name@
}

/// Every goal's game is owned.
pub open spec fn goals_owned(module_goals: Seq<(Module, Vec<ModuleGoal>)>, games: Seq<Game>) -> bool {
    forall|i: int, j: int|
        0 <= i < module_goals.len() && 0 <= j < module_goals[i].1@.len() ==> game_index(
            games,
            module_goals[i].0,
            goal_achievement(#[trigger] module_goals[i].1@[j]).game_id,
        ) is Some
}

/// Number of goals of the first `n` modules.
pub open spec fn goal_count(module_goals: Seq<(Module, Vec<ModuleGoal>)>, n: int) -> int
    decreases n,
{
    if n <= 0 {
        0
    } else {
        goal_count(module_goals, n - 1) + module_goals[n - 1].1@.len()
    }
}

impl Goal {
    /// The goals view: for each module in turn, its goals in the order of
    /// goals (by game, display name, achievement name, description, last
    /// played time), each shown with its game's name.
    pub fn list(module_goals: &Vec<(Module, Vec<ModuleGoal>)>, games: &Vec<Game>) -> (r: Vec<Self>)
        requires
            goals_owned(module_goals@, games@),
        ensures
            r@.len() == goal_count(module_goals@, module_goals@.len() as int),
            forall|i: int| 0 <= i < module_goals@.len() ==> #[trigger] module_listed(r@, module_goals@, games@, i),
    {
        let mut goals: Vec<Goal> = Vec::new();
        for i in 0..module_goals.len()
            invariant
                goals_owned(module_goals@, games@),
                goals@.len() == goal_count(module_goals@, i as int),
                forall|p: int| 0 <= p < i ==> #[trigger] module_listed(goals@, module_goals@, games@, p),
        {
            let m = &module_goals[i].0;
            let module_list = &module_goals[i].1;
            let order = sort_goal_positions(module_list);
            let ghost start = goals@.len();
            let ghost earlier = goals@;
            for k in 0..order.len()
                invariant
                    goals_owned(module_goals@, games@),
                    i < module_goals@.len(),
                    *m == module_goals@[i as int].0,
                    *module_list == module_goals@[i as int].1,
                    goal_order(module_list@, order@),
                    start == goal_count(module_goals@, i as int),
                    goals@.len() == start + k,
                    goals@.subrange(0, start as int) == earlier,
                    forall|j: int|
                        0 <= j < k ==> shows_goal(goals@[start + j], module_list@[order@[j] as int], *m, games@),
            {
                let pos = order[k];
                match &module_list[pos] {
                    ModuleGoal::STEAM(a) => {
                        proof {
                            assert(game_index(games@, *m, a.game_id) is Some);
                        }
                        let found = find_game(games, m, a.game_id);
                        let gi = found.unwrap();
                        let description = match &a.description {
                            Some(t) => t.clone(),
                            None => String::from_str("-"),
                        };
                        let ghost old_goals = goals@;
                        goals.push(Goal {
                            game_name: games[gi].name.clone(),
                            display_name: a.display_name.clone(),
                            description,
                            id: GameIdentifier { module: m.clone(), id: a.game_id },
                            achievement_name: a.achievement_name.clone(),
                        });
                        proof {
                            assert(goals@.subrange(0, start as int) =~= old_goals.subrange(0, start as int));
                        }
                    },
                }
            }
            proof {
                assert forall|p: int| 0 <= p < i + 1 implies #[trigger] module_listed(goals@, module_goals@, games@, p) by {
                    if p < i {
                        assert(module_listed(earlier, module_goals@, games@, p));
                        lemma_goal_count_monotone(module_goals@, p + 1, i as int);
                        lemma_module_listed_prefix(earlier, goals@, module_goals@, games@, p);
                    } else {
                        assert(goal_order(module_goals@[p].1@, order@));
                    }
                }
            }
        }
        goals
    }
}

/// The goals listed for module `p` start at the goal count of the modules
/// before it and follow the order of goals.
pub open spec fn module_listed(
    listed: Seq<Goal>,
    module_goals: Seq<(Module, Vec<ModuleGoal>)>,
    games: Seq<Game>,
    p: int,
) -> bool {
    exists|order: Seq<usize>|
        {
            &&& #[trigger] goal_order(module_goals[p].1@, order)
            &&& forall|k: int|
                0 <= k < order.len() ==> shows_goal(
                    listed[goal_count(module_goals, p) + k],
                    module_goals[p].1@[order[k] as int],
                    module_goals[p].0,
                    games,
                )
        }
}

proof fn lemma_module_listed_prefix(
    earlier: Seq<Goal>,
    listed: Seq<Goal>,
    module_goals: Seq<(Module, Vec<ModuleGoal>)>,
    games: Seq<Game>,
    p: int,
)
    requires
        0 <= p < module_goals.len(),
        module_listed(earlier, module_goals, games, p),
        goal_count(module_goals, p + 1) <= earlier.len() <= listed.len(),
        listed.subrange(0, earlier.len() as int) == earlier,
    ensures
        module_listed(listed, module_goals, games, p),
{
    let o = choose|order: Seq<usize>|
        {
            &&& #[trigger] goal_order(module_goals[p].1@, order)
            &&& forall|k: int|
                0 <= k < order.len() ==> shows_goal(
                    earlier[goal_count(module_goals, p) + k],
                    module_goals[p].1@[order[k] as int],
                    module_goals[p].0,
                    games,
                )
        };
    assert forall|k: int| 0 <= k < o.len() implies shows_goal(
        listed[goal_count(module_goals, p) + k],
        module_goals[p].1@[o[k] as int],
        module_goals[p].0,
        games,
    ) by {
        lemma_goal_count_monotone(module_goals, 0, p);
        assert(goal_count(module_goals, p + 1) == goal_count(module_goals, p) + module_goals[p].1@.len());
        assert(listed.subrange(0, earlier.len() as int)[goal_count(module_goals, p) + k] == listed[goal_count(module_goals, p) + k]);
    }
}

proof fn lemma_goal_count_monotone(module_goals: Seq<(Module, Vec<ModuleGoal>)>, a: int, b: int)
    requires
        0 <= a <= b <= module_goals.len(),
    ensures
        goal_count(module_goals, a) <= goal_count(module_goals, b),
    decreases b - a,
{
    if a < b {
        lemma_goal_count_monotone(module_goals, a, b - 1);
    }
}

} // verus!

