//! The application's state and how it reacts to each message: what the
//! views show next and what work (loading, saving, synchronising) follows.

use std::collections::HashMap;
use std::collections::HashSet;
use vstd::prelude::*;
use crate::achievements::{GameAchievement, ModuleGoal};
use crate::goals::random_index;
use crate::module::Game;
use crate::ui::{
    goal_from_random_achievement, mark_as_goal, GameDisplay, GameGoalDisplay, GameListDisplay, GameListFilter,
    GameListResult, Goal, TotalAchievementProgress, TrophyCaseFilter,
};

verus! {

broadcast use vstd::std_specs::hash::group_hash_axioms;

/// What the window shows.
#[derive(Clone, Copy, Debug, Default, PartialEq, Eq, Structural)]
pub enum Screen {
    #[default]
    Welcome,
    Goals,
    Games(GameListFilter),
    Game(i32),
    TrophyCase(TrophyCaseFilter),
}

/// What the application is told.
#[derive(Debug)]
pub enum Message {
    GamesView(GameListFilter),
    GameView(i32),
    GameLoaded(GameDisplay),
    /// The icons now loaded, by game and achievement name.
    GoalIconsLoaded(Vec<(i32, String)>),
    GoalsView,
    GoalsLoaded(Vec<Goal>),
    AchievementCheckboxToggled(bool),
    GamesLoaded(GameListResult),
    GenerateRandomAchievement(i32),
    RandomAchievementGenerated(Result<(Game, Option<GameAchievement>), String>),
    SetAsGameTarget(i32),
    SetGameAsComplete(i32),
    RandomGame,
    ExcludeAchievement(i32, String),
    TrophyCaseView(TrophyCaseFilter),
    TrophiesLoaded((TrophyCaseFilter, Vec<i32>)),
    AchievementProgressLoaded(TotalAchievementProgress),
    /// The games whose covers are now loaded.
    GameCoversLoaded(Vec<i32>),
    CachesSynced(Result<(), String>),
    GameListSearch(String),
    EditGameCover(i32),
    GameCoverURLInput(String),
    SaveGameCover,
}

/// Work that follows a message, in the order it takes effect.
#[derive(Debug)]
pub enum Command {
    /// Load a game list.
    LoadGameList { has_achievements: bool, filter: GameListFilter, search: String },
    /// Load the game view of a game.
    LoadGameDisplay { app_id: i32, game_name: String },
    /// Load the covers of games.
    LoadGameCovers(Vec<i32>),
    /// Load the icons of a game's achievements.
    LoadGoalIcons { app_id: i32, achievements: Vec<GameGoalDisplay> },
    /// Load the goals view.
    LoadGoals,
    /// Draw a random goal for a game.
    GenerateRandomAchievement(i32),
    /// Store a goal.
    SaveAchievementGoal(ModuleGoal),
    /// Store a game's target, complete or not.
    SaveGameTarget { app_id: i32, complete: bool },
    /// Synchronise the caches with the player's progress.
    SyncCaches,
    /// Store an exclusion.
    SaveExcludedAchievement { app_id: i32, achievement_name: String },
    /// Load the trophy case.
    LoadTrophies(TrophyCaseFilter),
    /// Load the achievement progress totals.
    LoadAchievementProgress,
    /// Store a game's custom cover.
    SaveGameCover { app_id: i32, url: String },
}

/// The state of the views. `games` holds the game list of each filter and
/// achievement flag (see `list_slot`); `goal_icons` and `game_covers` name
/// the icons and covers already loaded.
#[derive(Debug)]
pub struct UiState {
    pub view: Screen,
    pub games: Vec<Option<Vec<GameListDisplay>>>,
    pub games_have_achievements_filter: bool,
    pub game_list_search: String,
    pub goals: Option<Vec<Goal>>,
    pub game_views: HashMap<i32, GameDisplay>,
    pub goal_icons: Vec<(i32, String)>,
    pub completed_trophies: Option<Vec<i32>>,
    pub perfected_trophies: Option<Vec<i32>>,
    pub achievement_progress: Option<TotalAchievementProgress>,
    pub game_covers: HashSet<i32>,
}

/// The slot of the game list of a filter and achievement flag.
pub open spec fn slot_of(filter: GameListFilter, has_achievements: bool) -> int {
    let f = match filter {
        GameListFilter::Targets => 0int,
        GameListFilter::InProgress => 1int,
        GameListFilter::Completed => 2int,
        GameListFilter::Perfected => 3int,
    };
    2 * f + if has_achievements {
        1int
    } else {
        0int
    }
}

/// The filter and achievement flag of a slot.
pub open spec fn slot_key(slot: int) -> (GameListFilter, bool) {
    let f = if slot / 2 == 0 {
        GameListFilter::Targets
    } else if slot / 2 == 1 {
        GameListFilter::InProgress
    } else if slot / 2 == 2 {
        GameListFilter::Completed
    } else {
        GameListFilter::Perfected
    };
    (f, slot % 2 == 1)
}

/// The slot of the game list of a filter and achievement flag.
pub fn list_slot(filter: GameListFilter, has_achievements: bool) -> (r: usize)
    ensures
        r == slot_of(filter, has_achievements),
        r < 8,
        slot_key(r as int) == (filter, has_achievements),
{
    let f: usize = match filter {
        GameListFilter::Targets => 0,
        GameListFilter::InProgress => 1,
        GameListFilter::Completed => 2,
        GameListFilter::Perfected => 3,
    };
    2 * f + if has_achievements {
        1
    } else {
        0
    }
}

fn slot_filter(slot: usize) -> (r: (GameListFilter, bool))
    requires
        slot < 8,
    ensures
        r == slot_key(slot as int),
{
    let f = if slot / 2 == 0 {
        GameListFilter::Targets
    } else if slot / 2 == 1 {
        GameListFilter::InProgress
    } else if slot / 2 == 2 {
        GameListFilter::Completed
    } else {
        GameListFilter::Perfected
    };
    (f, slot % 2 == 1)
}

/// The key of a loaded icon.
pub open spec fn icon_key(k: (i32, String)) -> (i32, Seq<char>) {
    (k.0, k.1@)
}

/// The loaded icons, by game and achievement name.
pub open spec fn icon_set(icons: Seq<(i32, String)>) -> Set<(i32, Seq<char>)> {
    icons.map_values(|k: (i32, String)| icon_key(k)).to_set()
}

impl UiState {
    /// The state is well formed: there is a slot for each game list.
    pub open spec fn wf(&self) -> bool {
        self.games@.len() == 8
    }

    /// The state the application starts in: the welcome view, with nothing
    /// loaded.
    pub fn new() -> (r: Self)
        ensures
            r.wf(),
            r.view == Screen::Welcome,
            forall|i: int| 0 <= i < 8 ==> #[trigger] r.games@[i] is None,
            !r.games_have_achievements_filter,
            r.game_list_search@ == Seq::<char>::empty(),
            r.goals is None,
            r.game_views@ == Map::<i32, GameDisplay>::empty(),
            r.goal_icons@.len() == 0,
            r.completed_trophies is None,
            r.perfected_trophies is None,
            r.achievement_progress is None,
            r.game_covers@ == Set::<i32>::empty(),
    {
        let mut games: Vec<Option<Vec<GameListDisplay>>> = Vec::new();
        for i in 0..8usize
            invariant
                games@.len() == i,
                forall|j: int| 0 <= j < i ==> #[trigger] games@[j] is None,
        {
            games.push(None);
        }
        UiState {
            view: Screen::Welcome,
            games,
            games_have_achievements_filter: false,
            game_list_search: String::new(),
            goals: None,
            game_views: HashMap::new(),
            goal_icons: Vec::new(),
            completed_trophies: None,
            perfected_trophies: None,
            achievement_progress: None,
            game_covers: HashSet::new(),
        }
    }
}

/// What the trophy case shows for a game.
#[derive(Debug, PartialEq, Eq)]
pub enum TrophyPane {
    /// The game's cover, which is loaded.
    Cover,
    /// The owned game's name, while its cover is not loaded.
    Name(String),
    /// Neither cover nor owned game is there yet.
    Loading,
}

impl UiState {
    /// The game list that the games view shows for a filter: the one
    /// loaded for it under the current achievement flag, if any.
    pub fn game_list(&self, filter: GameListFilter) -> (r: &Option<Vec<GameListDisplay>>)
        requires
            self.wf(),
        ensures
            *r == self.games@[slot_of(filter, self.games_have_achievements_filter)],
    {
        &self.games[list_slot(filter, self.games_have_achievements_filter)]
    }

    /// Whether the icon of an achievement of a game is loaded.
    pub fn goal_icon_loaded(&self, app_id: i32, achievement_name: &String) -> (r: bool)
        ensures
            r == icon_set(self.goal_icons@).contains((app_id, achievement_name@)),
    {
        has_icon(&self.goal_icons, app_id, achievement_name)
    }

    /// What the trophy case shows for a game: its cover once loaded, else
    /// the name of the owned game, else that it is loading.
    pub fn trophy_pane(&self, owned: &Vec<Game>, app_id: i32) -> (r: TrophyPane)
        ensures
            self.game_covers@.contains(app_id) ==> r == TrophyPane::Cover,
            !self.game_covers@.contains(app_id) ==> match owned_index(owned@, app_id) {
                Some(i) => r == TrophyPane::Name(owned@[i].name),
                None => r == TrophyPane::Loading,
            },
    {
        if self.game_covers.contains(&app_id) {
            TrophyPane::Cover
        } else {
            match find_owned(owned, app_id) {
                Some(i) => {
                    proof {
                        lemma_owned_index(owned@, app_id);
                    }
                    TrophyPane::Name(owned[i].name.clone())
                },
                None => TrophyPane::Loading,
            }
        }
    }
}

/// The position of the owned game with id `id`. The owned games are keyed
/// by id, so of games that share an id the last one counts.
pub open spec fn owned_index(owned: Seq<Game>, id: i32) -> Option<int>
    decreases owned.len(),
{
    if owned.len() == 0 {
        None
    } else if owned.last().identifier.id == id {
        Some(owned.len() - 1)
    } else {
        owned_index(owned.drop_last(), id)
    }
}

/// `owned_index` is the last position of the id, if it occurs at all.
pub proof fn lemma_owned_index(owned: Seq<Game>, id: i32)
    ensures
        match owned_index(owned, id) {
            Some(i) => {
                &&& 0 <= i < owned.len()
                &&& owned[i].identifier.id == id
                &&& forall|j: int| i < j < owned.len() ==> #[trigger] owned[j].identifier.id != id
            },
            None => forall|j: int| 0 <= j < owned.len() ==> #[trigger] owned[j].identifier.id != id,
        },
    decreases owned.len(),
{
    if owned.len() > 0 {
        let before = owned.drop_last();
        lemma_owned_index(before, id);
        assert forall|j: int| 0 <= j < before.len() implies #[trigger] owned[j] == before[j] by {}
    }
}

/// The name of the owned game with id `id`.
pub open spec fn owned_name(owned: Seq<Game>, id: i32) -> String {
    owned[owned_index(owned, id)->0].name
}

fn find_owned(owned: &Vec<Game>, id: i32) -> (r: Option<usize>)
    ensures
        match r {
            Some(i) => owned_index(owned@, id) == Some(i as int),
            None => owned_index(owned@, id) is None,
        },
{
    proof {
        lemma_owned_index(owned@, id);
    }
    let mut i: usize = owned.len();
    while i > 0
        invariant
            i <= owned@.len(),
            forall|j: int| i <= j < owned@.len() ==> #[trigger] owned@[j].identifier.id != id,
            match owned_index(owned@, id) {
                Some(k) => {
                    &&& 0 <= k < owned@.len()
                    &&& owned@[k].identifier.id == id
                    &&& forall|j: int| k < j < owned@.len() ==> #[trigger] owned@[j].identifier.id != id
                },
                None => forall|j: int| 0 <= j < owned@.len() ==> #[trigger] owned@[j].identifier.id != id,
            },
        decreases i,
    {
        i -= 1;
        if owned[i].identifier.id == id {
            proof {
                assert(owned@[i as int].identifier.id == id);
                let k = owned_index(owned@, id)->0;
                assert(owned_index(owned@, id) is Some);
                assert(!(k < i as int));
                assert(!(i < k));
            }
            return Some(i);
        }
    }
    proof {
        if owned_index(owned@, id) is Some {
            let k = owned_index(owned@, id)->0;
            assert(owned@[k].identifier.id == id);
        }
    }
    None
}

/// The owned game to draw a goal for, or an error when no owned game has
/// the id.
pub fn generate_random_achievement(owned: &Vec<Game>, id: i32) -> (r: Result<Game, String>)
    ensures
        match owned_index(owned@, id) {
            Some(i) => r == Ok::<Game, String>(owned@[i]),
            None => r is Err && r->Err_0@ == "No game with that app_id"@,
        },
{
    match find_owned(owned, id) {
        Some(i) => {
            proof {
                lemma_owned_index(owned@, id);
            }
            Ok(owned[i].clone())
        },
        None => Err(String::from_str("No game with that app_id")),
    }
}

/// The game list to load for a filter, with the current achievement flag
/// and search.
pub open spec fn list_command(s: UiState, filter: GameListFilter) -> Command {
    Command::LoadGameList { has_achievements: s.games_have_achievements_filter, filter, search: s.game_list_search }
}

fn load_list(state: &UiState, filter: GameListFilter) -> (r: Command)
    ensures
        r == list_command(*state, filter),
{
    Command::LoadGameList {
        has_achievements: state.games_have_achievements_filter,
        filter,
        search: state.game_list_search.clone(),
    }
}

/// The view of the owned game with id `id` to load.
pub open spec fn display_command(owned: Seq<Game>, id: i32) -> Command {
    Command::LoadGameDisplay { app_id: id, game_name: owned_name(owned, id) }
}

fn load_display(owned: &Vec<Game>, id: i32) -> (r: Command)
    requires
        owned_index(owned@, id) is Some,
    ensures
        r == display_command(owned@, id),
{
    let i = find_owned(owned, id).unwrap();
    proof {
        lemma_owned_index(owned@, id);
    }
    Command::LoadGameDisplay { app_id: id, game_name: owned[i].name.clone() }
}

/// The messages that the application handles without stopping: every one
/// but a failed draw or synchronisation, which stop it, and cover edits
/// outside a loaded game view, which can not happen; the games that
/// messages open are owned.
pub open spec fn accepted(s: UiState, owned: Seq<Game>, message: Message) -> bool {
    match message {
        Message::RandomAchievementGenerated(r) => r is Ok,
        Message::CachesSynced(r) => r is Ok,
        Message::GameView(id) => owned_index(owned, id) is Some,
        Message::ExcludeAchievement(id, _) => owned_index(owned, id) is Some,
        Message::RandomGame => owned.len() > 0,
        Message::GameCoverURLInput(_) => s.view matches Screen::Game(id) && s.game_views@.contains_key(id),
        Message::SaveGameCover => s.view matches Screen::Game(id) && s.game_views@.contains_key(id),
        _ => true,
    }
}

/// The games among `ids` whose covers are not loaded, in order.
pub open spec fn uncovered(ids: Seq<i32>, covers: Set<i32>) -> Seq<i32> {
    ids.filter(|i: i32| !covers.contains(i))
}

fn missing_covers(ids: &Vec<i32>, covers: &HashSet<i32>) -> (r: Vec<i32>)
    ensures
        r@ == uncovered(ids@, covers@),
{
    let ghost keep = |i: i32| !covers@.contains(i);
    let mut r: Vec<i32> = Vec::new();
    for k in 0..ids.len()
        invariant
            keep == (|i: i32| !covers@.contains(i)),
            r@ == ids@.take(k as int).filter(keep),
    {
        proof {
            assert(ids@.take(k + 1).drop_last() == ids@.take(k as int));
            reveal(Seq::filter);
        }
        if !covers.contains(&ids[k]) {
            r.push(ids[k]);
        }
    }
    proof {
        assert(ids@.take(ids@.len() as int) == ids@);
    }
    r
}

/// The achievements of a game view whose icons are not loaded, in order.
pub open spec fn missing_icons(goals: Seq<GameGoalDisplay>, app_id: i32, icons: Seq<(i32, String)>) -> Seq<GameGoalDisplay> {
    goals.filter(|g: GameGoalDisplay| !icon_set(icons).contains((app_id, g.achievement_name@)))
}

fn has_icon(icons: &Vec<(i32, String)>, app_id: i32, name: &String) -> (r: bool)
    ensures
        r == icon_set(icons@).contains((app_id, name@)),
{
    let mut i: usize = 0;
    while i < icons.len()
        invariant
            i <= icons@.len(),
            forall|j: int| 0 <= j < i ==> icon_key(#[trigger] icons@[j]) != (app_id, name@),
        decreases icons@.len() - i,
    {
        if icons[i].0 == app_id && icons[i].1 == *name {
            assert(icons@.map_values(|k: (i32, String)| icon_key(k))[i as int] == (app_id, name@));
            return true;
        }
        i += 1;
    }
    proof {
        if icon_set(icons@).contains((app_id, name@)) {
            let m = icons@.map_values(|k: (i32, String)| icon_key(k));
            let j = choose|j: int| 0 <= j < m.len() && m[j] == (app_id, name@);
            assert(icon_key(icons@[j]) == (app_id, name@));
        }
    }
    false
}

fn icons_to_load(goals: &Vec<GameGoalDisplay>, app_id: i32, icons: &Vec<(i32, String)>) -> (r: Vec<GameGoalDisplay>)
    ensures
        r@ == missing_icons(goals@, app_id, icons@),
{
    let ghost keep = |g: GameGoalDisplay| !icon_set(icons@).contains((app_id, g.achievement_name@));
    let mut r: Vec<GameGoalDisplay> = Vec::new();
    for k in 0..goals.len()
        invariant
            keep == (|g: GameGoalDisplay| !icon_set(icons@).contains((app_id, g.achievement_name@))),
            r@ == goals@.take(k as int).filter(keep),
    {
        proof {
            assert(goals@.take(k + 1).drop_last() == goals@.take(k as int));
            reveal(Seq::filter);
        }
        if !has_icon(icons, app_id, &goals[k].achievement_name) {
            r.push(goals[k].clone());
        }
    }
    proof {
        assert(goals@.take(goals@.len() as int) == goals@);
    }
    r
}

fn add_icons(icons: &mut Vec<(i32, String)>, loaded: Vec<(i32, String)>)
    ensures
        icon_set(final(icons)@) == icon_set(old(icons)@) + icon_set(loaded@),
{
    let ghost start = icons@;
    for k in 0..loaded.len()
        invariant
            icon_set(icons@) == icon_set(start) + icon_set(loaded@.take(k as int)),
    {
        let ghost before = icons@;
        icons.push((loaded[k].0, loaded[k].1.clone()));
        proof {
            assert(icons@.map_values(|x: (i32, String)| icon_key(x)) =~= before.map_values(|x: (i32, String)| icon_key(x)).push(icon_key(loaded@[k as int])));
            assert(loaded@.take(k + 1).map_values(|x: (i32, String)| icon_key(x)) =~= loaded@.take(k as int).map_values(|x: (i32, String)| icon_key(x)).push(icon_key(loaded@[k as int])));
            before.map_values(|x: (i32, String)| icon_key(x)).lemma_push_to_set_commute(icon_key(loaded@[k as int]));
            loaded@.take(k as int).map_values(|x: (i32, String)| icon_key(x)).lemma_push_to_set_commute(icon_key(loaded@[k as int]));
            assert(icon_set(icons@) =~= icon_set(start) + icon_set(loaded@.take(k + 1)));
        }
    }
    proof {
        assert(loaded@.take(loaded@.len() as int) == loaded@);
    }
}

fn add_covers(covers: &mut HashSet<i32>, loaded: Vec<i32>)
    ensures
        final(covers)@ == old(covers)@ + loaded@.to_set(),
{
    let ghost start = covers@;
    for k in 0..loaded.len()
        invariant
            covers@ == start + loaded@.take(k as int).to_set(),
    {
        covers.insert(loaded[k]);
        proof {
            loaded@.take(k as int).lemma_push_to_set_commute(loaded@[k as int]);
            assert(loaded@.take(k + 1) == loaded@.take(k as int).push(loaded@[k as int]));
            assert(covers@ =~= start + loaded@.take(k + 1).to_set());
        }
    }
    proof {
        assert(loaded@.take(loaded@.len() as int) == loaded@);
    }
}

/// The game lists to load again after a synchronisation: those loaded
/// among the first `n` slots, in slot order, with the current search.
pub open spec fn reload_commands(games: Seq<Option<Vec<GameListDisplay>>>, search: String, n: int) -> Seq<Command>
    decreases n,
{
    if n <= 0 {
        Seq::empty()
    } else {
        let before = reload_commands(games, search, n - 1);
        if games[n - 1] is Some {
            before.push(
                Command::LoadGameList { has_achievements: slot_key(n - 1).1, filter: slot_key(n - 1).0, search },
            )
        } else {
            before
        }
    }
}

/// The game view after it is shown as a target.
pub open spec fn targeted(d: GameDisplay) -> GameDisplay {
    GameDisplay { target: true, ..d }
}

/// The game view after it is marked complete.
pub open spec fn completed(d: GameDisplay) -> GameDisplay {
    GameDisplay { complete: true, ..d }
}

/// Shows the game view of `id`, when there is one, as a target.
fn target_view(views: &mut HashMap<i32, GameDisplay>, id: i32)
    ensures
        final(views)@ == views_with(old(views)@, id, targeted(old(views)@[id])),
{
    if let Some(view) = views.remove(&id) {
        views.insert(id, GameDisplay { target: true, ..view });
    }
}

/// Shows the game view of `id`, when there is one, as complete.
fn complete_view(views: &mut HashMap<i32, GameDisplay>, id: i32)
    ensures
        final(views)@ == views_with(old(views)@, id, completed(old(views)@[id])),
{
    if let Some(view) = views.remove(&id) {
        views.insert(id, GameDisplay { complete: true, ..view });
    }
}

/// Opens or closes the cover editor of the game view of `id`, when there
/// is one.
fn edit_cover_view(views: &mut HashMap<i32, GameDisplay>, id: i32, editing: bool)
    ensures
        final(views)@ == views_with(old(views)@, id, GameDisplay { game_cover_edit: editing, ..old(views)@[id] }),
{
    if let Some(view) = views.remove(&id) {
        views.insert(id, GameDisplay { game_cover_edit: editing, ..view });
    }
}

/// Sets the cover address typed into the game view of `id`, when there is
/// one.
fn cover_url_view(views: &mut HashMap<i32, GameDisplay>, id: i32, url: String)
    ensures
        final(views)@ == views_with(old(views)@, id, GameDisplay { game_cover_url: url, ..old(views)@[id] }),
{
    if let Some(view) = views.remove(&id) {
        views.insert(id, GameDisplay { game_cover_url: url, ..view });
    }
}

/// Shows the achievement `name` of the game view of `id`, when there is
/// one, as a goal.
fn mark_view_goal(views: &mut HashMap<i32, GameDisplay>, id: i32, name: &String)
    ensures
        if old(views)@.contains_key(id) {
            &&& final(views)@.dom() == old(views)@.dom()
            &&& forall|k: i32| #[trigger] final(views)@.contains_key(k) && k != id
                ==> final(views)@[k] == old(views)@[k]
            &&& final(views)@[id] == (GameDisplay { goals: final(views)@[id].goals, ..old(views)@[id] })
            &&& crate::ui::marks_goal(old(views)@[id].goals@, final(views)@[id].goals@, name@)
        } else {
            final(views)@ == old(views)@
        },
{
    if let Some(mut view) = views.remove(&id) {
        mark_as_goal(&mut view, name);
        views.insert(id, view);
    }
}

/// The game view of `id` changed by `f`, when there is one.
pub open spec fn views_with(views: Map<i32, GameDisplay>, id: i32, d: GameDisplay) -> Map<i32, GameDisplay> {
    if views.contains_key(id) {
        views.insert(id, d)
    } else {
        views
    }
}

/// What handling the message `GamesView` does.
#[verifier::opaque]
pub open spec fn games_view_effect(old: UiState, new: UiState, f: GameListFilter, owned: Seq<Game>, r: Seq<Command>) -> bool {
        &&& new == (UiState { view: Screen::Games(f), ..old })
        &&& r =~= seq![list_command(old, f)]
}

/// What handling the message `GoalsView` does.
#[verifier::opaque]
pub open spec fn goals_view_effect(old: UiState, new: UiState, owned: Seq<Game>, r: Seq<Command>) -> bool {
        &&& new == (UiState { view: Screen::Goals, ..old })
        &&& r =~= if old.goals is None {
            seq![Command::LoadGoals]
        } else {
            Seq::<Command>::empty()
        }
}

/// What handling the message `GenerateRandomAchievement` does.
#[verifier::opaque]
pub open spec fn generate_random_achievement_effect(old: UiState, new: UiState, id: i32, owned: Seq<Game>, r: Seq<Command>) -> bool {
        &&& new == old
        &&& r =~= seq![Command::GenerateRandomAchievement(id)]
}

/// What handling the message `TrophyCaseView` does.
#[verifier::opaque]
pub open spec fn trophy_case_view_effect(old: UiState, new: UiState, f: TrophyCaseFilter, owned: Seq<Game>, r: Seq<Command>) -> bool {
        &&& new == (UiState { view: Screen::TrophyCase(f), ..old })
        &&& r =~= seq![Command::LoadTrophies(f), Command::LoadAchievementProgress]
}

/// What handling the message `AchievementProgressLoaded` does.
#[verifier::opaque]
pub open spec fn achievement_progress_loaded_effect(old: UiState, new: UiState, p: TotalAchievementProgress, owned: Seq<Game>, r: Seq<Command>) -> bool {
        &&& new == (UiState { achievement_progress: Some(p), ..old })
        &&& r.len() == 0
}

/// What handling the message `GameView` does.
#[verifier::opaque]
pub open spec fn game_view_effect(old: UiState, new: UiState, id: i32, owned: Seq<Game>, r: Seq<Command>) -> bool {
        &&& new == (UiState { view: Screen::Game(id), ..old })
        &&& r[0] == display_command(owned, id)
        &&& if old.game_covers@.contains(id) {
            r.len() == 1
        } else {
            r.len() == 2 && (r[1] matches Command::LoadGameCovers(v) && v@ =~= seq![id])
        }
}

/// What handling the message `GameLoaded` does.
#[verifier::opaque]
pub open spec fn game_loaded_effect(old: UiState, new: UiState, display: GameDisplay, owned: Seq<Game>, r: Seq<Command>) -> bool {
        let id = display.id.id;
        let missing = missing_icons(display.goals@, id, old.goal_icons@);
        &&& new == (UiState { game_views: new.game_views, ..old })
        &&& new.game_views@ == old.game_views@.insert(id, display)
        &&& if missing.len() == 0 {
            r.len() == 0
        } else {
            r.len() == 1 && (r[0] matches Command::LoadGoalIcons { app_id, achievements } && app_id == id
                && achievements@ == missing)
        }
}

/// What handling the message `GoalIconsLoaded` does.
#[verifier::opaque]
pub open spec fn goal_icons_loaded_effect(old: UiState, new: UiState, keys: Vec<(i32, String)>, owned: Seq<Game>, r: Seq<Command>) -> bool {
        &&& new == (UiState { goal_icons: new.goal_icons, ..old })
        &&& icon_set(new.goal_icons@) == icon_set(old.goal_icons@) + icon_set(keys@)
        &&& r.len() == 0
}

/// What handling the message `GoalsLoaded` does.
#[verifier::opaque]
pub open spec fn goals_loaded_effect(old: UiState, new: UiState, goals: Vec<Goal>, owned: Seq<Game>, r: Seq<Command>) -> bool {
        &&& new == (UiState { goals: Some(goals), ..old })
        &&& r.len() == goals@.len()
        &&& forall|i: int|
            0 <= i < goals@.len() ==> #[trigger] r[i] == (Command::LoadGameDisplay {
                app_id: goals@[i].id.id,
                game_name: goals@[i].game_name,
            })
}

/// What handling the message `AchievementCheckboxToggled` does.
#[verifier::opaque]
pub open spec fn achievement_checkbox_toggled_effect(old: UiState, new: UiState, b: bool, owned: Seq<Game>, r: Seq<Command>) -> bool {
        &&& new == (UiState { games_have_achievements_filter: b, ..old })
        &&& r =~= match old.view {
            Screen::Games(f) => seq![list_command(new, f)],
            _ => Seq::<Command>::empty(),
        }
}

/// What handling the message `GamesLoaded` does.
#[verifier::opaque]
pub open spec fn games_loaded_effect(old: UiState, new: UiState, result: GameListResult, owned: Seq<Game>, r: Seq<Command>) -> bool {
        &&& new == (UiState { games: new.games, ..old })
        &&& new.games@ == old.games@.update(
            slot_of(result.filter, result.has_achievements),
            Some(result.list),
        )
        &&& r.len() == 0
}

/// What showing a drawn goal does: the goal is saved and, when the game's
/// view is loaded, the achievement shows as a goal there.
#[verifier::opaque]
pub open spec fn drawn_goal_effect(old: UiState, new: UiState, game: Game, drawn: Option<GameAchievement>, r: Seq<Command>) -> bool {
        let id = game.identifier.id;
        &&& new == (UiState { game_views: new.game_views, ..old })
        &&& match drawn {
            Some(ra) => {
                &&& r =~= seq![Command::SaveAchievementGoal(crate::ui::goal_of_random(game, ra))]
                &&& if old.game_views@.contains_key(id) {
                    &&& new.game_views@.dom() == old.game_views@.dom()
                    &&& forall|k: i32| #[trigger] new.game_views@.contains_key(k) && k != id
                        ==> new.game_views@[k] == old.game_views@[k]
                    &&& new.game_views@[id] == (GameDisplay {
                        goals: new.game_views@[id].goals,
                        ..old.game_views@[id]
                    })
                    &&& crate::ui::marks_goal(
                        old.game_views@[id].goals@,
                        new.game_views@[id].goals@,
                        ra.id@,
                    )
                } else {
                    new.game_views@ == old.game_views@
                }
            },
            None => {
                &&& r.len() == 0
                &&& new.game_views@ == old.game_views@
            },
        }
}

/// What handling the message `RandomAchievementGenerated` does: the drawn
/// goal is shown, then the goals and the game's view are loaded again.
#[verifier::opaque]
pub open spec fn random_achievement_generated_effect(old: UiState, new: UiState, outcome: Result<(Game, Option<GameAchievement>), String>, owned: Seq<Game>, r: Seq<Command>) -> bool {
        let (game, drawn) = outcome->Ok_0;
        let loads = seq![
            Command::LoadGoals,
            Command::LoadGameDisplay { app_id: game.identifier.id, game_name: game.name },
        ];
        &&& r.len() >= 2
        &&& drawn_goal_effect(old, new, game, drawn, r.subrange(0, r.len() - 2))
        &&& r.subrange(r.len() - 2, r.len() as int) =~= loads
}

/// What handling the message `SetAsGameTarget` does.
#[verifier::opaque]
pub open spec fn set_as_game_target_effect(old: UiState, new: UiState, id: i32, owned: Seq<Game>, r: Seq<Command>) -> bool {
        &&& new == (UiState { game_views: new.game_views, ..old })
        &&& new.game_views@ == views_with(old.game_views@, id, targeted(old.game_views@[id]))
        &&& r =~= seq![Command::SaveGameTarget { app_id: id, complete: false }, Command::SyncCaches]
}

/// What handling the message `SetGameAsComplete` does.
#[verifier::opaque]
pub open spec fn set_game_as_complete_effect(old: UiState, new: UiState, id: i32, owned: Seq<Game>, r: Seq<Command>) -> bool {
        &&& new == (UiState { game_views: new.game_views, ..old })
        &&& new.game_views@ == views_with(old.game_views@, id, completed(old.game_views@[id]))
        &&& r =~= seq![Command::SaveGameTarget { app_id: id, complete: true }, Command::SyncCaches]
}

/// What handling the message `RandomGame` does.
#[verifier::opaque]
pub open spec fn random_game_effect(old: UiState, new: UiState, owned: Seq<Game>, r: Seq<Command>) -> bool {
        &&& new.view matches Screen::Game(id) && exists|k: int|
            0 <= k < owned.len() && #[trigger] owned[k].identifier.id == id
        &&& new == (UiState { view: new.view, ..old })
        &&& new.view matches Screen::Game(id) && r =~= seq![display_command(owned, id)]
}

/// What handling the message `ExcludeAchievement` does.
#[verifier::opaque]
pub open spec fn exclude_achievement_effect(old: UiState, new: UiState, id: i32, name: String, owned: Seq<Game>, r: Seq<Command>) -> bool {
        &&& new == old
        &&& r =~= seq![
            Command::SaveExcludedAchievement { app_id: id, achievement_name: name },
            display_command(owned, id),
            Command::SyncCaches,
        ]
}

/// What handling the message `TrophiesLoaded` does.
#[verifier::opaque]
pub open spec fn trophies_loaded_effect(old: UiState, new: UiState, f: TrophyCaseFilter, ids: Vec<i32>, owned: Seq<Game>, r: Seq<Command>) -> bool {
        let missing = uncovered(ids@, old.game_covers@);
        &&& new == match f {
            TrophyCaseFilter::Completed => UiState { completed_trophies: Some(ids), ..old },
            TrophyCaseFilter::Perfected => UiState { perfected_trophies: Some(ids), ..old },
        }
        &&& if missing.len() == 0 {
            r.len() == 0
        } else {
            r.len() == 1 && (r[0] matches Command::LoadGameCovers(v) && v@ == missing)
        }
}

/// What handling the message `GameCoversLoaded` does.
#[verifier::opaque]
pub open spec fn game_covers_loaded_effect(old: UiState, new: UiState, ids: Vec<i32>, owned: Seq<Game>, r: Seq<Command>) -> bool {
        &&& new == (UiState { game_covers: new.game_covers, ..old })
        &&& new.game_covers@ == old.game_covers@ + ids@.to_set()
        &&& r.len() == 0
}

/// What handling the message `CachesSynced` does.
#[verifier::opaque]
pub open spec fn caches_synced_effect(old: UiState, new: UiState, outcome: Result<(), String>, owned: Seq<Game>, r: Seq<Command>) -> bool {
        &&& new == (UiState { completed_trophies: None, perfected_trophies: None, ..old })
        &&& r =~= reload_commands(old.games@, old.game_list_search, 8)
}

/// What handling the message `GameListSearch` does.
#[verifier::opaque]
pub open spec fn game_list_search_effect(old: UiState, new: UiState, search: String, owned: Seq<Game>, r: Seq<Command>) -> bool {
        &&& new == (UiState { game_list_search: search, ..old })
        &&& r =~= match old.view {
            Screen::Games(f) => seq![list_command(new, f)],
            _ => Seq::<Command>::empty(),
        }
}

/// What handling the message `EditGameCover` does.
#[verifier::opaque]
pub open spec fn edit_game_cover_effect(old: UiState, new: UiState, id: i32, owned: Seq<Game>, r: Seq<Command>) -> bool {
        &&& new == (UiState { game_views: new.game_views, ..old })
        &&& new.game_views@ == views_with(
            old.game_views@,
            id,
            GameDisplay { game_cover_edit: true, ..old.game_views@[id] },
        )
        &&& r.len() == 0
}

/// What handling the message `GameCoverURLInput` does.
#[verifier::opaque]
pub open spec fn game_cover_url_input_effect(old: UiState, new: UiState, input: String, owned: Seq<Game>, r: Seq<Command>) -> bool {
        let id = old.view->Game_0;
        &&& new == (UiState { game_views: new.game_views, ..old })
        &&& new.game_views@ == old.game_views@.insert(
            id,
            GameDisplay { game_cover_url: input, ..old.game_views@[id] },
        )
        &&& r.len() == 0
}

/// What handling the message `SaveGameCover` does.
#[verifier::opaque]
pub open spec fn save_game_cover_effect(old: UiState, new: UiState, owned: Seq<Game>, r: Seq<Command>) -> bool {
        let id = old.view->Game_0;
        &&& new == (UiState { game_views: new.game_views, ..old })
        &&& new.game_views@ == old.game_views@.insert(
            id,
            GameDisplay { game_cover_edit: false, ..old.game_views@[id] },
        )
        &&& r.len() == 2
        &&& r[0] == (Command::SaveGameCover { app_id: id, url: old.game_views@[id].game_cover_url })
        &&& r[1] matches Command::LoadGameCovers(v) && v@ =~= seq![id]
}

/// What handling a message does: `old` becomes `new` and the work `r`
/// follows, in the order it takes effect.
pub open spec fn update_effect(old: UiState, new: UiState, message: Message, owned: Seq<Game>, r: Seq<Command>) -> bool {
    match message {
        Message::GamesView(f) => games_view_effect(old, new, f, owned, r),
        Message::GoalsView => goals_view_effect(old, new, owned, r),
        Message::GenerateRandomAchievement(id) => generate_random_achievement_effect(old, new, id, owned, r),
        Message::TrophyCaseView(f) => trophy_case_view_effect(old, new, f, owned, r),
        Message::AchievementProgressLoaded(p) => achievement_progress_loaded_effect(old, new, p, owned, r),
        Message::GameView(id) => game_view_effect(old, new, id, owned, r),
        Message::GameLoaded(display) => game_loaded_effect(old, new, display, owned, r),
        Message::GoalIconsLoaded(keys) => goal_icons_loaded_effect(old, new, keys, owned, r),
        Message::GoalsLoaded(goals) => goals_loaded_effect(old, new, goals, owned, r),
        Message::AchievementCheckboxToggled(b) => achievement_checkbox_toggled_effect(old, new, b, owned, r),
        Message::GamesLoaded(result) => games_loaded_effect(old, new, result, owned, r),
        Message::RandomAchievementGenerated(outcome) => random_achievement_generated_effect(old, new, outcome, owned, r),
        Message::SetAsGameTarget(id) => set_as_game_target_effect(old, new, id, owned, r),
        Message::SetGameAsComplete(id) => set_game_as_complete_effect(old, new, id, owned, r),
        Message::RandomGame => random_game_effect(old, new, owned, r),
        Message::ExcludeAchievement(id, name) => exclude_achievement_effect(old, new, id, name, owned, r),
        Message::TrophiesLoaded((f, ids)) => trophies_loaded_effect(old, new, f, ids, owned, r),
        Message::GameCoversLoaded(ids) => game_covers_loaded_effect(old, new, ids, owned, r),
        Message::CachesSynced(outcome) => caches_synced_effect(old, new, outcome, owned, r),
        Message::GameListSearch(search) => game_list_search_effect(old, new, search, owned, r),
        Message::EditGameCover(id) => edit_game_cover_effect(old, new, id, owned, r),
        Message::GameCoverURLInput(input) => game_cover_url_input_effect(old, new, input, owned, r),
        Message::SaveGameCover => save_game_cover_effect(old, new, owned, r),
    }
}

impl UiState {
    /// Reacts to a message: the state changes as the views need, and the
    /// work that follows is handed back in the order it takes effect.
    pub fn update(&mut self, message: Message, owned: &Vec<Game>) -> (r: Vec<Command>)
        requires
            old(self).wf(),
            accepted(*old(self), owned@, message),
        ensures
            final(self).wf(),
            update_effect(*old(self), *final(self), message, owned@, r@),
    {
        match message {
            Message::GamesView(filter) => self.on_games_view(filter, owned),
            Message::GoalsView => self.on_goals_view(owned),
            Message::GenerateRandomAchievement(app_id) => self.on_generate_random_achievement(app_id, owned),
            Message::TrophyCaseView(filter) => self.on_trophy_case_view(filter, owned),
            Message::AchievementProgressLoaded(progress) => self.on_achievement_progress_loaded(progress, owned),
            Message::GameView(id) => self.on_game_view(id, owned),
            Message::GameLoaded(display) => self.on_game_loaded(display, owned),
            Message::GoalIconsLoaded(keys) => self.on_goal_icons_loaded(keys, owned),
            Message::GoalsLoaded(goals) => self.on_goals_loaded(goals, owned),
            Message::AchievementCheckboxToggled(is_checked) => self.on_achievement_checkbox_toggled(is_checked, owned),
            Message::GamesLoaded(result) => self.on_games_loaded(result, owned),
            Message::RandomAchievementGenerated(outcome) => self.on_random_achievement_generated(outcome, owned),
            Message::SetAsGameTarget(id) => self.on_set_as_game_target(id, owned),
            Message::SetGameAsComplete(id) => self.on_set_game_as_complete(id, owned),
            Message::RandomGame => self.on_random_game(owned),
            Message::ExcludeAchievement(id, achievement_name) => self.on_exclude_achievement(id, achievement_name, owned),
            Message::TrophiesLoaded((filter, trophies)) => self.on_trophies_loaded(filter, trophies, owned),
            Message::GameCoversLoaded(ids) => self.on_game_covers_loaded(ids, owned),
            Message::CachesSynced(outcome) => self.on_caches_synced(outcome, owned),
            Message::GameListSearch(search) => self.on_game_list_search(search, owned),
            Message::EditGameCover(id) => self.on_edit_game_cover(id, owned),
            Message::GameCoverURLInput(input) => self.on_game_cover_url_input(input, owned),
            Message::SaveGameCover => self.on_save_game_cover(owned),
        }
    }

    fn on_games_view(&mut self, filter: GameListFilter, _owned: &Vec<Game>) -> (r: Vec<Command>)
        requires
            old(self).wf(),
            accepted(*old(self), _owned@, Message::GamesView(filter)),
        ensures
            final(self).wf(),
            games_view_effect(*old(self), *final(self), filter, _owned@, r@),
    {
        proof {
            reveal(games_view_effect);
        }
        let mut commands: Vec<Command> = Vec::new();
        self.view = Screen::Games(filter);
        commands.push(load_list(self, filter));
        commands
    }

    fn on_goals_view(&mut self, _owned: &Vec<Game>) -> (r: Vec<Command>)
        requires
            old(self).wf(),
            accepted(*old(self), _owned@, Message::GoalsView),
        ensures
            final(self).wf(),
            goals_view_effect(*old(self), *final(self), _owned@, r@),
    {
        proof {
            reveal(goals_view_effect);
        }
        let mut commands: Vec<Command> = Vec::new();
        self.view = Screen::Goals;
        if self.goals.is_none() {
            commands.push(Command::LoadGoals);
        }
        commands
    }

    fn on_generate_random_achievement(&mut self, app_id: i32, _owned: &Vec<Game>) -> (r: Vec<Command>)
        requires
            old(self).wf(),
            accepted(*old(self), _owned@, Message::GenerateRandomAchievement(app_id)),
        ensures
            final(self).wf(),
            generate_random_achievement_effect(*old(self), *final(self), app_id, _owned@, r@),
    {
        proof {
            reveal(generate_random_achievement_effect);
        }
        let mut commands: Vec<Command> = Vec::new();
        commands.push(Command::GenerateRandomAchievement(app_id));
        commands
    }

    fn on_trophy_case_view(&mut self, filter: TrophyCaseFilter, _owned: &Vec<Game>) -> (r: Vec<Command>)
        requires
            old(self).wf(),
            accepted(*old(self), _owned@, Message::TrophyCaseView(filter)),
        ensures
            final(self).wf(),
            trophy_case_view_effect(*old(self), *final(self), filter, _owned@, r@),
    {
        proof {
            reveal(trophy_case_view_effect);
        }
        let mut commands: Vec<Command> = Vec::new();
        self.view = Screen::TrophyCase(filter);
        commands.push(Command::LoadTrophies(filter));
        commands.push(Command::LoadAchievementProgress);
        commands
    }

    fn on_achievement_progress_loaded(&mut self, progress: TotalAchievementProgress, _owned: &Vec<Game>) -> (r: Vec<Command>)
        requires
            old(self).wf(),
            accepted(*old(self), _owned@, Message::AchievementProgressLoaded(progress)),
        ensures
            final(self).wf(),
            achievement_progress_loaded_effect(*old(self), *final(self), progress, _owned@, r@),
    {
        proof {
            reveal(achievement_progress_loaded_effect);
        }
        self.achievement_progress = Some(progress);
        Vec::new()
    }

    fn on_game_view(&mut self, id: i32, owned: &Vec<Game>) -> (r: Vec<Command>)
        requires
            old(self).wf(),
            accepted(*old(self), owned@, Message::GameView(id)),
        ensures
            final(self).wf(),
            game_view_effect(*old(self), *final(self), id, owned@, r@),
    {
        proof {
            reveal(game_view_effect);
        }
        let mut commands: Vec<Command> = Vec::new();
        self.view = Screen::Game(id);
        commands.push(load_display(owned, id));
        if !self.game_covers.contains(&id) {
            commands.push(Command::LoadGameCovers(vec![id]));
        }
        commands
    }

    fn on_game_loaded(&mut self, display: GameDisplay, _owned: &Vec<Game>) -> (r: Vec<Command>)
        requires
            old(self).wf(),
            accepted(*old(self), _owned@, Message::GameLoaded(display)),
        ensures
            final(self).wf(),
            game_loaded_effect(*old(self), *final(self), display, _owned@, r@),
    {
        proof {
            reveal(game_loaded_effect);
        }
        let mut commands: Vec<Command> = Vec::new();
        let id = display.id.id;
        let missing = icons_to_load(&display.goals, id, &self.goal_icons);
        if missing.len() > 0 {
            commands.push(Command::LoadGoalIcons { app_id: id, achievements: missing });
        }
        self.game_views.insert(id, display);
        commands
    }

    fn on_goal_icons_loaded(&mut self, keys: Vec<(i32, String)>, _owned: &Vec<Game>) -> (r: Vec<Command>)
        requires
            old(self).wf(),
            accepted(*old(self), _owned@, Message::GoalIconsLoaded(keys)),
        ensures
            final(self).wf(),
            goal_icons_loaded_effect(*old(self), *final(self), keys, _owned@, r@),
    {
        proof {
            reveal(goal_icons_loaded_effect);
        }
        add_icons(&mut self.goal_icons, keys);
        Vec::new()
    }

    fn on_goals_loaded(&mut self, goals: Vec<Goal>, _owned: &Vec<Game>) -> (r: Vec<Command>)
        requires
            old(self).wf(),
            accepted(*old(self), _owned@, Message::GoalsLoaded(goals)),
        ensures
            final(self).wf(),
            goals_loaded_effect(*old(self), *final(self), goals, _owned@, r@),
    {
        proof {
            reveal(goals_loaded_effect);
        }
        let mut commands: Vec<Command> = Vec::new();
        for i in 0..goals.len()
            invariant
                commands@.len() == i,
                forall|j: int|
                    0 <= j < i ==> #[trigger] commands@[j] == (Command::LoadGameDisplay {
                        app_id: goals@[j].id.id,
                        game_name: goals@[j].game_name,
                    }),
        {
            commands.push(Command::LoadGameDisplay { app_id: goals[i].id.id, game_name: goals[i].game_name.clone() });
        }
        self.goals = Some(goals);
        commands
    }

    fn on_achievement_checkbox_toggled(&mut self, is_checked: bool, _owned: &Vec<Game>) -> (r: Vec<Command>)
        requires
            old(self).wf(),
            accepted(*old(self), _owned@, Message::AchievementCheckboxToggled(is_checked)),
        ensures
            final(self).wf(),
            achievement_checkbox_toggled_effect(*old(self), *final(self), is_checked, _owned@, r@),
    {
        proof {
            reveal(achievement_checkbox_toggled_effect);
        }
        let mut commands: Vec<Command> = Vec::new();
        self.games_have_achievements_filter = is_checked;
        match self.view {
            Screen::Games(filter) => {
                commands.push(load_list(self, filter));
            },
            _ => {},
        }
        commands
    }

    fn on_games_loaded(&mut self, result: GameListResult, _owned: &Vec<Game>) -> (r: Vec<Command>)
        requires
            old(self).wf(),
            accepted(*old(self), _owned@, Message::GamesLoaded(result)),
        ensures
            final(self).wf(),
            games_loaded_effect(*old(self), *final(self), result, _owned@, r@),
    {
        proof {
            reveal(games_loaded_effect);
        }
        let slot = list_slot(result.filter, result.has_achievements);
        self.games.set(slot, Some(result.list));
        Vec::new()
    }

    fn on_random_achievement_generated(&mut self, outcome: Result<(Game, Option<GameAchievement>), String>, _owned: &Vec<Game>) -> (r: Vec<Command>)
        requires
            old(self).wf(),
            accepted(*old(self), _owned@, Message::RandomAchievementGenerated(outcome)),
        ensures
            final(self).wf(),
            random_achievement_generated_effect(*old(self), *final(self), outcome, _owned@, r@),
    {
        proof {
            reveal(random_achievement_generated_effect);
        }
        let (game, drawn) = match outcome {
            Ok(pair) => pair,
            Err(_) => {
                return Vec::new();
            },
        };
        let mut commands = self.handle_generated_random_achievement(&game, drawn);
        let ghost handled = commands@;
        commands.push(Command::LoadGoals);
        commands.push(Command::LoadGameDisplay { app_id: game.identifier.id, game_name: game.name });
        proof {
            assert(commands@.subrange(0, commands@.len() - 2) =~= handled);
        }
        commands
    }

    /// Shows a drawn goal: the goal to save is handed back and, when the
    /// game's view is loaded, the achievement shows as a goal there.
    pub fn handle_generated_random_achievement(&mut self, game: &Game, random_achievement: Option<GameAchievement>) -> (r: Vec<Command>)
        ensures
            final(self).wf() == old(self).wf(),
            drawn_goal_effect(*old(self), *final(self), *game, random_achievement, r@),
    {
        proof {
            reveal(drawn_goal_effect);
        }
        let mut commands: Vec<Command> = Vec::new();
        if let Some(ra) = random_achievement {
        commands.push(Command::SaveAchievementGoal(goal_from_random_achievement(game, &ra)));
        mark_view_goal(&mut self.game_views, game.identifier.id, &ra.id);
        }
        commands
    }

    fn on_set_as_game_target(&mut self, id: i32, _owned: &Vec<Game>) -> (r: Vec<Command>)
        requires
            old(self).wf(),
            accepted(*old(self), _owned@, Message::SetAsGameTarget(id)),
        ensures
            final(self).wf(),
            set_as_game_target_effect(*old(self), *final(self), id, _owned@, r@),
    {
        proof {
            reveal(set_as_game_target_effect);
        }
        let mut commands: Vec<Command> = Vec::new();
        commands.push(Command::SaveGameTarget { app_id: id, complete: false });
        target_view(&mut self.game_views, id);
        commands.push(Command::SyncCaches);
        commands
    }

    fn on_set_game_as_complete(&mut self, id: i32, _owned: &Vec<Game>) -> (r: Vec<Command>)
        requires
            old(self).wf(),
            accepted(*old(self), _owned@, Message::SetGameAsComplete(id)),
        ensures
            final(self).wf(),
            set_game_as_complete_effect(*old(self), *final(self), id, _owned@, r@),
    {
        proof {
            reveal(set_game_as_complete_effect);
        }
        let mut commands: Vec<Command> = Vec::new();
        commands.push(Command::SaveGameTarget { app_id: id, complete: true });
        complete_view(&mut self.game_views, id);
        commands.push(Command::SyncCaches);
        commands
    }

    fn on_random_game(&mut self, owned: &Vec<Game>) -> (r: Vec<Command>)
        requires
            old(self).wf(),
            accepted(*old(self), owned@, Message::RandomGame),
        ensures
            final(self).wf(),
            random_game_effect(*old(self), *final(self), owned@, r@),
    {
        proof {
            reveal(random_game_effect);
        }
        let mut commands: Vec<Command> = Vec::new();
        let k = random_index(owned.len());
        let id = owned[k].identifier.id;
        self.view = Screen::Game(id);
        proof {
            assert(owned@[k as int].identifier.id == id);
            lemma_owned_index(owned@, id);
        }
        commands.push(load_display(owned, id));
        commands
    }

    fn on_exclude_achievement(&mut self, id: i32, achievement_name: String, owned: &Vec<Game>) -> (r: Vec<Command>)
        requires
            old(self).wf(),
            accepted(*old(self), owned@, Message::ExcludeAchievement(id, achievement_name)),
        ensures
            final(self).wf(),
            exclude_achievement_effect(*old(self), *final(self), id, achievement_name, owned@, r@),
    {
        proof {
            reveal(exclude_achievement_effect);
            assert(owned_index(owned@, id) is Some);
        }
        let mut commands: Vec<Command> = Vec::new();
        commands.push(Command::SaveExcludedAchievement { app_id: id, achievement_name });
        commands.push(load_display(owned, id));
        commands.push(Command::SyncCaches);
        commands
    }

    fn on_trophies_loaded(&mut self, filter: TrophyCaseFilter, trophies: Vec<i32>, _owned: &Vec<Game>) -> (r: Vec<Command>)
        requires
            old(self).wf(),
            accepted(*old(self), _owned@, Message::TrophiesLoaded((filter, trophies))),
        ensures
            final(self).wf(),
            trophies_loaded_effect(*old(self), *final(self), filter, trophies, _owned@, r@),
    {
        proof {
            reveal(trophies_loaded_effect);
        }
        let mut commands: Vec<Command> = Vec::new();
        let missing = missing_covers(&trophies, &self.game_covers);
        match filter {
            TrophyCaseFilter::Completed => {
                self.completed_trophies = Some(trophies);
            },
            TrophyCaseFilter::Perfected => {
                self.perfected_trophies = Some(trophies);
            },
        }
        if missing.len() > 0 {
            commands.push(Command::LoadGameCovers(missing));
        }
        commands
    }

    fn on_game_covers_loaded(&mut self, ids: Vec<i32>, _owned: &Vec<Game>) -> (r: Vec<Command>)
        requires
            old(self).wf(),
            accepted(*old(self), _owned@, Message::GameCoversLoaded(ids)),
        ensures
            final(self).wf(),
            game_covers_loaded_effect(*old(self), *final(self), ids, _owned@, r@),
    {
        proof {
            reveal(game_covers_loaded_effect);
        }
        add_covers(&mut self.game_covers, ids);
        Vec::new()
    }

    fn on_caches_synced(&mut self, outcome: Result<(), String>, _owned: &Vec<Game>) -> (r: Vec<Command>)
        requires
            old(self).wf(),
            accepted(*old(self), _owned@, Message::CachesSynced(outcome)),
        ensures
            final(self).wf(),
            caches_synced_effect(*old(self), *final(self), outcome, _owned@, r@),
    {
        proof {
            reveal(caches_synced_effect);
        }
        let mut commands: Vec<Command> = Vec::new();
        for slot in 0..8usize
            invariant
                self.games@.len() == 8,
                commands@ == reload_commands(self.games@, self.game_list_search, slot as int),
        {
            if self.games[slot].is_some() {
                let (filter, has_achievements) = slot_filter(slot);
                commands.push(Command::LoadGameList {
                    has_achievements,
                    filter,
                    search: self.game_list_search.clone(),
                });
            }
        }
        self.completed_trophies = None;
        self.perfected_trophies = None;
        commands
    }

    fn on_game_list_search(&mut self, search: String, _owned: &Vec<Game>) -> (r: Vec<Command>)
        requires
            old(self).wf(),
            accepted(*old(self), _owned@, Message::GameListSearch(search)),
        ensures
            final(self).wf(),
            game_list_search_effect(*old(self), *final(self), search, _owned@, r@),
    {
        proof {
            reveal(game_list_search_effect);
        }
        let mut commands: Vec<Command> = Vec::new();
        self.game_list_search = search;
        match self.view {
            Screen::Games(filter) => {
                commands.push(load_list(self, filter));
            },
            _ => {},
        }
        commands
    }

    fn on_edit_game_cover(&mut self, id: i32, _owned: &Vec<Game>) -> (r: Vec<Command>)
        requires
            old(self).wf(),
            accepted(*old(self), _owned@, Message::EditGameCover(id)),
        ensures
            final(self).wf(),
            edit_game_cover_effect(*old(self), *final(self), id, _owned@, r@),
    {
        proof {
            reveal(edit_game_cover_effect);
        }
        edit_cover_view(&mut self.game_views, id, true);
        Vec::new()
    }

    fn on_game_cover_url_input(&mut self, input: String, _owned: &Vec<Game>) -> (r: Vec<Command>)
        requires
            old(self).wf(),
            accepted(*old(self), _owned@, Message::GameCoverURLInput(input)),
        ensures
            final(self).wf(),
            game_cover_url_input_effect(*old(self), *final(self), input, _owned@, r@),
    {
        proof {
            reveal(game_cover_url_input_effect);
        }
        if let Screen::Game(id) = self.view {
            cover_url_view(&mut self.game_views, id, input);
        }
        Vec::new()
    }

    fn on_save_game_cover(&mut self, _owned: &Vec<Game>) -> (r: Vec<Command>)
        requires
            old(self).wf(),
            accepted(*old(self), _owned@, Message::SaveGameCover),
        ensures
            final(self).wf(),
            save_game_cover_effect(*old(self), *final(self), _owned@, r@),
    {
        proof {
            reveal(save_game_cover_effect);
        }
        let mut commands: Vec<Command> = Vec::new();
        if let Screen::Game(id) = self.view {
            if let Some(view) = self.game_views.get(&id) {
                commands.push(Command::SaveGameCover { app_id: id, url: view.game_cover_url.clone() });
                edit_cover_view(&mut self.game_views, id, false);
                commands.push(Command::LoadGameCovers(vec![id]));
            }
        }
        commands
    }
}

} // verus!

verus! {

/// Law: a loaded game list is the one the games view shows. After the
/// list for a filter and achievement flag is loaded, and while that flag
/// is the current one, the games view of that filter shows that list.
pub proof fn lemma_loaded_list_is_shown(
    old: UiState,
    new: UiState,
    result: GameListResult,
    owned: Seq<Game>,
    r: Seq<Command>,
)
    requires
        old.wf(),
        games_loaded_effect(old, new, result, owned, r),
        old.games_have_achievements_filter == result.has_achievements,
    ensures
        new.games@[slot_of(result.filter, new.games_have_achievements_filter)] == Some(result.list),
{
    reveal(games_loaded_effect);
}

/// Law: a loaded cover is not loaded again. Once the covers of some games
/// are loaded, opening the view of one of them loads the view alone.
pub proof fn lemma_loaded_cover_not_reloaded(
    s0: UiState,
    s1: UiState,
    ids: Vec<i32>,
    s2: UiState,
    id: i32,
    owned: Seq<Game>,
    r1: Seq<Command>,
    r2: Seq<Command>,
)
    requires
        game_covers_loaded_effect(s0, s1, ids, owned, r1),
        ids@.contains(id),
        game_view_effect(s1, s2, id, owned, r2),
    ensures
        r2 =~= seq![display_command(owned, id)],
{
    reveal(game_covers_loaded_effect);
    reveal(game_view_effect);
    assert(s1.game_covers@.contains(id));
}

/// Law: loaded icons are not loaded again. Once the icons of a game view's
/// achievements are loaded, loading that view again asks for no icons.
pub proof fn lemma_loaded_icons_not_reloaded(
    s0: UiState,
    s1: UiState,
    keys: Vec<(i32, String)>,
    s2: UiState,
    display: GameDisplay,
    owned: Seq<Game>,
    r1: Seq<Command>,
    r2: Seq<Command>,
)
    requires
        goal_icons_loaded_effect(s0, s1, keys, owned, r1),
        forall|k: int|
            0 <= k < display.goals@.len() ==> icon_set(keys@).contains(
                (display.id.id, #[trigger] display.goals@[k].achievement_name@),
            ),
        game_loaded_effect(s1, s2, display, owned, r2),
    ensures
        r2.len() == 0,
{
    reveal(goal_icons_loaded_effect);
    reveal(game_loaded_effect);
    let id = display.id.id;
    let keep = |g: GameGoalDisplay| !icon_set(s1.goal_icons@).contains((id, g.achievement_name@));
    assert forall|k: int| 0 <= k < display.goals@.len() implies !keep(display.goals@[k]) by {
        assert(icon_set(keys@).contains((id, display.goals@[k].achievement_name@)));
    }
    lemma_filter_none(display.goals@, keep);
}

proof fn lemma_filter_none<A>(s: Seq<A>, keep: spec_fn(A) -> bool)
    requires
        forall|k: int| 0 <= k < s.len() ==> !keep(#[trigger] s[k]),
    ensures
        s.filter(keep).len() == 0,
    decreases s.len(),
{
    reveal(Seq::filter);
    if s.len() > 0 {
        lemma_filter_none(s.drop_last(), keep);
        assert(forall|k: int| 0 <= k < s.drop_last().len() ==> s.drop_last()[k] == s[k]);
    }
}

} // verus!

verus! {

/// Some game of `games` has id `id`.
pub open spec fn has_id(games: Seq<Game>, id: i32) -> bool {
    exists|i: int| 0 <= i < games.len() && #[trigger] games[i].identifier.id == id
}

/// No two games of `games` share an id.
pub open spec fn ids_distinct(games: Seq<Game>) -> bool {
    forall|i: int, j: int| 0 <= i < j < games.len() ==> #[trigger] games[i].identifier.id != #[trigger] games[j].identifier.id
}

/// The owned games keyed by id: each game replaces the earlier games with
/// its id, so what stays is the last game of each id, in the order of
/// those last games.
pub open spec fn keyed_by_id(games: Seq<Game>) -> Seq<Game>
    decreases games.len(),
{
    if games.len() == 0 {
        Seq::empty()
    } else {
        let last = games.last();
        keyed_by_id(games.drop_last()).filter(|g: Game| g.identifier.id != last.identifier.id).push(last)
    }
}

proof fn lemma_filter_keeps_distinct(s: Seq<Game>, p: spec_fn(Game) -> bool)
    requires
        ids_distinct(s),
    ensures
        ids_distinct(s.filter(p)),
    decreases s.len(),
{
    reveal(Seq::filter);
    if s.len() > 0 {
        let d = s.drop_last();
        assert(ids_distinct(d)) by {
            assert forall|i: int, j: int| 0 <= i < j < d.len() implies #[trigger] d[i].identifier.id != #[trigger] d[j].identifier.id by {
                assert(d[i] == s[i] && d[j] == s[j]);
            }
        }
        lemma_filter_keeps_distinct(d, p);
        let f = d.filter(p);
        if p(s.last()) {
            assert forall|k: int| 0 <= k < f.len() implies #[trigger] f[k].identifier.id != s.last().identifier.id by {
                assert(f.contains(f[k]));
                d.lemma_filter_contains_rev(p, f[k]);
                let i = choose|i: int| 0 <= i < d.len() && d[i] == f[k];
                assert(s[i] == d[i]);
                assert(s[i].identifier.id != s[s.len() - 1].identifier.id);
            }
            let r = f.push(s.last());
            assert forall|i: int, j: int| 0 <= i < j < r.len() implies #[trigger] r[i].identifier.id != #[trigger] r[j].identifier.id by {
                if j == r.len() - 1 {
                    assert(r[i] == f[i]);
                } else {
                    assert(r[i] == f[i] && r[j] == f[j]);
                }
            }
        }
    }
}

/// Law: keying the owned games by id keeps one game of each id, and the
/// last one. No two kept games share an id; an id is kept exactly when
/// some owned game has it; and the game kept for an id is the one that
/// `owned_index` finds.
pub proof fn lemma_keyed_by_id(games: Seq<Game>)
    ensures
        ids_distinct(keyed_by_id(games)),
        forall|id: i32| #[trigger] has_id(keyed_by_id(games), id) <==> has_id(games, id),
        forall|k: int|
            0 <= k < keyed_by_id(games).len() ==> (owned_index(games, #[trigger] keyed_by_id(games)[k].identifier.id)
                matches Some(i) && games[i] == keyed_by_id(games)[k]),
    decreases games.len(),
{
    if games.len() > 0 {
        let d = games.drop_last();
        let last = games.last();
        let p = |g: Game| g.identifier.id != last.identifier.id;
        lemma_keyed_by_id(d);
        let kd = keyed_by_id(d);
        let f = kd.filter(p);
        let r = keyed_by_id(games);
        assert(r == f.push(last));
        lemma_filter_keeps_distinct(kd, p);
        assert forall|k: int| 0 <= k < f.len() implies #[trigger] f[k].identifier.id != last.identifier.id && kd.contains(f[k]) by {
            kd.lemma_filter_pred(p, k);
            assert(f.contains(f[k]));
            kd.lemma_filter_contains_rev(p, f[k]);
        }
        assert forall|i: int, j: int| 0 <= i < j < r.len() implies #[trigger] r[i].identifier.id != #[trigger] r[j].identifier.id by {
            if j == r.len() - 1 {
                assert(r[i] == f[i]);
            } else {
                assert(r[i] == f[i] && r[j] == f[j]);
            }
        }
        assert forall|id: i32| #[trigger] has_id(r, id) <==> has_id(games, id) by {
            if id == last.identifier.id {
                assert(r[r.len() - 1] == last);
                assert(games[games.len() - 1] == last);
            } else {
                if has_id(r, id) {
                    let k = choose|k: int| 0 <= k < r.len() && #[trigger] r[k].identifier.id == id;
                    assert(r[k] == f[k]);
                    let k2 = choose|k2: int| 0 <= k2 < kd.len() && kd[k2] == f[k];
                    assert(kd[k2].identifier.id == id);
                    assert(has_id(kd, id));
                    let i = choose|i: int| 0 <= i < d.len() && #[trigger] d[i].identifier.id == id;
                    assert(games[i] == d[i]);
                }
                if has_id(games, id) {
                    let i = choose|i: int| 0 <= i < games.len() && #[trigger] games[i].identifier.id == id;
                    assert(d[i] == games[i]);
                    assert(has_id(d, id));
                    assert(has_id(kd, id));
                    let k = choose|k: int| 0 <= k < kd.len() && #[trigger] kd[k].identifier.id == id;
                    assert(p(kd[k]));
                    kd.lemma_filter_contains(p, k);
                    let k2 = choose|k2: int| 0 <= k2 < f.len() && f[k2] == kd[k];
                    assert(r[k2] == f[k2]);
                    assert(r[k2].identifier.id == id);
                }
            }
        }
        assert forall|k: int| 0 <= k < r.len() implies (owned_index(games, #[trigger] r[k].identifier.id) matches Some(i)
            && games[i] == r[k]) by {
            if k == r.len() - 1 {
                assert(r[k] == last);
            } else {
                assert(r[k] == f[k]);
                let e = f[k];
                let k2 = choose|k2: int| 0 <= k2 < kd.len() && kd[k2] == e;
                assert(owned_index(d, kd[k2].identifier.id) matches Some(i) && (d[i] == kd[k2]));
                assert(e.identifier.id != last.identifier.id);
                assert(owned_index(games, e.identifier.id) == owned_index(d, e.identifier.id));
                let i = owned_index(d, e.identifier.id)->0;
                lemma_owned_index(d, e.identifier.id);
                assert(games[i] == d[i]);
            }
        }
    }
}

/// The games of `games` without those of id `id`, in order.
fn without_id(games: &Vec<Game>, id: i32) -> (r: Vec<Game>)
    ensures
        r@ == games@.filter(|g: Game| g.identifier.id != id),
{
    let ghost keep = |g: Game| g.identifier.id != id;
    let mut r: Vec<Game> = Vec::new();
    for i in 0..games.len()
        invariant
            keep == (|g: Game| g.identifier.id != id),
            r@ == games@.take(i as int).filter(keep),
    {
        proof {
            assert(games@.take(i + 1).drop_last() == games@.take(i as int));
            reveal(Seq::filter);
        }
        if games[i].identifier.id != id {
            r.push(games[i].clone());
        }
    }
    proof {
        assert(games@.take(games@.len() as int) == games@);
    }
    r
}

/// The owned games keyed by id, as the application holds them: of games
/// that share an id, the last one stays, in place of the others.
pub fn owned_by_id(games: &Vec<Game>) -> (r: Vec<Game>)
    ensures
        r@ == keyed_by_id(games@),
{
    let mut r: Vec<Game> = Vec::new();
    for i in 0..games.len()
        invariant
            r@ == keyed_by_id(games@.take(i as int)),
    {
        proof {
            assert(games@.take(i + 1).drop_last() == games@.take(i as int));
            assert(games@.take(i + 1).last() == games@[i as int]);
        }
        let mut kept = without_id(&r, games[i].identifier.id);
        kept.push(games[i].clone());
        r = kept;
    }
    proof {
        assert(games@.take(games@.len() as int) == games@);
    }
    r
}

} // verus!
