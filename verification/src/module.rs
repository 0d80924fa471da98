//! The modules (game platforms) the application supports, the identity of
//! a game within a module, and the settings that enable a module.

use vstd::prelude::*;
use crate::steam_api::OwnedGame;

verus! {

/// The credentials of a Steam account: the Web API key and the account id.
#[derive(Debug, PartialEq, Eq, Hash)]
pub struct SteamCredentials {
    key: String,
    steam_id: String,
}

impl SteamCredentials {
    /// The Web API key.
    pub closed spec fn key_view(&self) -> Seq<char> {
        self.key@
    }

    /// The Steam account id.
    pub closed spec fn steam_id_view(&self) -> Seq<char> {
        self.steam_id@
    }

    /// The Web API key.
    pub fn key(&self) -> (r: &String)
        ensures
            r@ == self.key_view(),
    {
        &self.key
    }

    /// The Steam account id.
    pub fn steam_id(&self) -> (r: &String)
        ensures
            r@ == self.steam_id_view(),
    {
        &self.steam_id
    }
}

impl Clone for SteamCredentials {
    fn clone(&self) -> (r: Self)
        ensures
            r == *self,
    {
        SteamCredentials { key: self.key.clone(), steam_id: self.steam_id.clone() }
    }
}

/// A list of all available modules that are supported.
#[derive(Debug, PartialEq, Eq, Hash)]
pub enum Module {
    STEAM(SteamCredentials),
}

impl Clone for Module {
    fn clone(&self) -> (r: Self)
        ensures
            r == *self,
    {
        match self {
            Module::STEAM(c) => Module::STEAM(c.clone()),
        }
    }
}

/// A game within a module.
#[derive(Debug, PartialEq, Eq, Hash)]
pub struct GameIdentifier {
    pub module: Module,
    pub id: i32,
}

impl Clone for GameIdentifier {
    fn clone(&self) -> (r: Self)
        ensures
            r == *self,
    {
        GameIdentifier { module: self.module.clone(), id: self.id }
    }
}

/// The generic interface for a game definition. `last_played` is the time
/// the game was last played, in seconds since the Unix epoch.
#[derive(Debug)]
pub struct Game {
    pub identifier: GameIdentifier,
    pub name: String,
    /// The number of minutes played.
    pub playtime_forever: Option<u32>,
    pub last_played: i64,
}

impl Clone for Game {
    fn clone(&self) -> (r: Self)
        ensures
            r == *self,
    {
        Game {
            identifier: self.identifier.clone(),
            name: self.name.clone(),
            playtime_forever: self.playtime_forever,
            last_played: self.last_played,
        }
    }
}

/// The settings key under which the Steam account id is stored.
pub const STEAM_ID_KEY: &'static str = "steam_id";

/// What enabling a module needs.
pub enum ModuleEnable {
    STEAM(SteamEnable),
}

/// Enabling Steam needs the account id.
pub struct SteamEnable {
    steam_id: String,
}

impl SteamEnable {
    /// The account id to enable.
    pub closed spec fn steam_id_view(&self) -> Seq<char> {
        self.steam_id@
    }

    pub fn new(steam_id: String) -> (r: Self)
        ensures
            r.steam_id_view() == steam_id@,
    {
        SteamEnable { steam_id }
    }
}

/// The settings entry, key and value, that enabling a module stores.
pub fn enable_module(module: ModuleEnable) -> (r: (String, String))
    ensures
        match module {
            ModuleEnable::STEAM(s) => r.0@ == STEAM_ID_KEY@ && r.1@ == s.steam_id_view(),
        },
{
    match module {
        ModuleEnable::STEAM(steam_enable) => {
            (String::from_str(STEAM_ID_KEY), steam_enable.steam_id)
        },
    }
}

/// The modules that the stored settings enable: Steam when an account id
/// is stored, with the Web API key taken from the environment.
pub fn get_modules(steam_id: Option<String>, api_key: Option<String>) -> (r: Vec<Module>)
    requires
        steam_id is Some ==> api_key is Some,
    ensures
        steam_id is None ==> r@.len() == 0,
        steam_id is Some ==> r@.len() == 1 && (r@[0] matches Module::STEAM(c) && c.steam_id_view()
            == steam_id->0@ && c.key_view() == api_key->0@),
{
    let mut modules: Vec<Module> = Vec::new();
    if let Some(id) = steam_id {
        let key = match api_key {
            Some(k) => k,
            None => {
                return modules;
            },
        };
        let credentials = SteamCredentials { key, steam_id: id };
        modules.push(Module::STEAM(credentials));
    }
    modules
}

/// The game of an owned Steam game in a module.
pub open spec fn game_of(module: Module, g: OwnedGame) -> Game {
    Game {
        identifier: GameIdentifier { module, id: g.appid },
        name: g.name,
        playtime_forever: Some(g.playtime_forever as u32),
        last_played: g.last_played,
    }
}

/// The games of a module, from the games the account owns, in their order.
pub fn get_module_games(module: &Module, owned: &Vec<OwnedGame>) -> (r: Vec<Game>)
    ensures
        r@.len() == owned@.len(),
        forall|i: int| 0 <= i < owned@.len() ==> #[trigger] r@[i] == game_of(*module, owned@[i]),
{
    let mut games: Vec<Game> = Vec::new();
    for i in 0..owned.len()
        invariant
            games@.len() == i,
            forall|j: int| 0 <= j < i ==> #[trigger] games@[j] == game_of(*module, owned@[j]),
    {
        let g = &owned[i];
        games.push(Game {
            identifier: GameIdentifier { module: module.clone(), id: g.appid },
            name: g.name.clone(),
            playtime_forever: Some(g.playtime_forever as u32),
            last_played: g.last_played,
        });
    }
    games
}

} // verus!
